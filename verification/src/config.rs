//! Server configuration: command-line and environment arguments, and their validation.
use vstd::prelude::*;
use vstd::utf8::encode_utf8;
use crate::text::{str_eq, starts_with, find_char, count_char_exec, substring, has_prefix, index_of, count_char, parse_unsigned, parse_unsigned_exec, lemma_count_append, lemma_count_zero_absent, lemma_index_of_first};

verus! {

/// Where configuration came from.
#[derive(Debug, Clone, Copy, PartialEq, Eq, Structural)]
pub enum ConfigSource {
    Cli,
    Env,
    File,
}

/// What was wrong with a configuration.
#[derive(Debug, Clone, Copy, PartialEq, Eq, Structural)]
pub enum ConfigErrorKind {
    /// A command-line token that is not an option
    UnexpectedArgument,
    /// An option with more than one `=`, or too short to hold a value after it
    BadlyFormattedArgument,
    /// An option without a value
    MissingValue,
    /// An option that this source does not know
    UnknownArgument,
    /// An option given more than once where only one value is allowed
    DuplicateValue,
    /// An option whose value is not valid
    InvalidValue,
    /// A TLS endpoint without a TLS key or certificate
    TlsFilesMissing,
    /// A file that could not be read
    FileUnavailable,
    /// Configuration given both on the command line and in the environment
    Conflict,
}

/// A configuration error: its source, its kind, and the argument or path concerned.
#[derive(Debug)]
pub struct ConfigError {
    pub source: ConfigSource,
    pub kind: ConfigErrorKind,
    pub detail: String,
}

/// The mathematical value of a [`ConfigError`].
pub struct ConfigErrorV {
    pub source: ConfigSource,
    pub kind: ConfigErrorKind,
    pub detail: Seq<char>,
}

impl View for ConfigError {
    type V = ConfigErrorV;

    open spec fn view(&self) -> ConfigErrorV {
        ConfigErrorV { source: self.source, kind: self.kind, detail: self.detail@ }
    }
}

pub open spec fn cfg_err(source: ConfigSource, kind: ConfigErrorKind, detail: Seq<char>) -> ConfigErrorV {
    ConfigErrorV { source, kind, detail }
}

fn new_err(source: ConfigSource, kind: ConfigErrorKind, detail: String) -> (r: ConfigError)
    ensures
        r@ == cfg_err(source, kind, detail@),
{
    ConfigError { source, kind, detail }
}

/// The views of a sequence of strings.
pub open spec fn strings_view(v: Seq<String>) -> Seq<Seq<char>> {
    Seq::new(v.len(), |j: int| v[j]@)
}

/// Arguments by key, each with its values in the order they came.
#[derive(Debug, PartialEq)]
pub struct ParsedRawArgs {
    pub entries: Vec<(String, Vec<String>)>,
}

impl View for ParsedRawArgs {
    type V = Seq<(Seq<char>, Seq<Seq<char>>)>;

    open spec fn view(&self) -> Seq<(Seq<char>, Seq<Seq<char>>)> {
        Seq::new(self.entries@.len(), |i: int| (self.entries@[i].0@, strings_view(self.entries@[i].1@)))
    }
}

/// The index of the first entry with key `k` at or after `i`, or -1.
pub open spec fn key_index_from(m: Seq<(Seq<char>, Seq<Seq<char>>)>, k: Seq<char>, i: int) -> int
    decreases m.len() - i,
{
    if i < 0 || i >= m.len() {
        -1
    } else if m[i].0 == k {
        i
    } else {
        key_index_from(m, k, i + 1)
    }
}

/// The index of the entry with key `k`, or -1.
pub open spec fn key_index(m: Seq<(Seq<char>, Seq<Seq<char>>)>, k: Seq<char>) -> int {
    key_index_from(m, k, 0)
}

/// The values of key `k`, if it is present.
pub open spec fn args_get(m: Seq<(Seq<char>, Seq<Seq<char>>)>, k: Seq<char>) -> Option<Seq<Seq<char>>> {
    let j = key_index(m, k);
    if j >= 0 {
        Some(m[j].1)
    } else {
        None
    }
}

/// Adds the value `v` to key `k`, after any values it already has.
pub open spec fn args_insert(m: Seq<(Seq<char>, Seq<Seq<char>>)>, k: Seq<char>, v: Seq<char>) -> Seq<
    (Seq<char>, Seq<Seq<char>>),
> {
    let j = key_index(m, k);
    if j >= 0 {
        m.update(j, (k, m[j].1.push(v)))
    } else {
        m.push((k, seq![v]))
    }
}

proof fn lemma_key_index_from(m: Seq<(Seq<char>, Seq<Seq<char>>)>, k: Seq<char>, i: int)
    requires
        0 <= i,
    ensures
        key_index_from(m, k, i) == -1 || (i <= key_index_from(m, k, i) < m.len() && m[key_index_from(m, k, i)].0 == k),
    decreases m.len() - i,
{
    if i < m.len() && m[i].0 != k {
        lemma_key_index_from(m, k, i + 1);
    }
}

impl ParsedRawArgs {
    /// No arguments.
    pub fn new() -> (r: Self)
        ensures
            r@ == Seq::<(Seq<char>, Seq<Seq<char>>)>::empty(),
    {
        let r = ParsedRawArgs { entries: Vec::new() };
        assert(r@ =~= Seq::<(Seq<char>, Seq<Seq<char>>)>::empty());
        r
    }

    /// How many keys there are.
    pub fn len(&self) -> (r: usize)
        ensures
            r == self@.len(),
    {
        self.entries.len()
    }

    fn find(&self, k: &str) -> (r: Option<usize>)
        ensures
            r is None <==> key_index(self@, k@) == -1,
            r matches Some(j) ==> j == key_index(self@, k@) && j < self@.len(),
    {
        let n = self.entries.len();
        let mut i: usize = 0;
        while i < n
            invariant
                n == self.entries@.len(),
                i <= n,
                key_index(self@, k@) == key_index_from(self@, k@, i as int),
            decreases n - i,
        {
            if str_eq(self.entries[i].0.as_str(), k) {
                return Some(i);
            }
            i = i + 1;
        }
        None
    }

    /// The values of key `k`.
    pub fn get(&self, k: &str) -> (r: Option<&Vec<String>>)
        ensures
            match args_get(self@, k@) {
                Some(vs) => r matches Some(v) && strings_view(v@) == vs,
                None => r is None,
            },
    {
        match self.find(k) {
            Some(j) => Some(&self.entries[j].1),
            None => None,
        }
    }

    /// Adds the value `v` to key `k`, after any values it already has.
    pub fn insert_value(&mut self, k: String, v: String)
        ensures
            final(self)@ == args_insert(old(self)@, k@, v@),
    {
        match self.find(k.as_str()) {
            Some(j) => {
                proof {
                    lemma_key_index_from(old(self)@, k@, 0);
                }
                let mut e = self.entries.remove(j);
                e.1.push(v);
                self.entries.insert(j, e);
                assert(strings_view(self.entries@[j as int].1@) =~= strings_view(old(self).entries@[j as int].1@).push(v@));
                assert(self@ =~= args_insert(old(self)@, k@, v@));
            },
            None => {
                let mut vs: Vec<String> = Vec::new();
                vs.push(v);
                self.entries.push((k, vs));
                assert(strings_view(vs@) =~= seq![v@]);
                assert(self@ =~= args_insert(old(self)@, k@, v@));
            },
        }
    }
}

/// What parsing the command line gives.
#[derive(Debug, PartialEq)]
pub enum CLIConfigParseReturn<T> {
    /// No arguments: use the default configuration
    Default,
    /// `--help` was asked for
    Help,
    /// `--version` was asked for
    Version,
    /// The arguments
    YieldedConfig(T),
}

impl<T> CLIConfigParseReturn<T> {
    /// The arguments (only when there are some).
    pub fn into_config(self) -> (r: T)
        requires
            self is YieldedConfig,
        ensures
            r == self->YieldedConfig_0,
    {
        match self {
            CLIConfigParseReturn::YieldedConfig(yc) => yc,
            _ => vstd::pervasive::unreached(),
        }
    }
}

/// The mathematical value of a command-line parse.
pub enum CliParseV {
    Default,
    Help,
    Version,
    Yielded(Seq<(Seq<char>, Seq<Seq<char>>)>),
    Failed(ConfigErrorV),
}

/// Parses the command-line tokens `args[i..]`, with `acc` holding what was parsed so far.
/// A token is `--help`/`-h` or `--version`/`-v` (answered at once), `--key=value`, or
/// `--key` followed by its value; values of a repeated key are kept in order.
pub open spec fn cli_parse(args: Seq<Seq<char>>, i: int, acc: Seq<(Seq<char>, Seq<Seq<char>>)>) -> CliParseV
    decreases args.len() - i,
{
    if i < 0 || i >= args.len() {
        if acc.len() == 0 {
            CliParseV::Default
        } else {
            CliParseV::Yielded(acc)
        }
    } else {
        let a = args[i];
        if a == "--help"@ || a == "-h"@ {
            CliParseV::Help
        } else if a == "--version"@ || a == "-v"@ {
            CliParseV::Version
        } else if !has_prefix(a, "--"@) {
            CliParseV::Failed(cfg_err(ConfigSource::Cli, ConfigErrorKind::UnexpectedArgument, a))
        } else if count_char(a, '=') == 1 && encode_utf8(a).len() >= 5 {
            let at = index_of(a, '=');
            cli_parse(args, i + 1, args_insert(acc, a.subrange(0, at), a.subrange(at + 1, a.len() as int)))
        } else if count_char(a, '=') != 0 {
            CliParseV::Failed(cfg_err(ConfigSource::Cli, ConfigErrorKind::BadlyFormattedArgument, a))
        } else if i + 1 < args.len() {
            cli_parse(args, i + 2, args_insert(acc, a, args[i + 1]))
        } else {
            CliParseV::Failed(cfg_err(ConfigSource::Cli, ConfigErrorKind::MissingValue, a))
        }
    }
}

/// Parsing depends only on the tokens from the position reached on.
proof fn lemma_cli_parse_suffix(
    a: Seq<Seq<char>>,
    b: Seq<Seq<char>>,
    s: Seq<Seq<char>>,
    j: int,
    acc: Seq<(Seq<char>, Seq<Seq<char>>)>,
)
    requires
        0 <= j <= s.len(),
    ensures
        cli_parse(a + s, a.len() + j, acc) == cli_parse(b + s, b.len() + j, acc),
    decreases s.len() - j,
{
    let x = a + s;
    let y = b + s;
    if j < s.len() {
        assert(x[a.len() + j] == s[j]);
        assert(y[b.len() + j] == s[j]);
        if j + 1 < s.len() {
            assert(x[a.len() + j + 1] == s[j + 1]);
            assert(y[b.len() + j + 1] == s[j + 1]);
            lemma_cli_parse_suffix(a, b, s, j + 2, args_insert(acc, s[j], s[j + 1]));
        }
        let t = s[j];
        let at = index_of(t, '=');
        lemma_cli_parse_suffix(a, b, s, j + 1, args_insert(acc, t.subrange(0, at), t.subrange(at + 1, t.len() as int)));
    }
}

/// An option written as one token `--key=value` parses as the two tokens `--key value`,
/// wherever it stands on the command line: whatever comes before and after it, both
/// command lines give the same result. (The key must be a `--` option other than
/// `--help` and `--version`, neither part may hold `=`, and the packed token must be
/// at least five bytes long.)
pub proof fn lemma_cli_packed_option(
    pre: Seq<Seq<char>>,
    k: Seq<char>,
    v: Seq<char>,
    post: Seq<Seq<char>>,
    acc: Seq<(Seq<char>, Seq<Seq<char>>)>,
)
    requires
        has_prefix(k, "--"@),
        k != "--help"@,
        k != "--version"@,
        count_char(k, '=') == 0,
        count_char(v, '=') == 0,
        encode_utf8(k + "="@ + v).len() >= 5,
    ensures
        cli_parse(pre + seq![k + "="@ + v] + post, pre.len() as int, acc) == cli_parse(
            pre + seq![k, v] + post,
            pre.len() as int,
            acc,
        ),
{
    reveal_strlit("=");
    reveal_strlit("--");
    reveal_strlit("--help");
    reveal_strlit("--version");
    reveal_strlit("-h");
    reveal_strlit("-v");
    let p = k + "="@ + v;
    let x = pre + seq![p] + post;
    let y = pre + seq![k, v] + post;
    let i = pre.len() as int;
    assert(x[i] == p);
    assert(y[i] == k);
    assert(y[i + 1] == v);
    // the packed token
    assert(p[k.len() as int] == '=');
    assert(p != "--help"@ && p != "-h"@ && p != "--version"@ && p != "-v"@) by {
        if p == "--help"@ || p == "-h"@ || p == "--version"@ || p == "-v"@ {
            assert(p[k.len() as int] != '=');
        }
    }
    assert(p.subrange(0, 2) =~= k.subrange(0, 2));
    assert(has_prefix(p, "--"@));
    lemma_count_append(k + "="@, v, '=');
    lemma_count_append(k, "="@, '=');
    assert("="@.drop_last() =~= Seq::<char>::empty());
    assert(count_char(Seq::<char>::empty(), '=') == 0);
    assert("="@.last() == '=');
    assert(count_char("="@, '=') == 1);
    assert(count_char(p, '=') == 1);
    lemma_count_zero_absent(k, '=');
    assert forall|j: int| 0 <= j < k.len() implies p[j] != '=' by {
        assert(p[j] == k[j]);
    }
    lemma_index_of_first(p, '=', k.len() as int);
    assert(p.subrange(0, k.len() as int) =~= k);
    assert(p.subrange(k.len() + 1int, p.len() as int) =~= v);
    // the separate tokens
    assert(k != "-h"@ && k != "-v"@) by {
        if k == "-h"@ || k == "-v"@ {
            assert(k[1] != '-');
        }
    }
    let acc2 = args_insert(acc, k, v);
    assert(x =~= (pre + seq![p]) + post);
    assert(y =~= (pre + seq![k, v]) + post);
    lemma_cli_parse_suffix(pre + seq![p], pre + seq![k, v], post, 0, acc2);
}

/// The short flags are the long ones: wherever parsing reaches `-h` or `--help` it answers
/// with the help text, and wherever it reaches `-v` or `--version` with the version,
/// whatever precedes or follows on the command line.
pub proof fn lemma_cli_help_and_version_flags(
    pre: Seq<Seq<char>>,
    post: Seq<Seq<char>>,
    acc: Seq<(Seq<char>, Seq<Seq<char>>)>,
)
    ensures
        cli_parse(pre + seq!["-h"@] + post, pre.len() as int, acc) == CliParseV::Help,
        cli_parse(pre + seq!["--help"@] + post, pre.len() as int, acc) == CliParseV::Help,
        cli_parse(pre + seq!["-v"@] + post, pre.len() as int, acc) == CliParseV::Version,
        cli_parse(pre + seq!["--version"@] + post, pre.len() as int, acc) == CliParseV::Version,
{
    reveal_strlit("-h");
    reveal_strlit("--help");
    reveal_strlit("-v");
    reveal_strlit("--version");
    let i = pre.len() as int;
    assert((pre + seq!["-h"@] + post)[i] == "-h"@);
    assert((pre + seq!["--help"@] + post)[i] == "--help"@);
    assert((pre + seq!["-v"@] + post)[i] == "-v"@);
    assert((pre + seq!["--version"@] + post)[i] == "--version"@);
    assert("-v"@ != "--help"@) by {
        assert("-v"@.len() != "--help"@.len());
    }
    assert("-v"@ != "-h"@) by {
        assert("-v"@[1] != "-h"@[1]);
    }
    assert("--version"@ != "--help"@) by {
        assert("--version"@.len() != "--help"@.len());
    }
    assert("--version"@ != "-h"@) by {
        assert("--version"@.len() != "-h"@.len());
    }
}

/// The mathematical value of a command-line parse result.
pub open spec fn cli_result_view(r: Result<CLIConfigParseReturn<ParsedRawArgs>, ConfigError>) -> CliParseV {
    match r {
        Ok(CLIConfigParseReturn::Default) => CliParseV::Default,
        Ok(CLIConfigParseReturn::Help) => CliParseV::Help,
        Ok(CLIConfigParseReturn::Version) => CliParseV::Version,
        Ok(CLIConfigParseReturn::YieldedConfig(a)) => CliParseV::Yielded(a@),
        Err(e) => CliParseV::Failed(e@),
    }
}

/// Parses command-line arguments; `src[0]` is the program's name and is skipped.
pub fn parse_cli_args(src: &Vec<String>) -> (r: Result<CLIConfigParseReturn<ParsedRawArgs>, ConfigError>)
    ensures
        cli_result_view(r) == cli_parse(strings_view(src@), 1, Seq::empty()),
{
    let ghost args = strings_view(src@);
    let mut acc = ParsedRawArgs::new();
    let n = src.len();
    let mut i: usize = 1;
    while i < n
        invariant
            n == src@.len(),
            args == strings_view(src@),
            1 <= i,
            cli_parse(args, 1, Seq::empty()) == cli_parse(args, i as int, acc@),
        decreases n - i,
    {
        let a = src[i].as_str();
        assert(a@ == args[i as int]);
        if str_eq(a, "--help") || str_eq(a, "-h") {
            return Ok(CLIConfigParseReturn::Help);
        }
        if str_eq(a, "--version") || str_eq(a, "-v") {
            return Ok(CLIConfigParseReturn::Version);
        }
        if !starts_with(a, "--") {
            return Err(new_err(ConfigSource::Cli, ConfigErrorKind::UnexpectedArgument, a.to_owned()));
        }
        let c = count_char_exec(a, '=');
        let nbytes = a.as_bytes().len();
        let nchars = a.unicode_len();
        if c == 1 && nbytes >= 5 {
            proof {
                crate::text::lemma_count_index(a@, '=');
            }
            let at = match find_char(a, '=') {
                Some(at) => at,
                None => {
                    return Err(new_err(ConfigSource::Cli, ConfigErrorKind::BadlyFormattedArgument, a.to_owned()));
                },
            };
            let key = substring(a, 0, at);
            let val = substring(a, at + 1, nchars);
            acc.insert_value(key, val);
            i = i + 1;
        } else if c != 0 {
            return Err(new_err(ConfigSource::Cli, ConfigErrorKind::BadlyFormattedArgument, a.to_owned()));
        } else if i + 1 < n {
            acc.insert_value(a.to_owned(), src[i + 1].as_str().to_owned());
            i = i + 2;
        } else {
            return Err(new_err(ConfigSource::Cli, ConfigErrorKind::MissingValue, a.to_owned()));
        }
    }
    if acc.len() == 0 {
        Ok(CLIConfigParseReturn::Default)
    } else {
        Ok(CLIConfigParseReturn::YieldedConfig(acc))
    }
}

/// `s` cut at every `c`.
pub open spec fn split_by(s: Seq<char>, c: char) -> Seq<Seq<char>>
    decreases s.len(),
{
    let at = index_of(s, c);
    if at < 0 || at >= s.len() {
        seq![s]
    } else {
        seq![s.subrange(0, at)] + split_by(s.subrange(at + 1, s.len() as int), c)
    }
}

/// Cuts `s` at every `c`.
pub fn split_exec(s: &str, c: char) -> (r: Vec<String>)
    ensures
        strings_view(r@) == split_by(s@, c),
{
    let mut parts: Vec<String> = Vec::new();
    let mut rest: String = s.to_owned();
    assert(strings_view(parts@) =~= Seq::<Seq<char>>::empty());
    loop
        invariant
            split_by(s@, c) == strings_view(parts@) + split_by(rest@, c),
        decreases rest@.len(),
    {
        let n = rest.as_str().unicode_len();
        match find_char(rest.as_str(), c) {
            Some(at) => {
                let head = substring(rest.as_str(), 0, at);
                let tail = substring(rest.as_str(), at + 1, n);
                proof {
                    assert(strings_view(parts@.push(head)) =~= strings_view(parts@).push(head@));
                    assert(seq![head@] + split_by(tail@, c) == split_by(rest@, c));
                    assert(strings_view(parts@).push(head@) + split_by(tail@, c) =~= strings_view(parts@) + (seq![head@] + split_by(tail@, c)));
                }
                parts.push(head);
                rest = tail;
            },
            None => {
                proof {
                    assert(strings_view(parts@.push(rest)) =~= strings_view(parts@).push(rest@));
                    assert(strings_view(parts@) + seq![rest@] =~= strings_view(parts@).push(rest@));
                }
                parts.push(rest);
                return parts;
            },
        }
    }
}

/// The environment variables the server reads, in the order it reads them.
pub open spec fn env_keys() -> Seq<Seq<char>> {
    seq![
        "SKYDB_TLS_CERT"@,
        "SKYDB_TLS_KEY"@,
        "SKYDB_AUTH"@,
        "SKYDB_ENDPOINTS"@,
        "SKYDB_RUN_MODE"@,
        "SKYDB_SERVICE_WINDOW"@,
    ]
}

fn env_key(i: usize) -> (r: &'static str)
    requires
        i < 6,
    ensures
        r@ == env_keys()[i as int],
{
    if i == 0 {
        "SKYDB_TLS_CERT"
    } else if i == 1 {
        "SKYDB_TLS_KEY"
    } else if i == 2 {
        "SKYDB_AUTH"
    } else if i == 3 {
        "SKYDB_ENDPOINTS"
    } else if i == 4 {
        "SKYDB_RUN_MODE"
    } else {
        "SKYDB_SERVICE_WINDOW"
    }
}

/// The value of variable `k` in `env` (each entry `KEY=VALUE`), from entry `i` on.
pub open spec fn env_lookup(env: Seq<Seq<char>>, k: Seq<char>, i: int) -> Option<Seq<char>>
    decreases env.len() - i,
{
    if i < 0 || i >= env.len() {
        None
    } else {
        let e = env[i];
        let at = index_of(e, '=');
        if 0 <= at && e.subrange(0, at) == k {
            Some(e.subrange(at + 1, e.len() as int))
        } else {
            env_lookup(env, k, i + 1)
        }
    }
}

/// The server's variables found in `env`, from key `j` of [`env_keys`] on, each with its
/// value cut at commas.
pub open spec fn env_parse(env: Seq<Seq<char>>, j: int, acc: Seq<(Seq<char>, Seq<Seq<char>>)>) -> Seq<
    (Seq<char>, Seq<Seq<char>>),
>
    decreases 6 - j,
{
    if j < 0 || j >= 6 {
        acc
    } else {
        match env_lookup(env, env_keys()[j], 0) {
            Some(v) => env_parse(env, j + 1, acc.push((env_keys()[j], split_by(v, ',')))),
            None => env_parse(env, j + 1, acc),
        }
    }
}

fn env_get(env: &Vec<String>, k: &str) -> (r: Option<String>)
    ensures
        match env_lookup(strings_view(env@), k@, 0) {
            Some(v) => r matches Some(x) && x@ == v,
            None => r is None,
        },
{
    let n = env.len();
    let mut i: usize = 0;
    while i < n
        invariant
            n == env@.len(),
            i <= n,
            env_lookup(strings_view(env@), k@, 0) == env_lookup(strings_view(env@), k@, i as int),
        decreases n - i,
    {
        let e = env[i].as_str();
        assert(e@ == strings_view(env@)[i as int]);
        let len = e.unicode_len();
        match find_char(e, '=') {
            Some(at) => {
                let name = substring(e, 0, at);
                if str_eq(name.as_str(), k) {
                    return Some(substring(e, at + 1, len));
                }
            },
            None => {},
        }
        i = i + 1;
    }
    None
}

/// Reads the server's variables from the environment `env` (each entry `KEY=VALUE`);
/// `None` when none of them is set.
pub fn parse_env_args(env: &Vec<String>) -> (r: Result<Option<ParsedRawArgs>, ConfigError>)
    ensures
        ({
            let m = env_parse(strings_view(env@), 0, Seq::empty());
            if m.len() == 0 {
                r matches Ok(None)
            } else {
                r matches Ok(Some(a)) && a@ == m
            }
        }),
{
    let mut ret = ParsedRawArgs::new();
    let mut j: usize = 0;
    while j < 6
        invariant
            j <= 6,
            env_parse(strings_view(env@), 0, Seq::empty()) == env_parse(strings_view(env@), j as int, ret@),
        decreases 6 - j,
    {
        let key = env_key(j);
        match env_get(env, key) {
            Some(v) => {
                let splits = split_exec(v.as_str(), ',');
                let ghost before = ret@;
                ret.entries.push((key.to_owned(), splits));
                assert(ret@ =~= before.push((env_keys()[j as int], split_by(v@, ','))));
            },
            None => {},
        }
        j = j + 1;
    }
    if ret.len() == 0 {
        Ok(None)
    } else {
        Ok(Some(ret))
    }
}

/// A TCP endpoint.
#[derive(Debug, PartialEq)]
pub struct ConfigEndpointTcp {
    pub host: String,
    pub port: u16,
}

/// A TLS endpoint: a TCP endpoint with the certificate and private key it serves with.
#[derive(Debug, PartialEq)]
pub struct ConfigEndpointTls {
    pub tcp: ConfigEndpointTcp,
    pub cert: String,
    pub private_key: String,
}

/// The endpoints the server listens on.
#[derive(Debug, PartialEq)]
pub enum ConfigEndpoint {
    Insecure(ConfigEndpointTcp),
    Secure(ConfigEndpointTls),
    Multi(ConfigEndpointTcp, ConfigEndpointTls),
}

/// The run mode.
#[derive(Debug, Clone, Copy, PartialEq, Eq, Structural)]
pub enum ConfigMode {
    Dev,
    Prod,
}

/// System settings: the reliability service window (seconds) and whether authentication is on.
#[derive(Debug, PartialEq)]
pub struct ConfigSystem {
    pub reliability_system_window: u64,
    pub auth: bool,
}

/// The server's configuration.
#[derive(Debug, PartialEq)]
pub struct Configuration {
    pub endpoints: ConfigEndpoint,
    pub mode: ConfigMode,
    pub system: ConfigSystem,
}

/// The result of configuration: a configuration, or a message to print instead of running.
#[derive(Debug, PartialEq)]
pub enum ConfigReturn {
    Config(Configuration),
    HelpMessage(String),
}

impl ConfigEndpointTcp {
    /// A TCP endpoint on `host` and `port`.
    pub fn new(host: String, port: u16) -> (r: Self)
        ensures
            r.host == host,
            r.port == port,
    {
        ConfigEndpointTcp { host, port }
    }
}

impl ConfigEndpointTls {
    /// A TLS endpoint over `tcp` with certificate `cert` and key `private_key`.
    pub fn new(tcp: ConfigEndpointTcp, cert: String, private_key: String) -> (r: Self)
        ensures
            r.tcp == tcp,
            r.cert == cert,
            r.private_key == private_key,
    {
        ConfigEndpointTls { tcp, cert, private_key }
    }
}

impl ConfigSystem {
    /// System settings.
    pub fn new(reliability_system_window: u64, auth: bool) -> (r: Self)
        ensures
            r.reliability_system_window == reliability_system_window,
            r.auth == auth,
    {
        ConfigSystem { reliability_system_window, auth }
    }
}

impl Configuration {
    /// A configuration from its parts.
    pub fn new(endpoints: ConfigEndpoint, mode: ConfigMode, system: ConfigSystem) -> (r: Self)
        ensures
            r.endpoints == endpoints,
            r.mode == mode,
            r.system == system,
    {
        Configuration { endpoints, mode, system }
    }
}

impl ConfigReturn {
    /// The configuration (only when there is one).
    pub fn into_config(self) -> (r: Configuration)
        requires
            self is Config,
        ensures
            r == self->Config_0,
    {
        match self {
            ConfigReturn::Config(c) => c,
            _ => vstd::pervasive::unreached(),
        }
    }
}

/// The mathematical value of a TCP endpoint: host and port.
pub type TcpV = (Seq<char>, u16);

/// The mathematical value of a TLS endpoint: TCP endpoint, certificate, private key.
pub type TlsV = (TcpV, Seq<char>, Seq<char>);

/// The mathematical value of the endpoints.
pub enum EndpointV {
    Insecure(TcpV),
    Secure(TlsV),
    Multi(TcpV, TlsV),
}

/// The mathematical value of a configuration.
pub struct ConfigurationV {
    pub endpoints: EndpointV,
    pub mode: ConfigMode,
    pub window: u64,
    pub auth: bool,
}

pub open spec fn tcp_view(t: ConfigEndpointTcp) -> TcpV {
    (t.host@, t.port)
}

pub open spec fn tls_view(t: ConfigEndpointTls) -> TlsV {
    (tcp_view(t.tcp), t.cert@, t.private_key@)
}

impl View for Configuration {
    type V = ConfigurationV;

    open spec fn view(&self) -> ConfigurationV {
        ConfigurationV {
            endpoints: match self.endpoints {
                ConfigEndpoint::Insecure(t) => EndpointV::Insecure(tcp_view(t)),
                ConfigEndpoint::Secure(s) => EndpointV::Secure(tls_view(s)),
                ConfigEndpoint::Multi(t, s) => EndpointV::Multi(tcp_view(t), tls_view(s)),
            },
            mode: self.mode,
            window: self.system.reliability_system_window,
            auth: self.system.auth,
        }
    }
}

/// A source of configuration: its name and the names of its six keys (TLS certificate,
/// TLS key, authentication, endpoints, mode, service window).
pub trait ConfigurationSource {
    spec fn spec_source() -> ConfigSource;

    spec fn spec_keys() -> Seq<Seq<char>>;

    /// The source.
    fn source() -> (r: ConfigSource)
        ensures
            r == Self::spec_source(),
    ;

    /// The name of key `i`.
    fn key(i: usize) -> (r: &'static str)
        requires
            i < 6,
        ensures
            r@ == Self::spec_keys()[i as int],
    ;

    /// There are six keys.
    proof fn lemma_keys()
        ensures
            Self::spec_keys().len() == 6,
    ;
}

/// Configuration from the command line.
pub struct CSCommandLine;

/// Configuration from environment variables.
pub struct CSEnvArgs;

/// The command-line options the server reads, in key order.
pub open spec fn cli_keys() -> Seq<Seq<char>> {
    seq!["--tlscert"@, "--tlskey"@, "--auth"@, "--endpoint"@, "--mode"@, "--service-window"@]
}

impl ConfigurationSource for CSCommandLine {
    open spec fn spec_source() -> ConfigSource {
        ConfigSource::Cli
    }

    open spec fn spec_keys() -> Seq<Seq<char>> {
        cli_keys()
    }

    fn source() -> (r: ConfigSource) {
        ConfigSource::Cli
    }

    fn key(i: usize) -> (r: &'static str) {
        if i == 0 {
            "--tlscert"
        } else if i == 1 {
            "--tlskey"
        } else if i == 2 {
            "--auth"
        } else if i == 3 {
            "--endpoint"
        } else if i == 4 {
            "--mode"
        } else {
            "--service-window"
        }
    }

    proof fn lemma_keys() {
    }
}

impl ConfigurationSource for CSEnvArgs {
    open spec fn spec_source() -> ConfigSource {
        ConfigSource::Env
    }

    open spec fn spec_keys() -> Seq<Seq<char>> {
        env_keys()
    }

    fn source() -> (r: ConfigSource) {
        ConfigSource::Env
    }

    fn key(i: usize) -> (r: &'static str) {
        env_key(i)
    }

    proof fn lemma_keys() {
    }
}

/// The first key of `m`, from entry `i` on, that is not among `keys`.
pub open spec fn first_unknown(m: Seq<(Seq<char>, Seq<Seq<char>>)>, keys: Seq<Seq<char>>, i: int) -> Option<Seq<char>>
    decreases m.len() - i,
{
    if i < 0 || i >= m.len() {
        None
    } else if keys.contains(m[i].0) {
        first_unknown(m, keys, i + 1)
    } else {
        Some(m[i].0)
    }
}

/// Decodes the authentication setting: only `pwd` (password authentication) is known.
pub open spec fn decode_auth(src: ConfigSource, key: Seq<char>, vs: Option<Seq<Seq<char>>>) -> Result<bool, ConfigErrorV> {
    match vs {
        None => Ok(false),
        Some(vs) => if vs.len() != 1 {
            Err(cfg_err(src, ConfigErrorKind::DuplicateValue, key))
        } else if vs[0] == "pwd"@ {
            Ok(true)
        } else {
            Err(cfg_err(src, ConfigErrorKind::InvalidValue, key))
        },
    }
}

/// Decodes the run mode (`dev` when not given).
pub open spec fn decode_mode(src: ConfigSource, key: Seq<char>, vs: Option<Seq<Seq<char>>>) -> Result<ConfigMode, ConfigErrorV> {
    match vs {
        None => Ok(ConfigMode::Dev),
        Some(vs) => if vs.len() != 1 {
            Err(cfg_err(src, ConfigErrorKind::DuplicateValue, key))
        } else if vs[0] == "dev"@ {
            Ok(ConfigMode::Dev)
        } else if vs[0] == "prod"@ {
            Ok(ConfigMode::Prod)
        } else {
            Err(cfg_err(src, ConfigErrorKind::InvalidValue, key))
        },
    }
}

/// The service window when none is given, in seconds.
pub open spec fn default_service_window() -> u64 {
    300
}

/// Decodes the reliability service window, in seconds.
pub open spec fn decode_window(src: ConfigSource, key: Seq<char>, vs: Option<Seq<Seq<char>>>) -> Result<u64, ConfigErrorV> {
    match vs {
        None => Ok(default_service_window()),
        Some(vs) => if vs.len() != 1 {
            Err(cfg_err(src, ConfigErrorKind::DuplicateValue, key))
        } else {
            match parse_unsigned(vs[0], u64::MAX as int) {
                Some(w) => Ok(w as u64),
                None => Err(cfg_err(src, ConfigErrorKind::InvalidValue, key)),
            }
        },
    }
}

/// Decodes a path setting (given at most once).
pub open spec fn decode_path(src: ConfigSource, key: Seq<char>, vs: Option<Seq<Seq<char>>>) -> Result<Option<Seq<char>>, ConfigErrorV> {
    match vs {
        None => Ok(None),
        Some(vs) => if vs.len() != 1 {
            Err(cfg_err(src, ConfigErrorKind::DuplicateValue, key))
        } else {
            Ok(Some(vs[0]))
        },
    }
}

/// Splits an endpoint `proto@host:port` into its protocol, host and port.
pub open spec fn parse_endpoint(s: Seq<char>) -> Option<(Seq<char>, Seq<char>, u16)> {
    let at = index_of(s, '@');
    if at < 0 {
        None
    } else {
        let hp = s.subrange(at + 1, s.len() as int);
        let colon = index_of(hp, ':');
        if colon < 0 {
            None
        } else {
            match parse_unsigned(hp.subrange(colon + 1, hp.len() as int), 65535) {
                Some(p) => Some((s.subrange(0, at), hp.subrange(0, colon), p as u16)),
                None => None,
            }
        }
    }
}

/// The contents of the file at `path` among the files that were read.
pub open spec fn file_lookup(files: Seq<(Seq<char>, Seq<char>)>, path: Seq<char>, i: int) -> Option<Seq<char>>
    decreases files.len() - i,
{
    if i < 0 || i >= files.len() {
        None
    } else if files[i].0 == path {
        Some(files[i].1)
    } else {
        file_lookup(files, path, i + 1)
    }
}

/// The endpoint state while decoding: the TCP and TLS endpoints found so far.
pub type EndpointsSoFar = (Option<TcpV>, Option<TlsV>);

/// Decodes endpoint values `vs[i..]`, each `tcp@host:port` or `tls@host:port`, at most one
/// of each; a TLS endpoint needs both TLS paths, whose files it reads.
pub open spec fn decode_endpoint_values(
    src: ConfigSource,
    key: Seq<char>,
    vs: Seq<Seq<char>>,
    i: int,
    sofar: EndpointsSoFar,
    cert: Option<Seq<char>>,
    pkey: Option<Seq<char>>,
    files: Seq<(Seq<char>, Seq<char>)>,
) -> Result<EndpointsSoFar, ConfigErrorV>
    decreases vs.len() - i,
{
    if i < 0 || i >= vs.len() {
        Ok(sofar)
    } else {
        match parse_endpoint(vs[i]) {
            None => Err(cfg_err(src, ConfigErrorKind::InvalidValue, key)),
            Some((proto, host, port)) => if proto == "tcp"@ {
                if sofar.0 is Some {
                    Err(cfg_err(src, ConfigErrorKind::InvalidValue, key))
                } else {
                    decode_endpoint_values(src, key, vs, i + 1, (Some((host, port)), sofar.1), cert, pkey, files)
                }
            } else if proto == "tls"@ {
                if sofar.1 is Some {
                    Err(cfg_err(src, ConfigErrorKind::InvalidValue, key))
                } else {
                    match (cert, pkey) {
                        (Some(c), Some(k)) => match (file_lookup(files, c, 0), file_lookup(files, k, 0)) {
                            (Some(cc), Some(kc)) => decode_endpoint_values(
                                src,
                                key,
                                vs,
                                i + 1,
                                (sofar.0, Some(((host, port), cc, kc))),
                                cert,
                                pkey,
                                files,
                            ),
                            (None, _) => Err(cfg_err(src, ConfigErrorKind::FileUnavailable, c)),
                            (_, None) => Err(cfg_err(src, ConfigErrorKind::FileUnavailable, k)),
                        },
                        _ => Err(cfg_err(src, ConfigErrorKind::TlsFilesMissing, key)),
                    }
                }
            } else {
                Err(cfg_err(src, ConfigErrorKind::InvalidValue, key))
            },
        }
    }
}

/// The endpoint when none is given.
pub open spec fn default_endpoint() -> EndpointV {
    EndpointV::Insecure(("127.0.0.1"@, 2003))
}

/// Decodes the endpoints (one or two values).
pub open spec fn decode_endpoints(
    src: ConfigSource,
    key: Seq<char>,
    vs: Option<Seq<Seq<char>>>,
    cert: Option<Seq<char>>,
    pkey: Option<Seq<char>>,
    files: Seq<(Seq<char>, Seq<char>)>,
) -> Result<EndpointV, ConfigErrorV> {
    match vs {
        None => Ok(default_endpoint()),
        Some(vs) => if vs.len() == 0 || vs.len() > 2 {
            Err(cfg_err(src, ConfigErrorKind::InvalidValue, key))
        } else {
            match decode_endpoint_values(src, key, vs, 0, (None, None), cert, pkey, files) {
                Err(e) => Err(e),
                Ok((Some(t), None)) => Ok(EndpointV::Insecure(t)),
                Ok((None, Some(s))) => Ok(EndpointV::Secure(s)),
                Ok((Some(t), Some(s))) => Ok(EndpointV::Multi(t, s)),
                Ok((None, None)) => Err(cfg_err(src, ConfigErrorKind::InvalidValue, key)),
            }
        },
    }
}

/// Validates arguments `m` from a source with key names `keys` into a configuration;
/// `files` holds the contents of the files that were read (path, contents).
pub open spec fn validate(
    src: ConfigSource,
    keys: Seq<Seq<char>>,
    m: Seq<(Seq<char>, Seq<Seq<char>>)>,
    files: Seq<(Seq<char>, Seq<char>)>,
) -> Result<ConfigurationV, ConfigErrorV> {
    match first_unknown(m, keys, 0) {
        Some(k) => Err(cfg_err(src, ConfigErrorKind::UnknownArgument, k)),
        None => match decode_auth(src, keys[2], args_get(m, keys[2])) {
            Err(e) => Err(e),
            Ok(auth) => match decode_mode(src, keys[4], args_get(m, keys[4])) {
                Err(e) => Err(e),
                Ok(mode) => match decode_window(src, keys[5], args_get(m, keys[5])) {
                    Err(e) => Err(e),
                    Ok(window) => match decode_path(src, keys[0], args_get(m, keys[0])) {
                        Err(e) => Err(e),
                        Ok(cert) => match decode_path(src, keys[1], args_get(m, keys[1])) {
                            Err(e) => Err(e),
                            Ok(pkey) => match decode_endpoints(src, keys[3], args_get(m, keys[3]), cert, pkey, files) {
                                Err(e) => Err(e),
                                Ok(endpoints) => Ok(ConfigurationV { endpoints, mode, window, auth }),
                            },
                        },
                    },
                },
            },
        },
    }
}

/// Whether two validation outcomes agree: the same value, or errors of the same kind.
pub open spec fn same_outcome<T>(a: Result<T, ConfigErrorV>, b: Result<T, ConfigErrorV>) -> bool {
    match (a, b) {
        (Ok(x), Ok(y)) => x == y,
        (Err(x), Err(y)) => x.kind == y.kind,
        _ => false,
    }
}

proof fn lemma_endpoint_values_source(
    s1: ConfigSource,
    k1: Seq<char>,
    s2: ConfigSource,
    k2: Seq<char>,
    vs: Seq<Seq<char>>,
    i: int,
    sofar: EndpointsSoFar,
    cert: Option<Seq<char>>,
    pkey: Option<Seq<char>>,
    files: Seq<(Seq<char>, Seq<char>)>,
)
    ensures
        same_outcome(
            decode_endpoint_values(s1, k1, vs, i, sofar, cert, pkey, files),
            decode_endpoint_values(s2, k2, vs, i, sofar, cert, pkey, files),
        ),
    decreases vs.len() - i,
{
    if 0 <= i < vs.len() {
        match parse_endpoint(vs[i]) {
            None => {},
            Some((proto, host, port)) => {
                if proto == "tcp"@ && sofar.0 is None {
                    lemma_endpoint_values_source(s1, k1, s2, k2, vs, i + 1, (Some((host, port)), sofar.1), cert, pkey, files);
                } else if proto == "tls"@ && sofar.1 is None {
                    match (cert, pkey) {
                        (Some(c), Some(k)) => match (file_lookup(files, c, 0), file_lookup(files, k, 0)) {
                            (Some(cc), Some(kc)) => {
                                lemma_endpoint_values_source(
                                    s1,
                                    k1,
                                    s2,
                                    k2,
                                    vs,
                                    i + 1,
                                    (sofar.0, Some(((host, port), cc, kc))),
                                    cert,
                                    pkey,
                                    files,
                                );
                            },
                            _ => {},
                        },
                        _ => {},
                    }
                }
            },
        }
    }
}

/// Validation sees a source's arguments only through the values of its six keys: two
/// sources whose arguments hold the same values under corresponding keys (and which
/// both, or neither, hold an unknown key) give the same configuration, or errors of the
/// same kind. So the command line and the environment configure the server alike.
pub proof fn lemma_validate_source_independent(
    s1: ConfigSource,
    from: Seq<Seq<char>>,
    m1: Seq<(Seq<char>, Seq<Seq<char>>)>,
    s2: ConfigSource,
    to: Seq<Seq<char>>,
    m2: Seq<(Seq<char>, Seq<Seq<char>>)>,
    files: Seq<(Seq<char>, Seq<char>)>,
)
    requires
        from.len() == 6,
        to.len() == 6,
        forall|j: int| 0 <= j < 6 ==> #[trigger] args_get(m1, from[j]) == args_get(m2, to[j]),
        (first_unknown(m1, from, 0) is None) == (first_unknown(m2, to, 0) is None),
    ensures
        same_outcome(validate(s1, from, m1, files), validate(s2, to, m2, files)),
{
    assert(args_get(m1, from[0]) == args_get(m2, to[0]));
    assert(args_get(m1, from[1]) == args_get(m2, to[1]));
    assert(args_get(m1, from[2]) == args_get(m2, to[2]));
    assert(args_get(m1, from[3]) == args_get(m2, to[3]));
    assert(args_get(m1, from[4]) == args_get(m2, to[4]));
    assert(args_get(m1, from[5]) == args_get(m2, to[5]));
    let cert = decode_path(s1, from[0], args_get(m1, from[0]));
    let pkey = decode_path(s1, from[1], args_get(m1, from[1]));
    match (cert, pkey) {
        (Ok(c), Ok(k)) => match args_get(m1, from[3]) {
            Some(vs) => {
                lemma_endpoint_values_source(s1, from[3], s2, to[3], vs, 0, (None, None), c, k, files);
            },
            None => {},
        },
        _ => {},
    }
}

/// The TLS endpoint among some endpoints, where there is one.
pub open spec fn tls_endpoint(e: EndpointV) -> Option<TlsV> {
    match e {
        EndpointV::Insecure(_) => None,
        EndpointV::Secure(s) => Some(s),
        EndpointV::Multi(_, s) => Some(s),
    }
}

/// Whether the single value given under key `key` in `m` names a file, among those read,
/// whose contents are `contents`.
pub open spec fn file_given_under(
    m: Seq<(Seq<char>, Seq<Seq<char>>)>,
    key: Seq<char>,
    files: Seq<(Seq<char>, Seq<char>)>,
    contents: Seq<char>,
) -> bool {
    args_get(m, key) matches Some(vs) && vs.len() == 1 && file_lookup(files, vs[0], 0) == Some(contents)
}

proof fn lemma_endpoint_values_tls_files(
    src: ConfigSource,
    key: Seq<char>,
    vs: Seq<Seq<char>>,
    i: int,
    sofar: EndpointsSoFar,
    cert: Option<Seq<char>>,
    pkey: Option<Seq<char>>,
    files: Seq<(Seq<char>, Seq<char>)>,
)
    ensures
        decode_endpoint_values(src, key, vs, i, sofar, cert, pkey, files) matches Ok(r) ==> (r.1 == sofar.1 || (
        r.1 matches Some(s) && cert matches Some(c) && pkey matches Some(k) && file_lookup(files, c, 0) == Some(
            s.1,
        ) && file_lookup(files, k, 0) == Some(s.2))),
    decreases vs.len() - i,
{
    if 0 <= i < vs.len() {
        match parse_endpoint(vs[i]) {
            None => {},
            Some((proto, host, port)) => {
                if proto == "tcp"@ && sofar.0 is None {
                    lemma_endpoint_values_tls_files(src, key, vs, i + 1, (Some((host, port)), sofar.1), cert, pkey, files);
                } else if proto == "tls"@ && sofar.1 is None {
                    match (cert, pkey) {
                        (Some(c), Some(k)) => match (file_lookup(files, c, 0), file_lookup(files, k, 0)) {
                            (Some(cc), Some(kc)) => {
                                lemma_endpoint_values_tls_files(
                                    src,
                                    key,
                                    vs,
                                    i + 1,
                                    (sofar.0, Some(((host, port), cc, kc))),
                                    cert,
                                    pkey,
                                    files,
                                );
                            },
                            _ => {},
                        },
                        _ => {},
                    }
                }
            },
        }
    }
}

/// A TLS endpoint serves the certificate and the private key from their own files: where
/// validation yields a TLS endpoint, its certificate is the contents of the file named by
/// the certificate setting (`--tlscert`, or `SKYDB_TLS_CERT` in the environment) and its
/// private key the contents of the file named by the key setting (`--tlskey`, or
/// `SKYDB_TLS_KEY`).
pub proof fn lemma_tls_cert_and_key_files(
    src: ConfigSource,
    m: Seq<(Seq<char>, Seq<Seq<char>>)>,
    files: Seq<(Seq<char>, Seq<char>)>,
)
    ensures
        validate(src, cli_keys(), m, files) matches Ok(cfg) ==> (tls_endpoint(cfg.endpoints) matches Some(s) ==> {
            &&& file_given_under(m, "--tlscert"@, files, s.1)
            &&& file_given_under(m, "--tlskey"@, files, s.2)
        }),
        validate(src, env_keys(), m, files) matches Ok(cfg) ==> (tls_endpoint(cfg.endpoints) matches Some(s) ==> {
            &&& file_given_under(m, "SKYDB_TLS_CERT"@, files, s.1)
            &&& file_given_under(m, "SKYDB_TLS_KEY"@, files, s.2)
        }),
{
    lemma_tls_files_under(src, cli_keys(), m, files);
    lemma_tls_files_under(src, env_keys(), m, files);
}

proof fn lemma_tls_files_under(
    src: ConfigSource,
    keys: Seq<Seq<char>>,
    m: Seq<(Seq<char>, Seq<Seq<char>>)>,
    files: Seq<(Seq<char>, Seq<char>)>,
)
    requires
        keys.len() == 6,
    ensures
        validate(src, keys, m, files) matches Ok(cfg) ==> (tls_endpoint(cfg.endpoints) matches Some(s) ==> {
            &&& file_given_under(m, keys[0], files, s.1)
            &&& file_given_under(m, keys[1], files, s.2)
        }),
{
    let cert = decode_path(src, keys[0], args_get(m, keys[0]));
    let pkey = decode_path(src, keys[1], args_get(m, keys[1]));
    match (cert, pkey) {
        (Ok(c), Ok(k)) => match args_get(m, keys[3]) {
            Some(vs) => {
                lemma_endpoint_values_tls_files(src, keys[3], vs, 0, (None, None), c, k, files);
            },
            None => {},
        },
        _ => {},
    }
}

/// The mathematical value of the files that were read.
pub open spec fn files_view(f: Seq<(String, String)>) -> Seq<(Seq<char>, Seq<char>)> {
    Seq::new(f.len(), |i: int| (f[i].0@, f[i].1@))
}

/// The mathematical value of an optional list of values.
pub open spec fn opt_values_view(v: Option<&Vec<String>>) -> Option<Seq<Seq<char>>> {
    match v {
        Some(v) => Some(strings_view(v@)),
        None => None,
    }
}

fn check_unknown<CS: ConfigurationSource>(args: &ParsedRawArgs) -> (r: Option<String>)
    ensures
        match first_unknown(args@, CS::spec_keys(), 0) {
            Some(k) => r matches Some(x) && x@ == k,
            None => r is None,
        },
{
    proof {
        CS::lemma_keys();
    }
    let n = args.entries.len();
    let mut i: usize = 0;
    while i < n
        invariant
            n == args@.len(),
            i <= n,
            CS::spec_keys().len() == 6,
            first_unknown(args@, CS::spec_keys(), 0) == first_unknown(args@, CS::spec_keys(), i as int),
        decreases n - i,
    {
        let k = args.entries[i].0.as_str();
        assert(k@ == args@[i as int].0);
        let mut j: usize = 0;
        let mut found = false;
        while j < 6
            invariant
                j <= 6,
                CS::spec_keys().len() == 6,
                found ==> CS::spec_keys().contains(k@),
                !found ==> forall|t: int| 0 <= t < j ==> CS::spec_keys()[t] != k@,
            decreases 6 - j,
        {
            if !found && str_eq(k, CS::key(j)) {
                found = true;
                assert(CS::spec_keys()[j as int] == k@);
            }
            j = j + 1;
        }
        if !found {
            return Some(k.to_owned());
        }
        i = i + 1;
    }
    None
}

fn decode_auth_exec(src: ConfigSource, key: &str, vs: Option<&Vec<String>>) -> (r: Result<bool, ConfigError>)
    ensures
        match decode_auth(src, key@, opt_values_view(vs)) {
            Ok(b) => r == Ok::<bool, ConfigError>(b),
            Err(e) => r matches Err(x) && x@ == e,
        },
{
    match vs {
        None => Ok(false),
        Some(v) => {
            if v.len() != 1 {
                Err(new_err(src, ConfigErrorKind::DuplicateValue, key.to_owned()))
            } else if str_eq(v[0].as_str(), "pwd") {
                Ok(true)
            } else {
                Err(new_err(src, ConfigErrorKind::InvalidValue, key.to_owned()))
            }
        },
    }
}

fn decode_mode_exec(src: ConfigSource, key: &str, vs: Option<&Vec<String>>) -> (r: Result<ConfigMode, ConfigError>)
    ensures
        match decode_mode(src, key@, opt_values_view(vs)) {
            Ok(m) => r == Ok::<ConfigMode, ConfigError>(m),
            Err(e) => r matches Err(x) && x@ == e,
        },
{
    match vs {
        None => Ok(ConfigMode::Dev),
        Some(v) => {
            if v.len() != 1 {
                Err(new_err(src, ConfigErrorKind::DuplicateValue, key.to_owned()))
            } else if str_eq(v[0].as_str(), "dev") {
                Ok(ConfigMode::Dev)
            } else if str_eq(v[0].as_str(), "prod") {
                Ok(ConfigMode::Prod)
            } else {
                Err(new_err(src, ConfigErrorKind::InvalidValue, key.to_owned()))
            }
        },
    }
}

fn decode_window_exec(src: ConfigSource, key: &str, vs: Option<&Vec<String>>) -> (r: Result<u64, ConfigError>)
    ensures
        match decode_window(src, key@, opt_values_view(vs)) {
            Ok(w) => r == Ok::<u64, ConfigError>(w),
            Err(e) => r matches Err(x) && x@ == e,
        },
{
    match vs {
        None => Ok(300),
        Some(v) => {
            if v.len() != 1 {
                Err(new_err(src, ConfigErrorKind::DuplicateValue, key.to_owned()))
            } else {
                match parse_unsigned_exec(v[0].as_str(), u64::MAX) {
                    Some(w) => Ok(w),
                    None => Err(new_err(src, ConfigErrorKind::InvalidValue, key.to_owned())),
                }
            }
        },
    }
}

fn decode_path_exec(src: ConfigSource, key: &str, vs: Option<&Vec<String>>) -> (r: Result<Option<String>, ConfigError>)
    ensures
        match decode_path(src, key@, opt_values_view(vs)) {
            Ok(None) => r matches Ok(None),
            Ok(Some(p)) => r matches Ok(Some(x)) && x@ == p,
            Err(e) => r matches Err(x) && x@ == e,
        },
{
    match vs {
        None => Ok(None),
        Some(v) => {
            if v.len() != 1 {
                Err(new_err(src, ConfigErrorKind::DuplicateValue, key.to_owned()))
            } else {
                Ok(Some(v[0].as_str().to_owned()))
            }
        },
    }
}

/// Splits an endpoint `proto@host:port`.
pub fn parse_endpoint_exec(s: &str) -> (r: Option<(String, String, u16)>)
    ensures
        match parse_endpoint(s@) {
            Some((p, h, port)) => r matches Some(x) && x.0@ == p && x.1@ == h && x.2 == port,
            None => r is None,
        },
{
    let n = s.unicode_len();
    let at = match find_char(s, '@') {
        Some(at) => at,
        None => {
            return None;
        },
    };
    let proto = substring(s, 0, at);
    let hp = substring(s, at + 1, n);
    let m = hp.as_str().unicode_len();
    let colon = match find_char(hp.as_str(), ':') {
        Some(c) => c,
        None => {
            return None;
        },
    };
    let host = substring(hp.as_str(), 0, colon);
    let port_s = substring(hp.as_str(), colon + 1, m);
    assert(hp@.subrange(colon + 1, m as int) == port_s@);
    match parse_unsigned_exec(port_s.as_str(), 65535) {
        Some(p) => {
            Some((proto, host, p as u16))
        },
        None => None,
    }
}

fn file_lookup_exec(files: &Vec<(String, String)>, path: &str) -> (r: Option<String>)
    ensures
        match file_lookup(files_view(files@), path@, 0) {
            Some(c) => r matches Some(x) && x@ == c,
            None => r is None,
        },
{
    let n = files.len();
    let mut i: usize = 0;
    while i < n
        invariant
            n == files@.len(),
            i <= n,
            file_lookup(files_view(files@), path@, 0) == file_lookup(files_view(files@), path@, i as int),
        decreases n - i,
    {
        if str_eq(files[i].0.as_str(), path) {
            return Some(files[i].1.as_str().to_owned());
        }
        i = i + 1;
    }
    None
}

pub open spec fn opt_tcp_view(t: Option<ConfigEndpointTcp>) -> Option<TcpV> {
    match t {
        Some(t) => Some(tcp_view(t)),
        None => None,
    }
}

pub open spec fn opt_tls_view(t: Option<ConfigEndpointTls>) -> Option<TlsV> {
    match t {
        Some(t) => Some(tls_view(t)),
        None => None,
    }
}

pub open spec fn opt_str_view(s: Option<String>) -> Option<Seq<char>> {
    match s {
        Some(s) => Some(s@),
        None => None,
    }
}

fn decode_endpoints_exec(
    src: ConfigSource,
    key: &str,
    vs: Option<&Vec<String>>,
    cert: &Option<String>,
    pkey: &Option<String>,
    files: &Vec<(String, String)>,
) -> (r: Result<ConfigEndpoint, ConfigError>)
    ensures
        match decode_endpoints(src, key@, opt_values_view(vs), opt_str_view(*cert), opt_str_view(*pkey), files_view(files@)) {
            Ok(e) => r matches Ok(x) && (Configuration { endpoints: x, mode: ConfigMode::Dev, system: ConfigSystem { reliability_system_window: 0, auth: false } })@.endpoints == e,
            Err(e) => r matches Err(x) && x@ == e,
        },
{
    let v = match vs {
        None => {
            return Ok(ConfigEndpoint::Insecure(ConfigEndpointTcp::new("127.0.0.1".to_owned(), 2003)));
        },
        Some(v) => v,
    };
    let n = v.len();
    if n == 0 || n > 2 {
        return Err(new_err(src, ConfigErrorKind::InvalidValue, key.to_owned()));
    }
    let ghost vsv = strings_view(v@);
    let ghost cv = opt_str_view(*cert);
    let ghost kv = opt_str_view(*pkey);
    let ghost fv = files_view(files@);
    let mut tcp: Option<ConfigEndpointTcp> = None;
    let mut tls: Option<ConfigEndpointTls> = None;
    let mut i: usize = 0;
    while i < n
        invariant
            n == v@.len(),
            0 < n <= 2,
            vsv == strings_view(v@),
            opt_values_view(vs) == Some(vsv),
            cv == opt_str_view(*cert),
            kv == opt_str_view(*pkey),
            fv == files_view(files@),
            i <= n,
            decode_endpoint_values(src, key@, vsv, 0, (None, None), cv, kv, fv) == decode_endpoint_values(
                src,
                key@,
                vsv,
                i as int,
                (opt_tcp_view(tcp), opt_tls_view(tls)),
                cv,
                kv,
                fv,
            ),
        decreases n - i,
    {
        let (proto, host, port) = match parse_endpoint_exec(v[i].as_str()) {
            Some(x) => x,
            None => {
                return Err(new_err(src, ConfigErrorKind::InvalidValue, key.to_owned()));
            },
        };
        if str_eq(proto.as_str(), "tcp") {
            if tcp.is_some() {
                return Err(new_err(src, ConfigErrorKind::InvalidValue, key.to_owned()));
            }
            tcp = Some(ConfigEndpointTcp::new(host, port));
        } else if str_eq(proto.as_str(), "tls") {
            if tls.is_some() {
                return Err(new_err(src, ConfigErrorKind::InvalidValue, key.to_owned()));
            }
            match (cert, pkey) {
                (Some(c), Some(k)) => {
                    let cc = match file_lookup_exec(files, c.as_str()) {
                        Some(x) => x,
                        None => {
                            return Err(new_err(src, ConfigErrorKind::FileUnavailable, c.as_str().to_owned()));
                        },
                    };
                    let kc = match file_lookup_exec(files, k.as_str()) {
                        Some(x) => x,
                        None => {
                            return Err(new_err(src, ConfigErrorKind::FileUnavailable, k.as_str().to_owned()));
                        },
                    };
                    tls = Some(ConfigEndpointTls::new(ConfigEndpointTcp::new(host, port), cc, kc));
                },
                _ => {
                    return Err(new_err(src, ConfigErrorKind::TlsFilesMissing, key.to_owned()));
                },
            }
        } else {
            return Err(new_err(src, ConfigErrorKind::InvalidValue, key.to_owned()));
        }
        i = i + 1;
    }
    match (tcp, tls) {
        (Some(t), None) => Ok(ConfigEndpoint::Insecure(t)),
        (None, Some(s)) => Ok(ConfigEndpoint::Secure(s)),
        (Some(t), Some(s)) => Ok(ConfigEndpoint::Multi(t, s)),
        (None, None) => Err(new_err(src, ConfigErrorKind::InvalidValue, key.to_owned())),
    }
}

/// Validates arguments from the source `CS` into a configuration; `files` holds the
/// contents of the files that were read, by path (the TLS certificate and key).
pub fn apply_and_validate<CS: ConfigurationSource>(args: ParsedRawArgs, files: &Vec<(String, String)>) -> (r: Result<
    ConfigReturn,
    ConfigError,
>)
    ensures
        match validate(CS::spec_source(), CS::spec_keys(), args@, files_view(files@)) {
            Ok(c) => r matches Ok(ConfigReturn::Config(x)) && x@ == c,
            Err(e) => r matches Err(x) && x@ == e,
        },
{
    proof {
        CS::lemma_keys();
    }
    let src = CS::source();
    match check_unknown::<CS>(&args) {
        Some(k) => {
            return Err(new_err(src, ConfigErrorKind::UnknownArgument, k));
        },
        None => {},
    }
    let auth = match decode_auth_exec(src, CS::key(2), args.get(CS::key(2))) {
        Ok(a) => a,
        Err(e) => {
            return Err(e);
        },
    };
    let mode = match decode_mode_exec(src, CS::key(4), args.get(CS::key(4))) {
        Ok(m) => m,
        Err(e) => {
            return Err(e);
        },
    };
    let window = match decode_window_exec(src, CS::key(5), args.get(CS::key(5))) {
        Ok(w) => w,
        Err(e) => {
            return Err(e);
        },
    };
    let cert = match decode_path_exec(src, CS::key(0), args.get(CS::key(0))) {
        Ok(c) => c,
        Err(e) => {
            return Err(e);
        },
    };
    let pkey = match decode_path_exec(src, CS::key(1), args.get(CS::key(1))) {
        Ok(k) => k,
        Err(e) => {
            return Err(e);
        },
    };
    let endpoints = match decode_endpoints_exec(src, CS::key(3), args.get(CS::key(3)), &cert, &pkey, files) {
        Ok(e) => e,
        Err(e) => {
            return Err(e);
        },
    };
    Ok(ConfigReturn::Config(Configuration::new(endpoints, mode, ConfigSystem::new(window, auth))))
}

/// The paths of the TLS certificate and key among arguments from the source `CS`: the
/// files that validation needs read.
pub fn tls_file_paths<CS: ConfigurationSource>(args: &ParsedRawArgs) -> (r: Vec<String>)
    ensures
        strings_view(r@) == (match args_get(args@, CS::spec_keys()[0]) {
            Some(v) => v,
            None => Seq::empty(),
        }) + (match args_get(args@, CS::spec_keys()[1]) {
            Some(v) => v,
            None => Seq::empty(),
        }),
{
    let mut r: Vec<String> = Vec::new();
    let ghost a = match args_get(args@, CS::spec_keys()[0]) {
        Some(v) => v,
        None => Seq::empty(),
    };
    let ghost b = match args_get(args@, CS::spec_keys()[1]) {
        Some(v) => v,
        None => Seq::empty(),
    };
    let empty: Vec<String> = Vec::new();
    let first = match args.get(CS::key(0)) {
        Some(v) => v,
        None => &empty,
    };
    let second = match args.get(CS::key(1)) {
        Some(v) => v,
        None => &empty,
    };
    assert(strings_view(empty@) =~= Seq::<Seq<char>>::empty());
    let mut i: usize = 0;
    while i < first.len()
        invariant
            i <= first@.len(),
            strings_view(first@) == a,
            strings_view(r@) == a.subrange(0, i as int),
            r@.len() == i,
            a.len() == first@.len(),
        decreases first@.len() - i,
    {
        let s = first[i].as_str().to_owned();
        assert(s@ == a[i as int]);
        let ghost prev = r@;
        r.push(s);
        assert(r@.len() == i + 1);
        assert(r@[i as int]@ == a[i as int]);
        assert(strings_view(r@)[i as int] == a[i as int]);
        assert forall|k: int| 0 <= k < i + 1 implies strings_view(r@)[k] == a[k] by {
            if k < i {
                assert(r@[k] == prev[k]);
                assert(strings_view(prev)[k] == a.subrange(0, i as int)[k]);
            }
        }
        assert(strings_view(r@) =~= a.subrange(0, i + 1));
        i = i + 1;
    }
    let mut j: usize = 0;
    while j < second.len()
        invariant
            j <= second@.len(),
            strings_view(second@) == b,
            strings_view(r@) == a + b.subrange(0, j as int),
            r@.len() == a.len() + j,
            b.len() == second@.len(),
        decreases second@.len() - j,
    {
        let s = second[j].as_str().to_owned();
        assert(s@ == b[j as int]);
        let ghost prev = r@;
        r.push(s);
        assert forall|k: int| 0 <= k < a.len() + j + 1 implies strings_view(r@)[k] == (a + b.subrange(0, j + 1))[k] by {
            if k < a.len() + j {
                assert(strings_view(prev)[k] == (a + b.subrange(0, j as int))[k]);
            }
        }
        assert(strings_view(r@) =~= a + b.subrange(0, j + 1));
        j = j + 1;
    }
    assert(b.subrange(0, j as int) =~= b);
    r
}

/// The version of the server.
pub const VERSION: &'static str = "0.8.0";

/// The help text of the server's command line.
pub const CLI_HELP: &'static str = "Usage: skyd [OPTION]...

skyd is the Skytable database server daemon and can be used to serve database requests.

Flags:
  -h, --help                  Display this help menu and exit.
  -v, --version               Display the version number and exit.

Options:
  --tlscert <path>            Specify the path to the TLS certificate.
  --tlskey <path>             Specify the path to the TLS private key.
  --endpoint <definition>     Designate an endpoint. Format: protocol@host:port.
                              This option can be repeated to define multiple endpoints.
  --service-window <seconds>  Establish the time window for the background service in seconds.
  --auth <plugin_name>        Identify the authentication plugin by name.
  --mode <dev/prod>           Set the operational mode (dev when not given).

Examples:
  skyd --mode=dev --endpoint=tcp@127.0.0.1:2003
";

/// The message that `--version` prints.
pub fn version_message() -> (r: String)
    ensures
        r@ == "Skytable Database Server (skyd) v"@ + VERSION@,
{
    let mut m = String::from_str("Skytable Database Server (skyd) v");
    m.append(VERSION);
    m
}

/// The mathematical value of a configuration result.
pub enum ConfigReturnV {
    Config(ConfigurationV),
    HelpMessage(Seq<char>),
}

/// What the server runs with, given its command line `cli`, its environment `env` and the
/// files that were read: help or version when asked; command-line configuration, which may
/// not be combined with environment configuration; else environment configuration; else
/// the defaults.
pub open spec fn check_config(
    cli: Seq<Seq<char>>,
    env: Seq<Seq<char>>,
    files: Seq<(Seq<char>, Seq<char>)>,
) -> Result<ConfigReturnV, ConfigErrorV> {
    let envm = env_parse(env, 0, Seq::empty());
    match cli_parse(cli, 1, Seq::empty()) {
        CliParseV::Failed(e) => Err(e),
        CliParseV::Help => Ok(ConfigReturnV::HelpMessage(CLI_HELP@)),
        CliParseV::Version => Ok(ConfigReturnV::HelpMessage("Skytable Database Server (skyd) v"@ + VERSION@)),
        CliParseV::Yielded(m) => if envm.len() > 0 {
            Err(cfg_err(ConfigSource::Cli, ConfigErrorKind::Conflict, Seq::empty()))
        } else {
            match validate(ConfigSource::Cli, cli_keys(), m, files) {
                Ok(c) => Ok(ConfigReturnV::Config(c)),
                Err(e) => Err(e),
            }
        },
        CliParseV::Default => match validate(ConfigSource::Env, env_keys(), envm, files) {
            Ok(c) => Ok(ConfigReturnV::Config(c)),
            Err(e) => Err(e),
        },
    }
}

/// The mathematical value of a configuration result.
pub open spec fn config_return_view(r: ConfigReturn) -> ConfigReturnV {
    match r {
        ConfigReturn::Config(c) => ConfigReturnV::Config(c@),
        ConfigReturn::HelpMessage(m) => ConfigReturnV::HelpMessage(m@),
    }
}

/// Decides what the server runs with (see [`check_config`]).
pub fn check_configuration(cli: &Vec<String>, env: &Vec<String>, files: &Vec<(String, String)>) -> (r: Result<
    ConfigReturn,
    ConfigError,
>)
    ensures
        match check_config(strings_view(cli@), strings_view(env@), files_view(files@)) {
            Ok(c) => r matches Ok(x) && config_return_view(x) == c,
            Err(e) => r matches Err(x) && x@ == e,
        },
{
    let env_args = match parse_env_args(env) {
        Ok(e) => e,
        Err(e) => {
            return Err(e);
        },
    };
    let cli_args = match parse_cli_args(cli) {
        Ok(c) => c,
        Err(e) => {
            return Err(e);
        },
    };
    match cli_args {
        CLIConfigParseReturn::Help => Ok(ConfigReturn::HelpMessage(String::from_str(CLI_HELP))),
        CLIConfigParseReturn::Version => Ok(ConfigReturn::HelpMessage(version_message())),
        CLIConfigParseReturn::YieldedConfig(cfg) => {
            if env_args.is_some() {
                return Err(new_err(ConfigSource::Cli, ConfigErrorKind::Conflict, String::new()));
            }
            apply_and_validate::<CSCommandLine>(cfg, files)
        },
        CLIConfigParseReturn::Default => {
            let args = match env_args {
                Some(a) => a,
                None => ParsedRawArgs::new(),
            };
            apply_and_validate::<CSEnvArgs>(args, files)
        },
    }
}

} // verus!
