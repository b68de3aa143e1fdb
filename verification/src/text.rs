//! Small verified operations on text: comparing, searching, splitting and parsing numbers.
use vstd::prelude::*;
use vstd::string::StrSliceExecFns;

verus! {

/// Whether `s` starts with `p`.
pub open spec fn has_prefix(s: Seq<char>, p: Seq<char>) -> bool {
    p.len() <= s.len() && s.subrange(0, p.len() as int) == p
}

/// The index of the first `c` in `s` at or after `i`, or -1 when there is none.
pub open spec fn index_from(s: Seq<char>, c: char, i: int) -> int
    decreases s.len() - i,
{
    if i < 0 || i >= s.len() {
        -1
    } else if s[i] == c {
        i
    } else {
        index_from(s, c, i + 1)
    }
}

/// The index of the first `c` in `s`, or -1.
pub open spec fn index_of(s: Seq<char>, c: char) -> int {
    index_from(s, c, 0)
}

/// How many times `c` occurs in `s`.
pub open spec fn count_char(s: Seq<char>, c: char) -> nat
    decreases s.len(),
{
    if s.len() == 0 {
        0
    } else {
        count_char(s.drop_last(), c) + if s.last() == c { 1nat } else { 0nat }
    }
}

/// Whether `c` is a decimal digit.
pub open spec fn is_digit(c: char) -> bool {
    '0' <= c <= '9'
}

/// The value of a decimal digit.
pub open spec fn digit_value(c: char) -> int {
    (c as int) - ('0' as int)
}

/// Whether every character of `s` is a decimal digit.
pub open spec fn all_digits(s: Seq<char>) -> bool {
    forall|i: int| 0 <= i < s.len() ==> #[trigger] is_digit(s[i])
}

/// The number that the decimal digits `s` spell.
pub open spec fn digits_value(s: Seq<char>) -> int
    decreases s.len(),
{
    if s.len() == 0 {
        0
    } else {
        digits_value(s.drop_last()) * 10 + digit_value(s.last())
    }
}

/// The digits of an unsigned number as `str::parse` reads them: an optional `+`, then at
/// least one digit.
pub open spec fn number_digits(s: Seq<char>) -> Seq<char> {
    if s.len() > 0 && s[0] == '+' {
        s.subrange(1, s.len() as int)
    } else {
        s
    }
}

/// The unsigned number `s` spells, as `str::parse` reads it, when it is at most `max`.
pub open spec fn parse_unsigned(s: Seq<char>, max: int) -> Option<int> {
    let d = number_digits(s);
    if d.len() > 0 && all_digits(d) && digits_value(d) <= max {
        Some(digits_value(d))
    } else {
        None
    }
}

/// Whether two strings are equal.
pub fn str_eq(a: &str, b: &str) -> (r: bool)
    ensures
        r == (a@ == b@),
{
    let n = a.unicode_len();
    let m = b.unicode_len();
    if n != m {
        return false;
    }
    let mut i: usize = 0;
    while i < n
        invariant
            n == a@.len(),
            m == b@.len(),
            n == m,
            i <= n,
            forall|j: int| 0 <= j < i ==> a@[j] == b@[j],
        decreases n - i,
    {
        if a.get_char(i) != b.get_char(i) {
            return false;
        }
        i = i + 1;
    }
    assert(a@ =~= b@);
    true
}

/// Whether `a` starts with `p`.
pub fn starts_with(a: &str, p: &str) -> (r: bool)
    ensures
        r == has_prefix(a@, p@),
{
    let n = a.unicode_len();
    let m = p.unicode_len();
    if m > n {
        return false;
    }
    let mut i: usize = 0;
    while i < m
        invariant
            n == a@.len(),
            m == p@.len(),
            m <= n,
            i <= m,
            forall|j: int| 0 <= j < i ==> a@[j] == p@[j],
        decreases m - i,
    {
        if a.get_char(i) != p.get_char(i) {
            assert(a@.subrange(0, m as int)[i as int] != p@[i as int]);
            return false;
        }
        i = i + 1;
    }
    assert(a@.subrange(0, m as int) =~= p@);
    true
}

/// The index of the first `c` in `a`.
pub fn find_char(a: &str, c: char) -> (r: Option<usize>)
    ensures
        r is None <==> index_of(a@, c) == -1,
        r matches Some(i) ==> i == index_of(a@, c) && 0 <= i < a@.len() && a@[i as int] == c,
{
    let n = a.unicode_len();
    let mut i: usize = 0;
    while i < n
        invariant
            n == a@.len(),
            i <= n,
            index_of(a@, c) == index_from(a@, c, i as int),
        decreases n - i,
    {
        if a.get_char(i) == c {
            return Some(i);
        }
        i = i + 1;
    }
    None
}

proof fn lemma_count_push(s: Seq<char>, x: char, c: char)
    ensures
        count_char(s.push(x), c) == count_char(s, c) + if x == c { 1nat } else { 0nat },
{
    assert(s.push(x).drop_last() =~= s);
}

/// How many times `c` occurs in `a`.
pub fn count_char_exec(a: &str, c: char) -> (r: usize)
    ensures
        r == count_char(a@, c),
{
    let n = a.unicode_len();
    let mut i: usize = 0;
    let mut k: usize = 0;
    while i < n
        invariant
            n == a@.len(),
            i <= n,
            k <= i,
            k == count_char(a@.subrange(0, i as int), c),
        decreases n - i,
    {
        proof {
            lemma_count_push(a@.subrange(0, i as int), a@[i as int], c);
            assert(a@.subrange(0, i as int).push(a@[i as int]) =~= a@.subrange(0, i + 1));
        }
        if a.get_char(i) == c {
            k = k + 1;
        }
        i = i + 1;
    }
    assert(a@.subrange(0, n as int) =~= a@);
    k
}

/// The characters `from..to` of `a`, as a new string.
pub fn substring(a: &str, from: usize, to: usize) -> (r: String)
    requires
        from <= to <= a@.len(),
    ensures
        r@ == a@.subrange(from as int, to as int),
{
    a.substring_char(from, to).to_owned()
}

proof fn lemma_digits_push(s: Seq<char>, x: char)
    ensures
        digits_value(s.push(x)) == digits_value(s) * 10 + digit_value(x),
{
    assert(s.push(x).drop_last() =~= s);
}

proof fn lemma_digits_nonneg(s: Seq<char>)
    requires
        all_digits(s),
    ensures
        digits_value(s) >= 0,
    decreases s.len(),
{
    if s.len() > 0 {
        assert(is_digit(s[s.len() - 1]));
        lemma_digits_nonneg(s.drop_last());
    }
}

/// Parses an unsigned decimal number no greater than `max`, as `str::parse` does for
/// unsigned integers.
pub fn parse_unsigned_exec(a: &str, max: u64) -> (r: Option<u64>)
    ensures
        match parse_unsigned(a@, max as int) {
            Some(v) => r == Some(v as u64),
            None => r is None,
        },
        r matches Some(v) ==> v <= max && parse_unsigned(a@, max as int) == Some(v as int),
{
    let n = a.unicode_len();
    let mut i: usize = 0;
    if n > 0 && a.get_char(0) == '+' {
        i = 1;
    }
    let ghost d = number_digits(a@);
    assert(d =~= a@.subrange(i as int, n as int));
    if i == n {
        return None;
    }
    let start = i;
    let mut v: u64 = 0;
    while i < n
        invariant
            n == a@.len(),
            start <= i <= n,
            d == a@.subrange(start as int, n as int),
            d == number_digits(a@),
            all_digits(a@.subrange(start as int, i as int)),
            v as int == digits_value(a@.subrange(start as int, i as int)),
            v <= max,
        decreases n - i,
    {
        let ch = a.get_char(i);
        proof {
            assert(a@.subrange(start as int, i as int).push(ch) =~= a@.subrange(start as int, i + 1));
            lemma_digits_push(a@.subrange(start as int, i as int), ch);
        }
        if !('0' <= ch && ch <= '9') {
            proof {
                assert(d[i - start] == ch);
                assert(!is_digit(d[i - start]));
                assert(!all_digits(d));
            }
            return None;
        }
        let dv = (ch as u32 - '0' as u32) as u64;
        proof {
            assert(digit_value(ch) == dv);
            assert(d =~= a@.subrange(start as int, n as int));
            assert(a@.subrange(start as int, i + 1) =~= d.subrange(0, (i + 1 - start) as int));
        }
        if dv > max || v > (max - dv) / 10 {
            proof {
                if dv <= max {
                    assert(v * 10 + dv > max) by (nonlinear_arith)
                        requires v > (max - dv) / 10, dv <= max;
                }
                lemma_digits_nonneg(a@.subrange(start as int, i as int));
                assert(digits_value(a@.subrange(start as int, i + 1)) > max);
                let q = a@.subrange(start as int, i + 1);
                assert forall|j: int| 0 <= j < q.len() implies #[trigger] is_digit(q[j]) by {
                    if j < i - start {
                        assert(q[j] == a@.subrange(start as int, i as int)[j]);
                    } else {
                        assert(q[j] == ch);
                    }
                }
                assert(d.subrange(0, q.len() as int) =~= q);
                lemma_digits_grow(a@.subrange(start as int, i + 1), d);
            }
            return None;
        }
        proof {
            assert(v * 10 + dv <= max) by (nonlinear_arith)
                requires v <= (max - dv) / 10, dv <= max;
        }
        v = v * 10 + dv;
        i = i + 1;
    }
    Some(v)
}

/// Extending a digit string never makes its value smaller.
proof fn lemma_digits_grow(p: Seq<char>, s: Seq<char>)
    requires
        p.len() <= s.len(),
        p == s.subrange(0, p.len() as int),
        all_digits(s.subrange(0, p.len() as int)),
    ensures
        all_digits(s) ==> digits_value(s) >= digits_value(p),
    decreases s.len() - p.len(),
{
    if p.len() == s.len() {
        assert(p =~= s);
    }
    if p.len() < s.len() && all_digits(s) {
        let q = s.subrange(0, p.len() as int + 1);
        assert(q =~= p.push(s[p.len() as int]));
        lemma_digits_push(p, s[p.len() as int]);
        assert(is_digit(s[p.len() as int]));
        lemma_digits_nonneg(p);
        assert(all_digits(q));
        lemma_digits_grow(q, s);
    }
}

proof fn lemma_index_from_none(s: Seq<char>, c: char, i: int, j: int)
    requires
        0 <= i <= j < s.len(),
        index_from(s, c, i) == -1,
    ensures
        s[j] != c,
    decreases j - i,
{
    if i < j {
        lemma_index_from_none(s, c, i + 1, j);
    }
}

proof fn lemma_count_zero(s: Seq<char>, c: char)
    requires
        forall|j: int| 0 <= j < s.len() ==> s[j] != c,
    ensures
        count_char(s, c) == 0,
    decreases s.len(),
{
    if s.len() > 0 {
        lemma_count_zero(s.drop_last(), c);
    }
}

/// Occurrences in a concatenation are the occurrences in its parts.
pub proof fn lemma_count_append(a: Seq<char>, b: Seq<char>, c: char)
    ensures
        count_char(a + b, c) == count_char(a, c) + count_char(b, c),
    decreases b.len(),
{
    if b.len() == 0 {
        assert(a + b =~= a);
    } else {
        lemma_count_append(a, b.drop_last(), c);
        assert((a + b).drop_last() =~= a + b.drop_last());
        assert((a + b).last() == b.last());
    }
}

/// A character that occurs nowhere in `s` is at no index of it.
pub proof fn lemma_count_zero_absent(s: Seq<char>, c: char)
    requires
        count_char(s, c) == 0,
    ensures
        forall|j: int| 0 <= j < s.len() ==> s[j] != c,
    decreases s.len(),
{
    if s.len() > 0 {
        lemma_count_zero_absent(s.drop_last(), c);
        assert forall|j: int| 0 <= j < s.len() implies s[j] != c by {
            if j < s.len() - 1 {
                assert(s[j] == s.drop_last()[j]);
            }
        }
    }
}

proof fn lemma_index_from_first(s: Seq<char>, c: char, i: int, k: int)
    requires
        0 <= i <= k < s.len(),
        s[k] == c,
        forall|j: int| i <= j < k ==> s[j] != c,
    ensures
        index_from(s, c, i) == k,
    decreases k - i,
{
    if i < k {
        lemma_index_from_first(s, c, i + 1, k);
    }
}

/// The first index of `c` in `s` is `k` where `c` is at `k` and at no index before it.
pub proof fn lemma_index_of_first(s: Seq<char>, c: char, k: int)
    requires
        0 <= k < s.len(),
        s[k] == c,
        forall|j: int| 0 <= j < k ==> s[j] != c,
    ensures
        index_of(s, c) == k,
{
    lemma_index_from_first(s, c, 0, k);
}

/// A character that occurs in `s` has a first index in it.
pub proof fn lemma_count_index(s: Seq<char>, c: char)
    ensures
        count_char(s, c) > 0 ==> index_of(s, c) != -1,
{
    if index_of(s, c) == -1 && s.len() > 0 {
        assert forall|j: int| 0 <= j < s.len() implies s[j] != c by {
            lemma_index_from_none(s, c, 0, j);
        }
        lemma_count_zero(s, c);
    }
}


/// The decimal digit character of `d` (below ten).
pub open spec fn digit_char(d: nat) -> char {
    if d == 0 {
        '0'
    } else if d == 1 {
        '1'
    } else if d == 2 {
        '2'
    } else if d == 3 {
        '3'
    } else if d == 4 {
        '4'
    } else if d == 5 {
        '5'
    } else if d == 6 {
        '6'
    } else if d == 7 {
        '7'
    } else if d == 8 {
        '8'
    } else {
        '9'
    }
}

/// The decimal representation of `n`, without leading zeros.
pub open spec fn decimal(n: nat) -> Seq<char>
    decreases n,
{
    if n < 10 {
        seq![digit_char(n)]
    } else {
        decimal(n / 10).push(digit_char(n % 10))
    }
}

fn digit_str(d: u64) -> (r: &'static str)
    requires
        d < 10,
    ensures
        r@ == seq![digit_char(d as nat)],
{
    let r = if d == 0 {
        "0"
    } else if d == 1 {
        "1"
    } else if d == 2 {
        "2"
    } else if d == 3 {
        "3"
    } else if d == 4 {
        "4"
    } else if d == 5 {
        "5"
    } else if d == 6 {
        "6"
    } else if d == 7 {
        "7"
    } else if d == 8 {
        "8"
    } else {
        "9"
    };
    proof {
        reveal_strlit("0");
        reveal_strlit("1");
        reveal_strlit("2");
        reveal_strlit("3");
        reveal_strlit("4");
        reveal_strlit("5");
        reveal_strlit("6");
        reveal_strlit("7");
        reveal_strlit("8");
        reveal_strlit("9");
    }
    assert(r@ =~= seq![digit_char(d as nat)]);
    r
}

/// Appends the decimal representation of `n` to `s`.
pub fn push_decimal(s: &mut String, n: u64)
    ensures
        final(s)@ == old(s)@ + decimal(n as nat),
    decreases n,
{
    if n >= 10 {
        push_decimal(s, n / 10);
    }
    let d = digit_str(n % 10);
    s.append(d);
    assert(decimal(n as nat) =~= (if n < 10 { Seq::empty() } else { decimal((n / 10) as nat) }).push(digit_char((n % 10) as nat)));
}

/// Reading back the decimal representation of a number gives the number.
pub proof fn lemma_decimal_digits(n: nat)
    ensures
        decimal(n).len() > 0,
        all_digits(decimal(n)),
        digits_value(decimal(n)) == n,
    decreases n,
{
    assert(digit_value(digit_char(n % 10)) == n % 10);
    if n < 10 {
        let q = decimal(n);
        assert(q.drop_last() =~= Seq::<char>::empty());
        assert(digits_value(q.drop_last()) == 0);
    } else {
        lemma_decimal_digits(n / 10);
        let p = decimal(n / 10);
        let q = decimal(n);
        assert(q.drop_last() =~= p);
        assert(q.last() == digit_char(n % 10));
        assert((n / 10) * 10 + n % 10 == n);
        assert(digits_value(q) == digits_value(p) * 10 + digit_value(q.last()));
        assert forall|i: int| 0 <= i < q.len() implies #[trigger] is_digit(q[i]) by {
            if i < p.len() {
                assert(q[i] == p[i]);
            }
        }
    }
}

} // verus!
