//! Tokens of the query language and the cursor that statement parsers advance over them.
use vstd::prelude::*;

verus! {

/// Punctuation and operator tokens.
#[derive(Debug, Clone, Copy, PartialEq, Eq, Structural)]
pub enum Symbol {
    /// `*`
    SymStar,
    /// `,`
    SymComma,
    /// `.`
    SymPeriod,
    /// `:`
    SymColon,
    /// `=`
    OpAssign,
    /// `!`
    OpLogicalNot,
    /// `>`
    OpGt,
    /// `<`
    OpLt,
}

/// Reserved words.
#[derive(Debug, Clone, Copy, PartialEq, Eq, Structural)]
pub enum Keyword {
    Select,
    From,
    Where,
    And,
    Insert,
    Update,
    Delete,
}

/// A literal value written in a statement.
#[derive(Debug, Clone, Copy, PartialEq)]
pub enum Lit<'a> {
    Str(&'a [u8]),
    Bin(&'a [u8]),
    UnsignedInt(u64),
    SignedInt(i64),
    Bool(bool),
}

/// One token of a statement.
#[derive(Debug, Clone, Copy, PartialEq)]
pub enum Token<'a> {
    Symbol(Symbol),
    Keyword(Keyword),
    Ident(&'a [u8]),
    Lit(Lit<'a>),
}

/// Why a statement was refused.
#[derive(Debug, Clone, Copy, PartialEq, Eq, Structural)]
pub enum LangError {
    /// The statement ended before it was complete
    UnexpectedEndofStatement,
    /// A token is not what the grammar allows at its place
    UnexpectedToken,
}

/// Whether token `i` of `t` exists and is an identifier.
pub open spec fn ident_at<'a>(t: Seq<Token<'a>>, i: int) -> bool {
    0 <= i < t.len() && t[i] is Ident
}

/// Whether token `i` of `t` exists and is the symbol `s`.
pub open spec fn sym_at<'a>(t: Seq<Token<'a>>, i: int, s: Symbol) -> bool {
    0 <= i < t.len() && t[i] == Token::Symbol(s)
}

/// Whether token `i` of `t` exists and is the keyword `k`.
pub open spec fn kw_at<'a>(t: Seq<Token<'a>>, i: int, k: Keyword) -> bool {
    0 <= i < t.len() && t[i] == Token::Keyword(k)
}

/// Whether token `i` of `t` exists and is a literal.
pub open spec fn lit_at<'a>(t: Seq<Token<'a>>, i: int) -> bool {
    0 <= i < t.len() && t[i] is Lit
}

/// The position `i` among `len` tokens, or the last position where `i` is past it.
pub open spec fn rounded(len: int, i: int) -> int {
    if i < len - 1 {
        i
    } else {
        len - 1
    }
}

/// Whether `t` is a keyword token `k`.
pub fn is_keyword(t: &Token, k: Keyword) -> (r: bool)
    ensures
        r == (*t == Token::Keyword(k)),
{
    match t {
        Token::Keyword(x) => *x == k,
        _ => false,
    }
}

/// Whether `t` is a symbol token `s`.
pub fn is_symbol(t: &Token, s: Symbol) -> (r: bool)
    ensures
        r == (*t == Token::Symbol(s)),
{
    match t {
        Token::Symbol(x) => *x == s,
        _ => false,
    }
}

/// Whether `t` is an identifier.
pub fn is_ident(t: &Token) -> (r: bool)
    ensures
        r == (*t is Ident),
{
    match t {
        Token::Ident(_) => true,
        _ => false,
    }
}

/// Whether two byte strings hold the same bytes.
pub fn bytes_eq(a: &[u8], b: &[u8]) -> (r: bool)
    ensures
        r == (a@ == b@),
{
    if a.len() != b.len() {
        return false;
    }
    let mut i: usize = 0;
    while i < a.len()
        invariant
            a@.len() == b@.len(),
            i <= a@.len(),
            forall|k: int| 0 <= k < i ==> a@[k] == b@[k],
        decreases a@.len() - i,
    {
        if a[i] != b[i] {
            return false;
        }
        i = i + 1;
    }
    assert(a@ =~= b@);
    true
}

/// A cursor over the tokens of one statement, with a flag that parsers clear (poison) on
/// the first error and that stays cleared.
pub struct State<'a> {
    t: &'a [Token<'a>],
    i: usize,
    f: bool,
}

impl<'a> State<'a> {
    /// The tokens.
    pub closed spec fn tokens(&self) -> Seq<Token<'a>> {
        self.t@
    }

    /// The position of the cursor.
    pub closed spec fn pos(&self) -> int {
        self.i as int
    }

    /// The position of the cursor is never negative.
    pub broadcast proof fn lemma_pos_nonneg(s: &Self)
        ensures
            0 <= #[trigger] s.pos(),
    {
    }

    /// Whether no error was met so far.
    pub closed spec fn ok(&self) -> bool {
        self.f
    }

    /// The cursor never passes the end of the tokens.
    pub closed spec fn wf(&self) -> bool {
        self.i <= self.t@.len() <= usize::MAX
    }

    /// A cursor at the first of `t`, with no error.
    pub fn new(t: &'a [Token<'a>]) -> (r: Self)
        ensures
            r.wf(),
            r.tokens() == t@,
            r.pos() == 0,
            r.ok(),
    {
        let _ = t.len();
        State { t, i: 0, f: true }
    }

    /// The position of the cursor.
    pub fn cursor(&self) -> (r: usize)
        ensures
            r == self.pos(),
    {
        self.i
    }

    /// How many tokens are left.
    pub fn remaining(&self) -> (r: usize)
        requires
            self.wf(),
        ensures
            r == self.tokens().len() - self.pos(),
    {
        self.t.len() - self.i
    }

    /// Whether every token was consumed.
    pub fn exhausted(&self) -> (r: bool)
        requires
            self.wf(),
        ensures
            r == (self.pos() == self.tokens().len()),
    {
        self.i == self.t.len()
    }

    /// Whether a token is left.
    pub fn not_exhausted(&self) -> (r: bool)
        requires
            self.wf(),
        ensures
            r == (self.pos() < self.tokens().len()),
    {
        self.i < self.t.len()
    }

    /// Whether no error was met so far.
    pub fn okay(&self) -> (r: bool)
        ensures
            r == self.ok(),
    {
        self.f
    }

    /// Records an error if `fuse` holds.
    pub fn poison_if(&mut self, fuse: bool)
        ensures
            final(self).tokens() == old(self).tokens(),
            final(self).pos() == old(self).pos(),
            final(self).wf() == old(self).wf(),
            final(self).ok() == (old(self).ok() && !fuse),
    {
        self.f = self.f && !fuse;
    }

    /// Records an error unless `fuse` holds.
    pub fn poison_if_not(&mut self, fuse: bool)
        ensures
            final(self).tokens() == old(self).tokens(),
            final(self).pos() == old(self).pos(),
            final(self).wf() == old(self).wf(),
            final(self).ok() == (old(self).ok() && fuse),
    {
        self.poison_if(!fuse);
    }

    /// Moves the cursor `by` tokens on.
    pub fn cursor_ahead_by(&mut self, by: usize)
        requires
            old(self).wf(),
            old(self).pos() + by <= old(self).tokens().len(),
        ensures
            final(self).tokens() == old(self).tokens(),
            final(self).pos() == old(self).pos() + by,
            final(self).ok() == old(self).ok(),
            final(self).wf(),
    {
        self.i = self.i + by;
    }

    /// Moves the cursor one token on.
    pub fn cursor_ahead(&mut self)
        requires
            old(self).wf(),
            old(self).pos() < old(self).tokens().len(),
        ensures
            final(self).tokens() == old(self).tokens(),
            final(self).pos() == old(self).pos() + 1,
            final(self).ok() == old(self).ok(),
            final(self).wf(),
    {
        self.cursor_ahead_by(1);
    }

    /// Moves the cursor one token on if `iff` holds.
    pub fn cursor_ahead_if(&mut self, iff: bool)
        requires
            iff ==> old(self).pos() < old(self).tokens().len(),
            old(self).wf(),
        ensures
            final(self).tokens() == old(self).tokens(),
            final(self).pos() == old(self).pos() + (if iff { 1int } else { 0int }),
            final(self).ok() == old(self).ok(),
            final(self).wf(),
    {
        if iff {
            self.cursor_ahead_by(1);
        }
    }

    /// The token at the cursor.
    pub fn read(&self) -> (r: &'a Token<'a>)
        requires
            self.pos() < self.tokens().len(),
        ensures
            *r == self.tokens()[self.pos()],
    {
        &self.t[self.i]
    }

    /// The token `ahead` places after the cursor, where there is one.
    pub fn peek(&self, ahead: usize) -> (r: Option<&'a Token<'a>>)
        requires
            self.wf(),
        ensures
            match r {
                Some(x) => self.pos() + ahead < self.tokens().len() && *x == self.tokens()[self.pos() + ahead],
                None => self.pos() + ahead >= self.tokens().len(),
            },
    {
        if ahead < self.t.len() - self.i {
            Some(&self.t[self.i + ahead])
        } else {
            None
        }
    }

    /// Whether the token at the cursor is the keyword `k`.
    pub fn cursor_eq_keyword(&self, k: Keyword) -> (r: bool)
        requires
            self.wf(),
        ensures
            r == kw_at(self.tokens(), self.pos(), k),
    {
        self.i < self.t.len() && is_keyword(&self.t[self.i], k)
    }

    /// Whether the token at the cursor is the symbol `s`.
    pub fn cursor_eq_symbol(&self, s: Symbol) -> (r: bool)
        requires
            self.wf(),
        ensures
            r == sym_at(self.tokens(), self.pos(), s),
    {
        self.i < self.t.len() && is_symbol(&self.t[self.i], s)
    }

    /// Whether the token at the cursor, or the last token where the cursor is past the
    /// end, is the keyword `k`.
    pub fn cursor_rounded_eq_keyword(&self, k: Keyword) -> (r: bool)
        requires
            self.tokens().len() > 0,
        ensures
            r == kw_at(self.tokens(), rounded(self.tokens().len() as int, self.pos()), k),
    {
        let mx = if self.i < self.t.len() - 1 {
            self.i
        } else {
            self.t.len() - 1
        };
        is_keyword(&self.t[mx], k)
    }

    /// Whether the token at the cursor, or the last token where the cursor is past the
    /// end, is the symbol `s`.
    pub fn cursor_rounded_eq_symbol(&self, s: Symbol) -> (r: bool)
        requires
            self.tokens().len() > 0,
        ensures
            r == sym_at(self.tokens(), rounded(self.tokens().len() as int, self.pos()), s),
    {
        let mx = if self.i < self.t.len() - 1 {
            self.i
        } else {
            self.t.len() - 1
        };
        is_symbol(&self.t[mx], s)
    }
}

/// The model (the entity) that a statement acts on.
#[derive(Debug, Clone, Copy, PartialEq)]
pub enum Entity<'a> {
    /// `:model`, in the space in use
    Partial(&'a [u8]),
    /// `model`, in the space in use
    Single(&'a [u8]),
    /// `space.model`
    Full(&'a [u8], &'a [u8]),
}

/// The entity that starts at token `i` of `t`, with the number of its tokens.
pub open spec fn entity_at<'a>(t: Seq<Token<'a>>, i: int) -> Option<(Entity<'a>, int)> {
    if ident_at(t, i) && sym_at(t, i + 1, Symbol::SymPeriod) && ident_at(t, i + 2) {
        Some((Entity::Full(t[i]->Ident_0, t[i + 2]->Ident_0), 3))
    } else if ident_at(t, i) {
        Some((Entity::Single(t[i]->Ident_0), 1))
    } else if sym_at(t, i, Symbol::SymColon) && ident_at(t, i + 1) {
        Some((Entity::Partial(t[i + 1]->Ident_0), 2))
    } else {
        None
    }
}

/// Reads the entity at the cursor and moves past it, or records an error where there is
/// none.
pub fn attempt_process_entity<'a>(state: &mut State<'a>) -> (r: Option<Entity<'a>>)
    requires
        old(state).wf(),
    ensures
        final(state).wf(),
        final(state).tokens() == old(state).tokens(),
        r == (match entity_at(old(state).tokens(), old(state).pos()) {
            Some((e, _)) => Some(e),
            None => None,
        }),
        final(state).pos() == old(state).pos() + (match entity_at(old(state).tokens(), old(state).pos()) {
            Some((_, n)) => n,
            None => 0,
        }),
        final(state).ok() == (old(state).ok() && r is Some),
{
    let ghost t = state.tokens();
    let ghost i = state.pos();
    let rem = state.remaining();
    let is_full = rem > 2 && is_ident(state.read()) && {
        let p = state.cursor();
        is_symbol(&state.t[p + 1], Symbol::SymPeriod) && is_ident(&state.t[p + 2])
    };
    let is_single = rem > 0 && is_ident(state.read());
    let is_partial = rem > 1 && is_symbol(state.read(), Symbol::SymColon) && {
        let p = state.cursor();
        is_ident(&state.t[p + 1])
    };
    if is_full {
        let p = state.cursor();
        let a = match &state.t[p] {
            Token::Ident(x) => *x,
            _ => {
                proof {
                    assert(false);
                }
                return None;
            },
        };
        let b = match &state.t[p + 2] {
            Token::Ident(x) => *x,
            _ => {
                proof {
                    assert(false);
                }
                return None;
            },
        };
        state.cursor_ahead_by(3);
        Some(Entity::Full(a, b))
    } else if is_single {
        let a = match state.read() {
            Token::Ident(x) => *x,
            _ => {
                proof {
                    assert(false);
                }
                return None;
            },
        };
        state.cursor_ahead();
        Some(Entity::Single(a))
    } else if is_partial {
        let p = state.cursor();
        let a = match &state.t[p + 1] {
            Token::Ident(x) => *x,
            _ => {
                proof {
                    assert(false);
                }
                return None;
            },
        };
        state.cursor_ahead_by(2);
        Some(Entity::Partial(a))
    } else {
        state.poison_if(true);
        None
    }
}

} // verus!
