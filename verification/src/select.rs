//! The `select` statement: `select (* | field, ...) from entity [where expr and ...]`.
use vstd::prelude::*;
use crate::ql::{
    attempt_process_entity, bytes_eq, entity_at, ident_at, is_symbol, kw_at, lit_at,
    rounded, sym_at, Entity, Keyword, LangError, Lit, State, Symbol, Token,
};

verus! {

broadcast use State::lemma_pos_nonneg;

/// `=`
pub const OP_EQ: u8 = 1;

/// `!=`
pub const OP_NE: u8 = 2;

/// `>`
pub const OP_GT: u8 = 3;

/// `>=`
pub const OP_GE: u8 = 4;

/// `<`
pub const OP_LT: u8 = 5;

/// `<=`
pub const OP_LE: u8 = 6;

/// A comparison of a column with a literal: `lhs opc rhs`.
#[derive(Debug, Clone, Copy, PartialEq)]
pub struct RelationalExpr<'a> {
    pub lhs: &'a [u8],
    pub rhs: Lit<'a>,
    pub opc: u8,
}

impl<'a> RelationalExpr<'a> {
    /// A comparison of column `lhs` with `rhs` by operator code `opc`.
    pub fn new(lhs: &'a [u8], rhs: Lit<'a>, opc: u8) -> (r: Self)
        ensures
            r == (RelationalExpr { lhs, rhs, opc }),
    {
        RelationalExpr { lhs, rhs, opc }
    }
}

/// The operator at token `i` of `t`, with the number of its tokens.
pub open spec fn operator_at<'a>(t: Seq<Token<'a>>, i: int) -> Option<(u8, int)> {
    if sym_at(t, i, Symbol::OpAssign) {
        Some((OP_EQ, 1))
    } else if sym_at(t, i, Symbol::OpLogicalNot) && sym_at(t, i + 1, Symbol::OpAssign) {
        Some((OP_NE, 2))
    } else if sym_at(t, i, Symbol::OpGt) && sym_at(t, i + 1, Symbol::OpAssign) {
        Some((OP_GE, 2))
    } else if sym_at(t, i, Symbol::OpGt) {
        Some((OP_GT, 1))
    } else if sym_at(t, i, Symbol::OpLt) && sym_at(t, i + 1, Symbol::OpAssign) {
        Some((OP_LE, 2))
    } else if sym_at(t, i, Symbol::OpLt) {
        Some((OP_LT, 1))
    } else {
        None
    }
}

/// The comparison that starts at token `i` of `t`, with the number of its tokens.
pub open spec fn rel_at<'a>(t: Seq<Token<'a>>, i: int) -> Option<(RelationalExpr<'a>, int)> {
    if ident_at(t, i) {
        match operator_at(t, i + 1) {
            Some((op, n)) => if lit_at(t, i + 1 + n) {
                Some((RelationalExpr { lhs: t[i]->Ident_0, rhs: t[i + 1 + n]->Lit_0, opc: op }, 2 + n))
            } else {
                None
            },
            None => None,
        }
    } else {
        None
    }
}

/// The first position from `k` on of a comparison on column `lhs` in `c`, or the length of
/// `c` where there is none.
pub open spec fn find_lhs<'a>(c: Seq<RelationalExpr<'a>>, lhs: Seq<u8>, k: int) -> int
    decreases c.len() - k,
{
    if k < 0 || k >= c.len() {
        c.len() as int
    } else if c[k].lhs@ == lhs {
        k
    } else {
        find_lhs(c, lhs, k + 1)
    }
}

/// `c` with `e` put in place of the comparison on its column, or added where there is none.
pub open spec fn coll_insert<'a>(c: Seq<RelationalExpr<'a>>, e: RelationalExpr<'a>) -> Seq<RelationalExpr<'a>> {
    let k = find_lhs(c, e.lhs@, 0);
    if k < c.len() {
        c.update(k, e)
    } else {
        c.push(e)
    }
}

/// No two comparisons in `c` are on one column.
pub open spec fn columns_distinct<'a>(c: Seq<RelationalExpr<'a>>) -> bool {
    forall|j: int, k: int| 0 <= j < k < c.len() ==> c[j].lhs@ != c[k].lhs@
}

proof fn lemma_find_lhs<'a>(c: Seq<RelationalExpr<'a>>, lhs: Seq<u8>, k: int)
    requires
        0 <= k <= c.len(),
    ensures
        k <= find_lhs(c, lhs, k) <= c.len(),
        find_lhs(c, lhs, k) < c.len() ==> c[find_lhs(c, lhs, k)].lhs@ == lhs,
        forall|j: int| k <= j < find_lhs(c, lhs, k) ==> c[j].lhs@ != lhs,
    decreases c.len() - k,
{
    if k < c.len() && c[k].lhs@ != lhs {
        lemma_find_lhs(c, lhs, k + 1);
    }
}

proof fn lemma_coll_insert<'a>(c: Seq<RelationalExpr<'a>>, e: RelationalExpr<'a>)
    requires
        columns_distinct(c),
    ensures
        columns_distinct(coll_insert(c, e)),
        coll_insert(c, e).len() == c.len() + (if find_lhs(c, e.lhs@, 0) < c.len() { 0int } else { 1int }),
{
    lemma_find_lhs(c, e.lhs@, 0);
}

/// The comparisons of a `where` clause, at most one per column.
#[derive(Debug, PartialEq)]
pub struct WhereClauseCollection<'a> {
    c: Vec<RelationalExpr<'a>>,
}

impl<'a> View for WhereClauseCollection<'a> {
    type V = Seq<RelationalExpr<'a>>;

    closed spec fn view(&self) -> Seq<RelationalExpr<'a>> {
        self.c@
    }
}

impl<'a> WhereClauseCollection<'a> {
    /// No two comparisons are on one column.
    pub open spec fn wf(&self) -> bool {
        columns_distinct(self@)
    }

    /// No comparisons.
    pub fn new() -> (r: Self)
        ensures
            r.wf(),
            r@ == Seq::<RelationalExpr<'a>>::empty(),
    {
        WhereClauseCollection { c: Vec::new() }
    }

    /// The number of comparisons.
    pub fn len(&self) -> (r: usize)
        ensures
            r == self@.len(),
    {
        self.c.len()
    }

    /// Whether there is no comparison.
    pub fn is_empty(&self) -> (r: bool)
        ensures
            r == (self@.len() == 0),
    {
        self.c.len() == 0
    }

    /// The comparison on column `lhs`, where there is one.
    pub fn get(&self, lhs: &[u8]) -> (r: Option<&RelationalExpr<'a>>)
        requires
            self.wf(),
        ensures
            match r {
                Some(e) => find_lhs(self@, lhs@, 0) < self@.len() && *e == self@[find_lhs(self@, lhs@, 0)],
                None => find_lhs(self@, lhs@, 0) == self@.len(),
            },
    {
        let k = self.find(lhs);
        proof {
            lemma_find_lhs(self@, lhs@, 0);
        }
        if k < self.c.len() {
            Some(&self.c[k])
        } else {
            None
        }
    }

    fn find(&self, lhs: &[u8]) -> (r: usize)
        ensures
            r == find_lhs(self@, lhs@, 0),
    {
        let mut k: usize = 0;
        while k < self.c.len()
            invariant
                k <= self.c@.len(),
                find_lhs(self@, lhs@, k as int) == find_lhs(self@, lhs@, 0),
            decreases self.c@.len() - k,
        {
            if bytes_eq(self.c[k].lhs, lhs) {
                return k;
            }
            k = k + 1;
        }
        k
    }

    /// Puts `e` in place of the comparison on its column, which it returns, or adds it
    /// where there is none.
    pub fn insert(&mut self, e: RelationalExpr<'a>) -> (r: Option<RelationalExpr<'a>>)
        requires
            old(self).wf(),
        ensures
            final(self).wf(),
            final(self)@ == coll_insert(old(self)@, e),
            match r {
                Some(x) => find_lhs(old(self)@, e.lhs@, 0) < old(self)@.len() && x == old(self)@[find_lhs(old(self)@, e.lhs@, 0)],
                None => find_lhs(old(self)@, e.lhs@, 0) == old(self)@.len(),
            },
    {
        proof {
            lemma_coll_insert(self@, e);
            lemma_find_lhs(self@, e.lhs@, 0);
        }
        let k = self.find(e.lhs);
        if k < self.c.len() {
            let old_e = self.c[k];
            self.c.set(k, e);
            Some(old_e)
        } else {
            self.c.push(e);
            None
        }
    }
}

/// The `where` clause of a statement.
#[derive(Debug, PartialEq)]
pub struct WhereClause<'a> {
    pub c: WhereClauseCollection<'a>,
}

/// Where the cursor ends, whether no error was met, and the comparisons collected, when a
/// `where` clause is read from token `i` of `t` on, with the flag `f` and the comparisons
/// `c` collected so far: comparisons joined by `and`.
pub open spec fn where_loop<'a>(t: Seq<Token<'a>>, i: int, f: bool, c: Seq<RelationalExpr<'a>>) -> (int, bool, Seq<RelationalExpr<'a>>)
    decreases t.len() - i,
{
    if !(0 <= i < t.len() && f) {
        (i, f, c)
    } else {
        match rel_at(t, i) {
            None => (i, false, c),
            Some((e, n)) => {
                let dup = find_lhs(c, e.lhs@, 0) < c.len();
                let c2 = coll_insert(c, e);
                let j = i + n;
                if kw_at(t, j, Keyword::And) {
                    where_loop(t, j + 1, !dup, c2)
                } else {
                    (j, !dup, c2)
                }
            },
        }
    }
}

proof fn lemma_where_loop<'a>(t: Seq<Token<'a>>, i: int, f: bool, c: Seq<RelationalExpr<'a>>)
    requires
        0 <= i <= t.len(),
        columns_distinct(c),
    ensures
        i <= where_loop(t, i, f, c).0 <= t.len(),
        columns_distinct(where_loop(t, i, f, c).2),
        c.len() <= where_loop(t, i, f, c).2.len(),
    decreases t.len() - i,
{
    if 0 <= i < t.len() && f {
        match rel_at(t, i) {
            None => {},
            Some((e, n)) => {
                lemma_coll_insert(c, e);
                lemma_find_lhs(c, e.lhs@, 0);
                let dup = find_lhs(c, e.lhs@, 0) < c.len();
                assert(i + n <= t.len());
                if kw_at(t, i + n, Keyword::And) {
                    lemma_where_loop(t, i + n + 1, !dup, coll_insert(c, e));
                }
            },
        }
    }
}

/// The operator `off` places after the cursor, with the number of its tokens.
fn parse_operator<'a>(state: &State<'a>, off: usize) -> (r: Option<(u8, usize)>)
    requires
        state.wf(),
        off < 8,
    ensures
        match operator_at(state.tokens(), state.pos() + off) {
            Some((op, n)) => r == Some((op, n as usize)),
            None => r is None,
        },
{
    let first = match state.peek(off) {
        Some(x) => x,
        None => {
            return None;
        },
    };
    let second_is_assign = match state.peek(off + 1) {
        Some(x) => is_symbol(x, Symbol::OpAssign),
        None => false,
    };
    if is_symbol(first, Symbol::OpAssign) {
        Some((OP_EQ, 1))
    } else if is_symbol(first, Symbol::OpLogicalNot) && second_is_assign {
        Some((OP_NE, 2))
    } else if is_symbol(first, Symbol::OpGt) && second_is_assign {
        Some((OP_GE, 2))
    } else if is_symbol(first, Symbol::OpGt) {
        Some((OP_GT, 1))
    } else if is_symbol(first, Symbol::OpLt) && second_is_assign {
        Some((OP_LE, 2))
    } else if is_symbol(first, Symbol::OpLt) {
        Some((OP_LT, 1))
    } else {
        None
    }
}

impl<'a> RelationalExpr<'a> {
    /// Reads the comparison at the cursor and moves past it, or records an error where
    /// there is none.
    pub fn try_parse(state: &mut State<'a>) -> (r: Option<Self>)
        requires
            old(state).wf(),
        ensures
            final(state).wf(),
            final(state).tokens() == old(state).tokens(),
            match rel_at(old(state).tokens(), old(state).pos()) {
                Some((e, n)) => r == Some(e) && final(state).pos() == old(state).pos() + n
                    && final(state).ok() == old(state).ok(),
                None => r is None && final(state).pos() == old(state).pos() && !final(state).ok(),
            },
    {
        let lhs = match state.peek(0) {
            Some(Token::Ident(x)) => *x,
            _ => {
                state.poison_if(true);
                return None;
            },
        };
        let (opc, n) = match parse_operator(state, 1) {
            Some(x) => x,
            None => {
                state.poison_if(true);
                return None;
            },
        };
        let rhs = match state.peek(1 + n) {
            Some(Token::Lit(l)) => *l,
            _ => {
                state.poison_if(true);
                return None;
            },
        };
        state.cursor_ahead_by(2 + n);
        Some(RelationalExpr { lhs, rhs, opc })
    }
}

impl<'a> WhereClause<'a> {
    /// A clause of the comparisons `c`.
    pub fn new(c: WhereClauseCollection<'a>) -> (r: Self)
        ensures
            r.c@ == c@,
    {
        WhereClause { c }
    }

    /// Reads comparisons joined by `and` from the cursor on into `c`; records an error on
    /// a malformed comparison and on a second comparison of one column.
    pub fn parse_where_and_append_to(state: &mut State<'a>, c: &mut WhereClauseCollection<'a>)
        requires
            old(state).wf(),
            old(c).wf(),
        ensures
            final(state).wf(),
            final(c).wf(),
            final(state).tokens() == old(state).tokens(),
            (final(state).pos(), final(state).ok(), final(c)@) == where_loop(
                old(state).tokens(),
                old(state).pos(),
                old(state).ok(),
                old(c)@,
            ),
    {
        let ghost t = state.tokens();
        let ghost goal = where_loop(t, state.pos(), state.ok(), c@);
        let mut has_more = true;
        while has_more && state.not_exhausted() && state.okay()
            invariant
                state.wf(),
                c.wf(),
                state.tokens() == t,
                has_more ==> where_loop(t, state.pos(), state.ok(), c@) == goal,
                !has_more ==> (state.pos(), state.ok(), c@) == goal,
            decreases t.len() - state.pos(), if has_more { 1int } else { 0int },
        {
            let ghost c0 = c@;
            match RelationalExpr::try_parse(state) {
                Some(expr) => {
                    proof {
                        lemma_find_lhs(c0, expr.lhs@, 0);
                    }
                    let prev = c.insert(expr);
                    state.poison_if(prev.is_some());
                    has_more = state.cursor_eq_keyword(Keyword::And);
                    state.cursor_ahead_if(has_more);
                },
                None => {
                    has_more = false;
                },
            }
        }
    }
}

/// The mathematical value of a `select` statement.
pub struct SelectV<'a> {
    pub entity: Entity<'a>,
    pub fields: Seq<&'a [u8]>,
    pub wildcard: bool,
    pub clause: Seq<RelationalExpr<'a>>,
}

/// A `select` statement.
#[derive(Debug, PartialEq)]
pub struct SelectStatement<'a> {
    /// the entity
    pub entity: Entity<'a>,
    /// fields in order of querying. will be zero when wildcard is set
    pub fields: Vec<&'a [u8]>,
    /// whether a wildcard was passed
    pub wildcard: bool,
    /// where clause
    pub clause: WhereClause<'a>,
}

impl<'a> View for SelectStatement<'a> {
    type V = SelectV<'a>;

    open spec fn view(&self) -> SelectV<'a> {
        SelectV { entity: self.entity, fields: self.fields@, wildcard: self.wildcard, clause: self.clause.c@ }
    }
}

/// Where the cursor ends, whether no error was met, and the fields collected, when field
/// names are read from token `i` of `t` on, with the flag `f` and the fields `fields`
/// collected so far: each field is an identifier followed by `,` or by `from`.
pub open spec fn fields_loop<'a>(t: Seq<Token<'a>>, i: int, f: bool, fields: Seq<&'a [u8]>) -> (int, bool, Seq<&'a [u8]>)
    decreases t.len() - i,
{
    if !(0 <= i < t.len() && f) {
        (i, f, fields)
    } else if t[i] is Ident {
        let j = i + 1;
        let c = sym_at(t, rounded(t.len() as int, j), Symbol::SymComma);
        let fr = kw_at(t, rounded(t.len() as int, j), Keyword::From);
        fields_loop(t, if c { j + 1 } else { j }, c || fr, fields.push(t[i]->Ident_0))
    } else {
        (i, f, fields)
    }
}

proof fn lemma_fields_loop<'a>(t: Seq<Token<'a>>, i: int, f: bool, fields: Seq<&'a [u8]>)
    requires
        0 <= i <= t.len(),
    ensures
        i <= fields_loop(t, i, f, fields).0 <= t.len(),
        fields.len() <= fields_loop(t, i, f, fields).2.len(),
    decreases t.len() - i,
{
    if 0 <= i < t.len() && f && t[i] is Ident {
        let j = i + 1;
        let c = sym_at(t, rounded(t.len() as int, j), Symbol::SymComma);
        let fr = kw_at(t, rounded(t.len() as int, j), Keyword::From);
        lemma_fields_loop(t, if c { j + 1 } else { j }, c || fr, fields.push(t[i]->Ident_0));
    }
}

/// Where the cursor ends and what is read, when a `select` statement (its keyword
/// already consumed) is read from token `p` of `t` on with the flag `f0`.
pub open spec fn select_parse<'a>(t: Seq<Token<'a>>, p: int, f0: bool) -> (int, Result<SelectV<'a>, LangError>) {
    if t.len() - p < 3 {
        (p, Err(LangError::UnexpectedEndofStatement))
    } else {
        let w = sym_at(t, p, Symbol::SymStar);
        let i0 = if w { p + 1 } else { p };
        let fl = if w { (i0, f0, Seq::<&'a [u8]>::empty()) } else { fields_loop(t, i0, f0, Seq::empty()) };
        let i1 = fl.0;
        let fields = fl.2;
        let f2 = fl.1 && (w || fields.len() > 0);
        if t.len() - i1 < 2 || !f2 {
            (i1, Err(LangError::UnexpectedEndofStatement))
        } else {
            let f3 = kw_at(t, i1, Keyword::From);
            let i2 = i1 + 1;
            let i3 = match entity_at(t, i2) {
                Some((_, n)) => i2 + n,
                None => i2,
            };
            let f4 = f3 && entity_at(t, i2) is Some;
            let wl = if kw_at(t, rounded(t.len() as int, i3), Keyword::Where) {
                let r = where_loop(t, i3 + 1, f4, Seq::empty());
                (r.0, r.1 && r.2.len() > 0, r.2)
            } else {
                (i3, f4, Seq::empty())
            };
            if wl.1 {
                (wl.0, Ok(SelectV { entity: entity_at(t, i2).unwrap().0, fields, wildcard: w, clause: wl.2 }))
            } else {
                (wl.0, Err(LangError::UnexpectedToken))
            }
        }
    }
}

/// A statement that is read either selects all fields (`*`) and names none, or names at
/// least one field; and its cursor stays within the tokens.
pub proof fn lemma_select_wildcard_or_fields<'a>(t: Seq<Token<'a>>, p: int, f0: bool)
    requires
        0 <= p <= t.len(),
    ensures
        p <= select_parse(t, p, f0).0 <= t.len(),
        select_parse(t, p, f0).1 matches Ok(s) ==> (s.wildcard <==> s.fields.len() == 0),
        select_parse(t, p, f0).1 matches Ok(s) ==> columns_distinct(s.clause),
{
    if t.len() - p >= 3 {
        let w = sym_at(t, p, Symbol::SymStar);
        let i0 = if w { p + 1 } else { p };
        if !w {
            lemma_fields_loop(t, i0, f0, Seq::empty());
        }
        let fl = if w { (i0, f0, Seq::<&'a [u8]>::empty()) } else { fields_loop(t, i0, f0, Seq::empty()) };
        let i1 = fl.0;
        if t.len() - i1 >= 2 {
            let i2 = i1 + 1;
            let i3 = match entity_at(t, i2) {
                Some((_, n)) => i2 + n,
                None => i2,
            };
            let f4 = kw_at(t, i1, Keyword::From) && entity_at(t, i2) is Some;
            if kw_at(t, rounded(t.len() as int, i3), Keyword::Where) {
                lemma_where_loop(t, i3 + 1, f4, Seq::empty());
            }
        }
    }
}

/// The tokens of a field list: the names `fs`, separated by commas.
pub open spec fn field_tokens<'a>(fs: Seq<&'a [u8]>) -> Seq<Token<'a>>
    decreases fs.len(),
{
    if fs.len() == 0 {
        Seq::empty()
    } else if fs.len() == 1 {
        seq![Token::Ident(fs[0])]
    } else {
        seq![Token::Ident(fs[0]), Token::Symbol(Symbol::SymComma)] + field_tokens(fs.subrange(1, fs.len() as int))
    }
}

/// The tokens of an entity.
pub open spec fn entity_tokens<'a>(e: Entity<'a>) -> Seq<Token<'a>> {
    match e {
        Entity::Partial(m) => seq![Token::Symbol(Symbol::SymColon), Token::Ident(m)],
        Entity::Single(m) => seq![Token::Ident(m)],
        Entity::Full(s, m) => seq![Token::Ident(s), Token::Symbol(Symbol::SymPeriod), Token::Ident(m)],
    }
}

/// The tokens of the operator with code `op`.
pub open spec fn op_tokens<'a>(op: u8) -> Seq<Token<'a>> {
    if op == OP_EQ {
        seq![Token::Symbol(Symbol::OpAssign)]
    } else if op == OP_NE {
        seq![Token::Symbol(Symbol::OpLogicalNot), Token::Symbol(Symbol::OpAssign)]
    } else if op == OP_GT {
        seq![Token::Symbol(Symbol::OpGt)]
    } else if op == OP_GE {
        seq![Token::Symbol(Symbol::OpGt), Token::Symbol(Symbol::OpAssign)]
    } else if op == OP_LT {
        seq![Token::Symbol(Symbol::OpLt)]
    } else {
        seq![Token::Symbol(Symbol::OpLt), Token::Symbol(Symbol::OpAssign)]
    }
}

/// The tokens of a comparison: column, operator, literal.
pub open spec fn rel_tokens<'a>(e: RelationalExpr<'a>) -> Seq<Token<'a>> {
    seq![Token::Ident(e.lhs)] + op_tokens(e.opc) + seq![Token::Lit(e.rhs)]
}

/// The tokens of the comparisons `cs`, joined by `and`.
pub open spec fn where_tokens<'a>(cs: Seq<RelationalExpr<'a>>) -> Seq<Token<'a>>
    decreases cs.len(),
{
    if cs.len() == 0 {
        Seq::empty()
    } else if cs.len() == 1 {
        rel_tokens(cs[0])
    } else {
        rel_tokens(cs[0]) + seq![Token::Keyword(Keyword::And)] + where_tokens(cs.subrange(1, cs.len() as int))
    }
}

/// The tokens of a `select` statement (after its keyword): `*` or the field list, `from`,
/// the entity, and, where there are comparisons, `where` and the comparisons.
pub open spec fn select_tokens<'a>(
    wildcard: bool,
    fs: Seq<&'a [u8]>,
    e: Entity<'a>,
    cs: Seq<RelationalExpr<'a>>,
) -> Seq<Token<'a>> {
    (if wildcard {
        seq![Token::Symbol(Symbol::SymStar)]
    } else {
        field_tokens(fs)
    }) + seq![Token::Keyword(Keyword::From)] + entity_tokens(e) + (if cs.len() == 0 {
        Seq::empty()
    } else {
        seq![Token::Keyword(Keyword::Where)] + where_tokens(cs)
    })
}

proof fn lemma_field_tokens_len<'a>(fs: Seq<&'a [u8]>)
    requires
        fs.len() > 0,
    ensures
        field_tokens(fs).len() == 2 * fs.len() - 1,
        field_tokens(fs)[0] == Token::Ident(fs[0]),
    decreases fs.len(),
{
    if fs.len() > 1 {
        lemma_field_tokens_len(fs.subrange(1, fs.len() as int));
    }
}

proof fn lemma_fields_loop_tokens<'a>(t: Seq<Token<'a>>, i: int, fs: Seq<&'a [u8]>, acc: Seq<&'a [u8]>)
    requires
        0 <= i,
        fs.len() > 0,
        i + field_tokens(fs).len() < t.len(),
        t.subrange(i, i + field_tokens(fs).len()) == field_tokens(fs),
        t[i + field_tokens(fs).len()] == Token::Keyword(Keyword::From),
    ensures
        fields_loop(t, i, true, acc) == (i + field_tokens(fs).len(), true, acc + fs),
    decreases fs.len(),
{
    lemma_field_tokens_len(fs);
    let l = field_tokens(fs).len() as int;
    assert(t[i] == t.subrange(i, i + l)[0]);
    let j = i + 1;
    assert(rounded(t.len() as int, j) == j);
    if fs.len() == 1 {
        assert(fields_loop(t, j, true, acc.push(fs[0])) == (j, true, acc.push(fs[0])));
        assert(acc.push(fs[0]) =~= acc + fs);
    } else {
        let rest = fs.subrange(1, fs.len() as int);
        lemma_field_tokens_len(rest);
        let lr = field_tokens(rest).len() as int;
        assert(t[i + 1] == t.subrange(i, i + l)[1]);
        assert(t.subrange(i + 2, i + 2 + lr) =~= field_tokens(rest)) by {
            assert forall|k: int| 0 <= k < lr implies t.subrange(i + 2, i + 2 + lr)[k] == field_tokens(rest)[k] by {
                assert(t.subrange(i + 2, i + 2 + lr)[k] == t.subrange(i, i + l)[k + 2]);
            }
        }
        lemma_fields_loop_tokens(t, i + 2, rest, acc.push(fs[0]));
        assert(acc.push(fs[0]) + rest =~= acc + fs);
    }
}

proof fn lemma_rel_at_tokens<'a>(t: Seq<Token<'a>>, i: int, e: RelationalExpr<'a>)
    requires
        0 <= i,
        1 <= e.opc <= 6,
        i + rel_tokens(e).len() <= t.len(),
        t.subrange(i, i + rel_tokens(e).len()) == rel_tokens(e),
    ensures
        rel_at(t, i) == Some((e, rel_tokens(e).len() as int)),
        rel_tokens(e).len() >= 3,
{
    let l = rel_tokens(e).len() as int;
    let o = op_tokens::<'a>(e.opc);
    assert forall|k: int| 0 <= k < l implies t[i + k] == rel_tokens(e)[k] by {
        assert(t.subrange(i, i + l)[k] == t[i + k]);
    }
    assert(t[i] == rel_tokens(e)[0]);
    assert(t[i + 1] == rel_tokens(e)[1]);
    assert(t[i + 2] == rel_tokens(e)[2]);
    assert(t[i + l - 1] == rel_tokens(e)[l - 1]);
    assert(rel_tokens(e)[1] == o[0]);
    if o.len() == 2 {
        assert(rel_tokens(e)[2] == o[1]);
    }
}

proof fn lemma_where_loop_tokens<'a>(t: Seq<Token<'a>>, i: int, cs: Seq<RelationalExpr<'a>>, acc: Seq<RelationalExpr<'a>>)
    requires
        0 <= i,
        cs.len() > 0,
        i + where_tokens(cs).len() == t.len(),
        t.subrange(i, t.len() as int) == where_tokens(cs),
        forall|k: int| 0 <= k < cs.len() ==> 1 <= #[trigger] cs[k].opc <= 6,
        columns_distinct(acc + cs),
    ensures
        where_loop(t, i, true, acc) == (t.len() as int, true, acc + cs),
    decreases cs.len(),
{
    let e = cs[0];
    let l = rel_tokens(e).len() as int;
    let w = where_tokens(cs).len() as int;
    assert(where_tokens(cs).subrange(0, l) =~= rel_tokens(e));
    assert(t.subrange(i, i + l) =~= rel_tokens(e)) by {
        assert forall|k: int| 0 <= k < l implies t.subrange(i, i + l)[k] == rel_tokens(e)[k] by {
            assert(t.subrange(i, i + l)[k] == t.subrange(i, t.len() as int)[k]);
        }
    }
    assert(1 <= cs[0].opc <= 6);
    lemma_rel_at_tokens(t, i, e);
    lemma_find_lhs(acc, e.lhs@, 0);
    let k = find_lhs(acc, e.lhs@, 0);
    if k < acc.len() {
        assert((acc + cs)[k] == acc[k]);
        assert((acc + cs)[acc.len() as int] == e);
        assert(false);
    }
    assert(coll_insert(acc, e) == acc.push(e));
    let j = i + l;
    if cs.len() == 1 {
        assert(w == l);
        assert(!kw_at(t, j, Keyword::And));
        assert(acc.push(e) =~= acc + cs);
    } else {
        let rest = cs.subrange(1, cs.len() as int);
        let wr = where_tokens(rest).len() as int;
        assert(w == l + 1 + wr);
        assert(t[j] == t.subrange(i, t.len() as int)[l]);
        assert(where_tokens(cs)[l] == Token::<'a>::Keyword(Keyword::And));
        assert(kw_at(t, j, Keyword::And));
        assert(t.subrange(j + 1, t.len() as int) =~= where_tokens(rest)) by {
            assert forall|k2: int| 0 <= k2 < wr implies t.subrange(j + 1, t.len() as int)[k2] == where_tokens(rest)[k2] by {
                assert(t.subrange(j + 1, t.len() as int)[k2] == t.subrange(i, t.len() as int)[l + 1 + k2]);
            }
        }
        assert(acc.push(e) + rest =~= acc + cs);
        assert forall|k2: int| 0 <= k2 < rest.len() implies 1 <= #[trigger] rest[k2].opc <= 6 by {
            assert(rest[k2] == cs[k2 + 1]);
        }
        lemma_where_loop_tokens(t, j + 1, rest, acc.push(e));
    }
}

/// The tokens of `*` or of a non-empty field list, then `from` and an entity, followed by
/// nothing or by `where` and anything: the fields are read up to `from`, which stands right
/// after them, and the entity after it is read whole.
proof fn lemma_select_head<'a>(wildcard: bool, fs: Seq<&'a [u8]>, e: Entity<'a>, tail: Seq<Token<'a>>)
    requires
        wildcard ==> fs.len() == 0,
        !wildcard ==> fs.len() > 0,
        tail.len() == 0 || tail[0] == Token::<'a>::Keyword(Keyword::Where),
    ensures
        ({
            let t = select_tokens(wildcard, fs, e, Seq::empty()) + tail;
            let lp = if wildcard { 1 } else { field_tokens(fs).len() as int };
            let le = entity_tokens(e).len() as int;
            &&& 1 <= le <= 3
            &&& select_tokens(wildcard, fs, e, Seq::empty()).len() == lp + 1 + le
            &&& t.len() >= 3
            &&& wildcard ==> sym_at(t, 0, Symbol::SymStar)
            &&& !wildcard ==> !sym_at(t, 0, Symbol::SymStar) && fields_loop(t, 0, true, Seq::empty()) == (
                lp,
                true,
                Seq::<&'a [u8]>::empty() + fs,
            )
            &&& kw_at(t, lp, Keyword::From)
            &&& entity_at(t, lp + 1) == Some((e, le))
        }),
{
    let t = select_tokens(wildcard, fs, e, Seq::empty()) + tail;
    let p = if wildcard {
        seq![Token::Symbol(Symbol::SymStar)]
    } else {
        field_tokens(fs)
    };
    let et = entity_tokens(e);
    if !wildcard {
        lemma_field_tokens_len(fs);
    }
    let lp = p.len() as int;
    let le = et.len() as int;
    assert(t =~= p + seq![Token::Keyword(Keyword::From)] + et + tail);
    assert(lp >= 1);
    assert(1 <= le <= 3);
    assert(t.subrange(0, lp) =~= p);
    assert(t[lp] == Token::<'a>::Keyword(Keyword::From));
    assert forall|k: int| 0 <= k < le implies t[lp + 1 + k] == et[k] by {
        assert(t[lp + 1 + k] == (p + seq![Token::Keyword(Keyword::From)] + et)[lp + 1 + k]);
    }
    if wildcard {
        assert(sym_at(t, 0, Symbol::SymStar));
    } else {
        assert(t[0] == p[0]);
        assert(!sym_at(t, 0, Symbol::SymStar));
        lemma_fields_loop_tokens(t, 0, fs, Seq::empty());
    }
    let i3 = lp + 1 + le;
    assert(i3 < t.len() ==> t[i3] == Token::<'a>::Keyword(Keyword::Where)) by {
        if i3 < t.len() {
            assert(t[i3] == tail[0]);
        }
    }
    assert(entity_at(t, lp + 1) == Some((e, le)));
}

/// A `where` must be followed by at least one comparison: after `*` or a field list,
/// `from` and an entity, a `where` followed by nothing, or by tokens that do not start
/// with a comparison, is refused; and whatever follows the `where`, a statement that is
/// read has at least one comparison.
pub proof fn lemma_select_where_needs_comparison<'a>(
    wildcard: bool,
    fs: Seq<&'a [u8]>,
    e: Entity<'a>,
    rest: Seq<Token<'a>>,
)
    requires
        wildcard ==> fs.len() == 0,
        !wildcard ==> fs.len() > 0,
    ensures
        ({
            let t = select_tokens(wildcard, fs, e, Seq::empty()) + seq![Token::Keyword(Keyword::Where)] + rest;
            &&& (rest.len() == 0 || rel_at(rest, 0) is None) ==> select_parse(t, 0, true).1 is Err
            &&& select_parse(t, 0, true).1 matches Ok(st) ==> st.clause.len() > 0
        }),
{
    let h = select_tokens(wildcard, fs, e, Seq::empty());
    let tail = seq![Token::Keyword(Keyword::Where)] + rest;
    let t = h + tail;
    assert(t =~= h + seq![Token::Keyword(Keyword::Where)] + rest);
    assert(tail[0] == Token::<'a>::Keyword(Keyword::Where));
    lemma_select_head(wildcard, fs, e, tail);
    let i3 = h.len() as int;
    assert(t[i3] == Token::<'a>::Keyword(Keyword::Where));
    assert(rounded(t.len() as int, i3) == i3);
    assert(kw_at(t, rounded(t.len() as int, i3), Keyword::Where));
    let j = i3 + 1;
    assert(t.len() == j + rest.len());
    assert forall|k: int| 0 <= k < rest.len() implies #[trigger] t[j + k] == rest[k] by {
        assert(t[j + k] == tail[1 + k]);
    }
    if rest.len() > 0 && rel_at(rest, 0) is None {
        assert(t[j] == rest[0]);
        if rest.len() > 1 {
            assert(t[j + 1] == rest[1]);
        }
        if rest.len() > 2 {
            assert(t[j + 2] == rest[2]);
        }
        if rest.len() > 3 {
            assert(t[j + 3] == rest[3]);
        }
        assert(rel_at(t, j) is None);
    }
}

/// Every well-formed `select` statement is read whole into its parts: the tokens of `*` or
/// of a non-empty field list, then `from`, an entity, and optionally `where` with
/// comparisons on distinct columns joined by `and`, are read to their end into exactly that
/// wildcard flag, those fields, that entity and those comparisons.
pub proof fn lemma_select_grammar<'a>(
    wildcard: bool,
    fs: Seq<&'a [u8]>,
    e: Entity<'a>,
    cs: Seq<RelationalExpr<'a>>,
)
    requires
        wildcard ==> fs.len() == 0,
        !wildcard ==> fs.len() > 0,
        forall|k: int| 0 <= k < cs.len() ==> 1 <= #[trigger] cs[k].opc <= 6,
        columns_distinct(cs),
    ensures
        ({
            let t = select_tokens(wildcard, fs, e, cs);
            select_parse(t, 0, true) == (
                t.len() as int,
                Ok::<SelectV<'a>, LangError>(SelectV { entity: e, fields: fs, wildcard, clause: cs }),
            )
        }),
{
    let t = select_tokens(wildcard, fs, e, cs);
    let wt: Seq<Token<'a>> = if cs.len() == 0 {
        Seq::empty()
    } else {
        seq![Token::Keyword(Keyword::Where)] + where_tokens(cs)
    };
    assert(t =~= select_tokens(wildcard, fs, e, Seq::empty()) + wt);
    lemma_select_head(wildcard, fs, e, wt);
    let lp = if wildcard { 1 } else { field_tokens(fs).len() as int };
    let le = entity_tokens(e).len() as int;
    let i2 = lp + 1;
    let i3 = i2 + le;
    assert(i3 < t.len() ==> t[i3] == Token::<'a>::Keyword(Keyword::Where)) by {
        if i3 < t.len() {
            assert(cs.len() > 0);
            assert(t[i3] == wt[0]);
        }
    }
    assert(le >= 1);
    assert(cs.len() == 0 ==> t[i3 - 1] == entity_tokens(e)[le - 1]) by {
        if cs.len() == 0 {
            assert(t =~= select_tokens(wildcard, fs, e, Seq::empty()));
        }
    }
    if !wildcard {
        assert(Seq::<&'a [u8]>::empty() + fs =~= fs);
    }
    // the where clause
    if cs.len() == 0 {
        assert(t.len() == i3);
        assert(rounded(t.len() as int, i3) == i3 - 1);
        assert(!kw_at(t, rounded(t.len() as int, i3), Keyword::Where));
    } else {
        let w = where_tokens(cs);
        assert(t.len() == i3 + 1 + w.len());
        assert(rounded(t.len() as int, i3) == i3);
        assert(kw_at(t, i3, Keyword::Where));
        assert(t.subrange(i3 + 1, t.len() as int) =~= w) by {
            assert forall|k: int| 0 <= k < w.len() implies t.subrange(i3 + 1, t.len() as int)[k] == w[k] by {
                assert(t[i3 + 1 + k] == wt[1 + k]);
            }
        }
        assert(Seq::<RelationalExpr<'a>>::empty() + cs =~= cs);
        lemma_where_loop_tokens(t, i3 + 1, cs, Seq::empty());
    }
}

impl<'a> SelectStatement<'a> {
    /// A statement of its parts (for tests).
    pub fn new_test(
        entity: Entity<'a>,
        fields: Vec<&'a [u8]>,
        wildcard: bool,
        clauses: WhereClauseCollection<'a>,
    ) -> (r: SelectStatement<'a>)
        ensures
            r@ == (SelectV { entity, fields: fields@, wildcard, clause: clauses@ }),
    {
        Self::new(entity, fields, wildcard, clauses)
    }

    fn new(
        entity: Entity<'a>,
        fields: Vec<&'a [u8]>,
        wildcard: bool,
        clauses: WhereClauseCollection<'a>,
    ) -> (r: SelectStatement<'a>)
        ensures
            r@ == (SelectV { entity, fields: fields@, wildcard, clause: clauses@ }),
    {
        SelectStatement { entity, fields, wildcard, clause: WhereClause::new(clauses) }
    }

    /// Reads a `select` statement (its keyword already consumed) at the cursor.
    pub fn parse_select(state: &mut State<'a>) -> (r: Result<Self, LangError>)
        requires
            old(state).wf(),
        ensures
            final(state).wf(),
            final(state).tokens() == old(state).tokens(),
            final(state).pos() == select_parse(old(state).tokens(), old(state).pos(), old(state).ok()).0,
            match select_parse(old(state).tokens(), old(state).pos(), old(state).ok()).1 {
                Ok(s) => r matches Ok(x) && x@ == s && columns_distinct(s.clause),
                Err(e) => r == Err::<Self, LangError>(e),
            },
    {
        let ghost t = state.tokens();
        let ghost p = state.pos();
        let ghost f0 = state.ok();
        if state.remaining() < 3 {
            return Err(LangError::UnexpectedEndofStatement);
        }
        let mut select_fields: Vec<&'a [u8]> = Vec::new();
        let is_wildcard = state.cursor_eq_symbol(Symbol::SymStar);
        state.cursor_ahead_if(is_wildcard);
        let ghost i0 = state.pos();
        let ghost goal = if is_wildcard {
            (i0, f0, Seq::<&'a [u8]>::empty())
        } else {
            fields_loop(t, i0, f0, Seq::empty())
        };
        let mut go = true;
        while go && state.not_exhausted() && state.okay() && !is_wildcard
            invariant
                state.wf(),
                state.tokens() == t,
                t.len() >= 3,
                is_wildcard ==> (state.pos(), state.ok(), select_fields@) == goal,
                !is_wildcard ==> fields_loop(t, state.pos(), state.ok(), select_fields@) == goal,
                !go ==> state.pos() < t.len() && !(t[state.pos()] is Ident),
                state.pos() > i0 ==> ident_at(t, state.pos() - 1) || ident_at(t, state.pos() - 2),
                state.pos() >= i0,
            decreases t.len() - state.pos(), if go { 1int } else { 0int },
        {
            match state.read() {
                Token::Ident(id) => {
                    select_fields.push(*id);
                    state.cursor_ahead();
                    let nx_comma = state.cursor_rounded_eq_symbol(Symbol::SymComma);
                    let nx_from = state.cursor_rounded_eq_keyword(Keyword::From);
                    state.poison_if_not(nx_comma || nx_from);
                    state.cursor_ahead_if(nx_comma);
                },
                _ => {
                    go = false;
                },
            }
        }
        state.poison_if_not(is_wildcard || select_fields.len() > 0);
        if state.remaining() < 2 || !state.okay() {
            return Err(LangError::UnexpectedEndofStatement);
        }
        let is_from = state.cursor_eq_keyword(Keyword::From);
        state.poison_if_not(is_from);
        state.cursor_ahead();
        let entity = attempt_process_entity(state);
        let mut clauses = WhereClauseCollection::new();
        if state.cursor_rounded_eq_keyword(Keyword::Where) {
            state.cursor_ahead();
            WhereClause::parse_where_and_append_to(state, &mut clauses);
            let none = clauses.is_empty();
            state.poison_if(none);
        }
        if state.okay() {
            match entity {
                Some(e) => Ok(SelectStatement::new(e, select_fields, is_wildcard, clauses)),
                None => Err(LangError::UnexpectedToken),
            }
        } else {
            Err(LangError::UnexpectedToken)
        }
    }
}

/// Reads a whole token stream as a `select` statement; the stream must be read to its end.
pub fn parse_select_full<'a>(tok: &'a [Token<'a>]) -> (r: Option<SelectStatement<'a>>)
    requires
        select_parse(tok@, 0, true).0 == tok@.len(),
    ensures
        match select_parse(tok@, 0, true).1 {
            Ok(s) => r matches Some(x) && x@ == s,
            Err(_) => r is None,
        },
{
    let mut state = State::new(tok);
    let r = SelectStatement::parse_select(&mut state);
    match r {
        Ok(s) => Some(s),
        Err(_) => None,
    }
}

} // verus!
