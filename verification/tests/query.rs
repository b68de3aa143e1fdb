use skyd::ql::{Entity, Keyword, LangError, Lit, State, Symbol, Token};
use skyd::select::{
    parse_select_full, RelationalExpr, SelectStatement, WhereClauseCollection, OP_EQ, OP_GE, OP_LT, OP_NE,
};

fn id(s: &'static str) -> Token<'static> {
    Token::Ident(s.as_bytes())
}

fn sym(s: Symbol) -> Token<'static> {
    Token::Symbol(s)
}

fn kw(k: Keyword) -> Token<'static> {
    Token::Keyword(k)
}

#[test]
fn select_wildcard_single_entity() {
    let t = [sym(Symbol::SymStar), kw(Keyword::From), id("users")];
    let r = parse_select_full(&t).unwrap();
    let expected = SelectStatement::new_test(Entity::Single(b"users"), vec![], true, WhereClauseCollection::new());
    assert_eq!(r, expected);
}

#[test]
fn select_fields_full_entity() {
    let t = [
        id("name"),
        sym(Symbol::SymComma),
        id("age"),
        kw(Keyword::From),
        id("app"),
        sym(Symbol::SymPeriod),
        id("users"),
    ];
    let r = parse_select_full(&t).unwrap();
    let expected = SelectStatement::new_test(
        Entity::Full(b"app", b"users"),
        vec![b"name".as_slice(), b"age".as_slice()],
        false,
        WhereClauseCollection::new(),
    );
    assert_eq!(r, expected);
}

#[test]
fn select_partial_entity_with_where() {
    let t = [
        id("name"),
        kw(Keyword::From),
        sym(Symbol::SymColon),
        id("users"),
        kw(Keyword::Where),
        id("age"),
        sym(Symbol::OpGt),
        sym(Symbol::OpAssign),
        Token::Lit(Lit::UnsignedInt(18)),
        kw(Keyword::And),
        id("name"),
        sym(Symbol::OpLogicalNot),
        sym(Symbol::OpAssign),
        Token::Lit(Lit::Str(b"root")),
        kw(Keyword::And),
        id("score"),
        sym(Symbol::OpLt),
        Token::Lit(Lit::SignedInt(-1)),
    ];
    let r = parse_select_full(&t).unwrap();
    let mut c = WhereClauseCollection::new();
    assert!(c.insert(RelationalExpr::new(b"age", Lit::UnsignedInt(18), OP_GE)).is_none());
    assert!(c.insert(RelationalExpr::new(b"name", Lit::Str(b"root"), OP_NE)).is_none());
    assert!(c.insert(RelationalExpr::new(b"score", Lit::SignedInt(-1), OP_LT)).is_none());
    let expected = SelectStatement::new_test(Entity::Partial(b"users"), vec![b"name".as_slice()], false, c);
    assert_eq!(r, expected);
}

#[test]
fn select_where_single_equality() {
    let t = [
        sym(Symbol::SymStar),
        kw(Keyword::From),
        id("users"),
        kw(Keyword::Where),
        id("id"),
        sym(Symbol::OpAssign),
        Token::Lit(Lit::UnsignedInt(7)),
    ];
    let r = parse_select_full(&t).unwrap();
    assert!(r.wildcard);
    assert_eq!(r.clause.c.len(), 1);
    assert_eq!(r.clause.c.get(b"id"), Some(&RelationalExpr::new(b"id", Lit::UnsignedInt(7), OP_EQ)));
}

#[test]
fn select_repeated_column_in_where_is_refused() {
    let t = [
        sym(Symbol::SymStar),
        kw(Keyword::From),
        id("users"),
        kw(Keyword::Where),
        id("id"),
        sym(Symbol::OpAssign),
        Token::Lit(Lit::UnsignedInt(7)),
        kw(Keyword::And),
        id("id"),
        sym(Symbol::OpAssign),
        Token::Lit(Lit::UnsignedInt(8)),
    ];
    assert_eq!(parse_select_full(&t), None);
}

#[test]
fn select_too_short_is_end_of_statement() {
    let t = [sym(Symbol::SymStar), kw(Keyword::From)];
    let mut state = State::new(&t);
    assert_eq!(SelectStatement::parse_select(&mut state), Err(LangError::UnexpectedEndofStatement));
    assert_eq!(state.cursor(), 0);
}

#[test]
fn select_missing_separator_is_end_of_statement() {
    let t = [id("a"), id("b"), kw(Keyword::From), id("users")];
    let mut state = State::new(&t);
    assert_eq!(SelectStatement::parse_select(&mut state), Err(LangError::UnexpectedEndofStatement));
}

#[test]
fn select_missing_from_is_unexpected_token() {
    let t = [sym(Symbol::SymStar), id("users"), id("x")];
    let mut state = State::new(&t);
    assert_eq!(SelectStatement::parse_select(&mut state), Err(LangError::UnexpectedToken));
}

#[test]
fn select_bad_entity_is_unexpected_token() {
    let t = [sym(Symbol::SymStar), kw(Keyword::From), Token::Lit(Lit::Bool(true))];
    let mut state = State::new(&t);
    assert_eq!(SelectStatement::parse_select(&mut state), Err(LangError::UnexpectedToken));
}

#[test]
fn select_trailing_comma_before_from_is_accepted() {
    let t = [id("a"), sym(Symbol::SymComma), kw(Keyword::From), id("users")];
    let r = parse_select_full(&t).unwrap();
    assert_eq!(r.fields, vec![b"a".as_slice()]);
}

#[test]
fn select_leaves_cursor_after_statement() {
    let t = [sym(Symbol::SymStar), kw(Keyword::From), id("users"), kw(Keyword::Delete)];
    let mut state = State::new(&t);
    let r = SelectStatement::parse_select(&mut state).unwrap();
    assert_eq!(r.entity, Entity::Single(b"users"));
    assert_eq!(state.cursor(), 3);
    assert!(state.okay());
}
