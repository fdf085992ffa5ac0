use halberd::lexer::{lexer, Keyword, Number, NumberValue, Spanned, Token};
use halberd::types::{
    bool_type, matrix, number, type_eq, vector, Float, Integer, Matrix, NumberKind, Vector,
};

fn lex(s: &str) -> Vec<Spanned<Token>> {
    lexer(s).expect("input should lex")
}

fn single(s: &str) -> Token {
    let mut toks = lex(s);
    assert_eq!(toks.len(), 1, "expected one token for {s:?}");
    toks.pop().unwrap().inner
}

fn single_type(s: &str) -> halberd::types::Type {
    match single(s) {
        Token::Type(t) => t,
        other => panic!("expected a type token, got {other:?}"),
    }
}

fn single_number(s: &str) -> Number {
    match single(s) {
        Token::Number(n) => n,
        other => panic!("expected a number token, got {other:?}"),
    }
}

fn int_digits(n: &Number) -> (u32, Vec<u32>) {
    match &n.value {
        NumberValue::Int(d) => (d.radix, d.digits.clone()),
        other => panic!("expected a whole number, got {other:?}"),
    }
}

fn float_digits(n: &Number) -> ((u32, Vec<u32>), (u32, Vec<u32>)) {
    match &n.value {
        NumberValue::Float { whole, frac } => ((whole.radix, whole.digits.clone()), (frac.radix, frac.digits.clone())),
        other => panic!("expected a fractional number, got {other:?}"),
    }
}

#[test]
fn just_a_comment() {
    assert!(lex("$. hello world").is_empty());
}

#[test]
fn comment_after() {
    let toks = lex("a$. hello world");
    assert_eq!(toks.len(), 1);
    assert!(matches!(&toks[0].inner, Token::Ident(s) if s == "a"));
}

#[test]
fn comment_prev_line() {
    let toks = lex("$. hello world\na");
    assert_eq!(toks.len(), 1);
    assert!(matches!(&toks[0].inner, Token::Ident(s) if s == "a"));
}

#[test]
fn multiple_tokens_top_level() {
    let toks = lex("if if");
    assert_eq!(toks.len(), 2);
    assert!(matches!(toks[0].inner, Token::Keyword(Keyword::If)));
    assert!(matches!(toks[1].inner, Token::Keyword(Keyword::If)));
    assert_eq!((toks[0].span.start, toks[0].span.end), (0, 2));
    assert_eq!((toks[1].span.start, toks[1].span.end), (3, 5));
}

#[test]
fn multiple_tokens_tt() {
    match single("(if if)") {
        Token::Parens(inner) => {
            assert_eq!(inner.len(), 2);
            assert!(matches!(inner[0].inner, Token::Keyword(Keyword::If)));
        },
        other => panic!("got {other:?}"),
    }
}

#[test]
fn empty_tt() {
    assert!(matches!(single("()"), Token::Parens(v) if v.is_empty()));
}

#[test]
fn empty_tt_ws() {
    assert!(matches!(single("( )"), Token::Parens(v) if v.is_empty()));
}

#[test]
fn braces_group() {
    assert!(matches!(single("{ a }"), Token::Braces(v) if v.len() == 1));
}

#[test]
fn type_u32() {
    assert!(type_eq(&single_type("u32"), &number(NumberKind::Integer(Integer::Unsigned(32)))));
}

#[test]
fn type_r64() {
    assert!(type_eq(&single_type("r64"), &number(NumberKind::Float(Float { width: 64 }))));
}

#[test]
fn type_vec() {
    let expected = vector(Vector { component_type: NumberKind::Integer(Integer::Signed(32)), component_count: 99 });
    assert!(type_eq(&single_type("i32v99"), &expected));
}

#[test]
fn type_mat() {
    let expected = matrix(Matrix {
        column_type: Vector { component_type: NumberKind::Float(Float { width: 32 }), component_count: 12 },
        column_count: 34,
    });
    assert!(type_eq(&single_type("r32m12x34"), &expected));
    assert!(!type_eq(&single_type("r32m12x34"), &bool_type()));
}

#[test]
fn ident_with_type_prefix() {
    assert!(matches!(single("i32foo"), Token::Ident(s) if s == "i32foo"));
}

#[test]
fn ident_with_type_suffix() {
    assert!(matches!(single("fooi32"), Token::Ident(_)));
}

#[test]
fn ident_with_kwd_prefix() {
    assert!(matches!(single("iffoo"), Token::Ident(_)));
}

#[test]
fn ident_with_kwd_suffix() {
    assert!(matches!(single("fooif"), Token::Ident(_)));
}

#[test]
fn dollar_ident_and_keywords() {
    let toks = lex("$fn let true false");
    assert!(matches!(&toks[0].inner, Token::DollarIdent(s) if s == "fn"));
    assert!(matches!(toks[1].inner, Token::Keyword(Keyword::Let)));
    assert!(matches!(toks[2].inner, Token::Keyword(Keyword::True)));
    assert!(matches!(toks[3].inner, Token::Keyword(Keyword::False)));
}

#[test]
fn operators_with_lifts() {
    let toks = lex("+ *. *>< *@^^ /");
    assert_eq!(toks.len(), 5);
    assert!(matches!(toks[3].inner, Token::Op { lifts: 2, .. }));
}

#[test]
fn unmatched_paren_open() {
    assert!(lexer("(").is_err());
}

#[test]
fn unmatched_paren_close() {
    assert!(lexer(")").is_err());
}

#[test]
fn lex_error_position() {
    let err = lexer("a ?").unwrap_err();
    assert_eq!(err.position, 2);
}

#[test]
fn number_simple() {
    let n = single_number("1");
    assert_eq!(int_digits(&n), (10, vec![1]));
    assert!(n.kind.is_none());
}

#[test]
fn number_float() {
    let n = single_number("1.2");
    assert_eq!(float_digits(&n), ((10, vec![1]), (10, vec![2])));
    assert!(n.kind.is_none());
}

#[test]
fn number_kindsuffix_uint() {
    let n = single_number("1u32");
    assert_eq!(int_digits(&n), (10, vec![1]));
    assert_eq!(n.kind, Some(NumberKind::Integer(Integer::Unsigned(32))));
}

#[test]
fn number_kindsuffix_int() {
    let n = single_number("1i32");
    assert_eq!(n.kind, Some(NumberKind::Integer(Integer::Signed(32))));
}

#[test]
fn number_kindsuffix_float() {
    let n = single_number("1r32");
    assert_eq!(int_digits(&n), (10, vec![1]));
    assert_eq!(n.kind, Some(NumberKind::Float(Float { width: 32 })));
}

#[test]
fn number_float_with_type() {
    let n = single_number("1.2r32");
    assert_eq!(float_digits(&n), ((10, vec![1]), (10, vec![2])));
    assert_eq!(n.kind, Some(NumberKind::Float(Float { width: 32 })));
}

#[test]
fn number_underscores() {
    let n = single_number("1_2_3__4____5");
    assert_eq!(int_digits(&n), (10, vec![1, 2, 3, 4, 5]));
}

#[test]
fn number_radix_simple() {
    let n = single_number("16xdead_beef");
    assert_eq!(int_digits(&n), (16, vec![13, 14, 10, 13, 11, 14, 14, 15]));
}

#[test]
fn number_radix_uniform() {
    let n = single_number("16xdead.beef");
    assert_eq!(float_digits(&n), ((16, vec![13, 14, 10, 13]), (16, vec![11, 14, 14, 15])));
}

#[test]
fn number_radix_different() {
    let n = single_number("16xdead.10x1234");
    assert_eq!(float_digits(&n), ((16, vec![13, 14, 10, 13]), (10, vec![1, 2, 3, 4])));
}

#[test]
fn number_radix_different_implicitfirst() {
    let n = single_number("1234.16xbeef");
    assert_eq!(float_digits(&n), ((10, vec![1, 2, 3, 4]), (16, vec![11, 14, 14, 15])));
}

#[test]
fn number_radix_out_of_range() {
    assert!(lexer("17x1").is_err());
}

#[test]
fn spans_count_bytes() {
    let toks = lex("é + (ab)");
    let spans: Vec<(usize, usize)> = toks.iter().map(|t| (t.span.start, t.span.end)).collect();
    assert_eq!(spans, vec![(0, 2), (3, 4), (5, 9)]);
    match &toks[2].inner {
        Token::Parens(inner) => assert_eq!((inner[0].span.start, inner[0].span.end), (6, 8)),
        other => panic!("expected a group, got {other:?}"),
    }
}

#[test]
fn lex_error_position_counts_bytes() {
    let err = lexer("é ?").expect_err("? starts no token");
    assert_eq!(err.position, 3);
}
