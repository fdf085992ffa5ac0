use halberd::ast::{ExprData, File, InfixOp};
use halberd::lexer::lexer;
use halberd::parser::{self, expr_parser, function};
use halberd::types::{number, type_eq, Float, Integer, NumberKind};

fn parse_expr(src: &str) -> Option<halberd::ast::Expr> {
    let tokens = lexer(src).expect("input should lex successfully");
    expr_parser(&tokens)
}

fn parse_file(src: &str) -> Option<File> {
    let tokens = lexer(src).expect("input should lex successfully");
    parser::file(&tokens).ok()
}

#[test]
fn test_expr_parses_int_literal() {
    let e = parse_expr("1u32").expect("input should parse successfully");
    match e.data {
        ExprData::LiteralInt(l) => {
            assert_eq!(l.inner.ty, Integer::Unsigned(32));
            assert_eq!(l.inner.value.digits, vec![1]);
        },
        other => panic!("got {other:?}"),
    }
}

#[test]
fn test_expr_parses_bool_literal_true() {
    let e = parse_expr("true").expect("input should parse successfully");
    assert!(matches!(e.data, ExprData::LiteralBool(b) if b.inner));
}

#[test]
fn test_expr_parses_bool_literal_false() {
    let e = parse_expr("false").expect("input should parse successfully");
    assert!(matches!(e.data, ExprData::LiteralBool(b) if !b.inner));
}

#[test]
fn test_expr_parses_variable_reference() {
    let e = parse_expr("foo").expect("input should parse successfully");
    assert!(matches!(e.data, ExprData::Var(v) if v.inner == "foo"));
}

#[test]
fn untyped_number_is_refused() {
    assert!(parse_expr("1").is_none());
}

#[test]
fn float_literal_with_float_type() {
    let e = parse_expr("1.5r32").expect("should parse");
    assert!(matches!(e.data, ExprData::LiteralFloat(l) if l.inner.ty == Float { width: 32 }));
}

#[test]
fn fraction_with_integer_type_is_refused() {
    assert!(parse_expr("1.5u32").is_none());
}

#[test]
fn multiplication_binds_tighter_than_addition() {
    let e = parse_expr("a * b + c").expect("should parse");
    match e.data {
        ExprData::InfixOp(l, op, r) => {
            assert_eq!(op.inner, InfixOp::Add);
            assert!(matches!(l.data, ExprData::InfixOp(_, o, _) if o.inner == InfixOp::Multiply));
            assert!(matches!(r.data, ExprData::Var(_)));
        },
        other => panic!("got {other:?}"),
    }
}

/// The shape of an expression of literals and operators, written out.
fn shape(e: &halberd::ast::Expr) -> String {
    match &e.data {
        ExprData::LiteralInt(l) => format!("{}", l.inner.value.digits.iter().map(|d| d.to_string()).collect::<String>()),
        ExprData::InfixOp(l, op, r) => format!("({} {:?} {})", shape(l), op.inner, shape(r)),
        other => panic!("unexpected {other:?}"),
    }
}

#[test]
fn products_bind_tighter_than_sums() {
    let e = parse_expr("1u32 + 2u32 * 3u32 + 4u32").expect("should parse");
    assert_eq!(shape(&e), "((1 Add (2 Multiply 3)) Add 4)");
}

#[test]
fn lifted_product_binds_loosest() {
    let e = parse_expr("1u32 + 2u32 *^ 3u32 + 4u32").expect("should parse");
    assert_eq!(shape(&e), "((1 Add 2) Multiply (3 Add 4))");
}

#[test]
fn products_associate_to_the_left() {
    let e = parse_expr("1u32 * 2u32 * 3u32").expect("should parse");
    assert_eq!(shape(&e), "((1 Multiply 2) Multiply 3)");
}

#[test]
fn operators_associate_to_the_left() {
    let e = parse_expr("a - b - c").expect("should parse");
    match e.data {
        ExprData::InfixOp(l, op, r) => {
            assert_eq!(op.inner, InfixOp::Subtract);
            assert!(matches!(l.data, ExprData::InfixOp(_, o, _) if o.inner == InfixOp::Subtract));
            assert!(matches!(r.data, ExprData::Var(v) if v.inner == "c"));
        },
        other => panic!("got {other:?}"),
    }
}

#[test]
fn lifted_operator_binds_loosest() {
    let e = parse_expr("a +^ b * c").expect("should parse");
    match e.data {
        ExprData::InfixOp(_, op, r) => {
            assert_eq!(op.inner, InfixOp::Add);
            assert!(matches!(r.data, ExprData::InfixOp(_, o, _) if o.inner == InfixOp::Multiply));
        },
        other => panic!("got {other:?}"),
    }
}

#[test]
fn declaration_parses() {
    let e = parse_expr("let x = 1u32").expect("should parse");
    assert!(matches!(e.data, ExprData::Declaration { name, .. } if name.inner == "x"));
}

#[test]
fn function_parses_without_args() {
    let tokens = lexer("$fn foo(): u32 = (1u32)").expect("input should lex successfully");
    let f = function(&tokens).expect("input should parse successfully");
    assert_eq!(f.data.name.inner, "foo");
    assert!(f.data.args.is_empty());
    assert!(type_eq(&f.data.return_type.inner, &number(NumberKind::Integer(Integer::Unsigned(32)))));
}

#[test]
fn function_parses_with_args() {
    let tokens = lexer("$fn foo(x: u32, y: i32, z: r32): u32 = (1u32)").expect("input should lex successfully");
    let f = function(&tokens).expect("input should parse successfully");
    assert_eq!(f.data.args.len(), 3);
    assert_eq!(f.data.args[1].name.inner, "y");
    assert!(type_eq(&f.data.args[2].ty.inner, &number(NumberKind::Float(Float { width: 32 }))));
}

#[test]
fn function_needs_its_keyword() {
    let tokens = lexer("$func foo(): u32 = (1u32)").expect("lexes");
    assert!(function(&tokens).is_none());
}

#[test]
fn file_groups_functions_by_name() {
    let f = parse_file("$fn a(): u32 = (1u32) $fn b(): u32 = (2u32) $fn a(x: u32): u32 = (x)").expect("should parse");
    assert_eq!(f.functions.len(), 2);
    assert_eq!(f.functions[0].0, "a");
    assert_eq!(f.functions[0].1.len(), 2);
    assert_eq!(f.functions[1].0, "b");
}

#[test]
fn block_with_statements() {
    let e = parse_expr("{ a; b; }").expect("should parse");
    assert!(matches!(e.data, ExprData::Block(b) if b.inner.exprs.len() == 2 && b.inner.last.is_none()));
}

#[test]
fn block_with_final_expression_only() {
    let e = parse_expr("{ ; b }").expect("should parse");
    assert!(matches!(e.data, ExprData::Block(b) if b.inner.exprs.is_empty() && b.inner.last.is_some()));
}

#[test]
fn block_needs_a_semicolon_after_statements() {
    assert!(parse_expr("{ a; b }").is_none());
}

#[test]
fn empty_file_parses() {
    let f = parse_file("").expect("should parse");
    assert!(f.functions.is_empty());
}

#[test]
fn trailing_tokens_are_refused() {
    assert!(parse_file("$fn a(): u32 = (1u32) 1u32").is_none());
}

#[test]
fn file_error_points_at_the_token_where_no_function_starts() {
    let tokens = lexer("$fn a(): u32 = (1u32) 1u32").expect("input should lex successfully");
    let err = parser::file(&tokens).expect_err("trailing token should be refused");
    assert_eq!(err.position, tokens.len() - 1);
    let tokens = lexer("1u32 $fn a(): u32 = (1u32)").expect("input should lex successfully");
    assert_eq!(parser::file(&tokens).expect_err("leading token should be refused").position, 0);
}

#[test]
fn sidecar_steps_need_a_scope_and_a_type() {
    let bare = halberd::ast::ExprSidecar { scope: None, ty: None };
    assert!(bare.try_with_scope_definitely().is_none());
    let bare = halberd::ast::ExprSidecar { scope: None, ty: None };
    assert!(bare.try_with_type_definitely().is_none());
    let typed = halberd::ast::ExprSidecar { scope: None, ty: Some(halberd::types::bool_type()) };
    assert!(typed.try_with_type_definitely().is_some());
}
