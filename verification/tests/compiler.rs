use halberd::compiler::{compile, foobar};
use halberd::genplan::can_generate;
use halberd::lexer::lexer;
use halberd::parser;
use halberd::types::{number, type_eq, Integer, NumberKind};

fn parsed(src: &str) -> halberd::ast::File {
    let tokens = lexer(src).expect("input should lex successfully");
    parser::file(&tokens).expect("input should parse successfully")
}

fn u32_type() -> halberd::types::Type {
    number(NumberKind::Integer(Integer::Unsigned(32)))
}

#[test]
fn compile_constant_function() {
    let (f, _u) = compile(parsed("$fn foo(): u32 = (1u32)")).ok().expect("should compile");
    let body = &f.functions[0].1[0].data.body;
    assert!(type_eq(body.sidecar.ty.as_ref().unwrap(), &u32_type()));
    assert!(body.sidecar.scope.is_some());
    assert!(f.functions[0].1[0].sidecar.is_some());
}

#[test]
fn compile_addition_of_literals() {
    let (f, _u) = compile(parsed("$fn foo(): u32 = (1u32 + 2u32)")).ok().expect("should compile");
    let body = &f.functions[0].1[0].data.body;
    assert!(type_eq(body.sidecar.ty.as_ref().unwrap(), &u32_type()));
}

#[test]
fn compile_block_with_final_expression() {
    let (f, _u) = compile(parsed("$fn foo(): u32 = ({ ; 1u32 })")).ok().expect("should compile");
    let body = &f.functions[0].1[0].data.body;
    assert!(type_eq(body.sidecar.ty.as_ref().unwrap(), &u32_type()));
}

#[test]
fn compile_declaration_then_use() {
    let (f, _u) = compile(parsed("$fn foo(): u32 = ({ let x = 1u32; x + x; })")).ok().expect("should compile");
    assert!(f.functions[0].1[0].data.body.sidecar.ty.is_some());
}

#[test]
fn compile_reports_unknown_variable() {
    let errs = compile(parsed("$fn foo(): u32 = (y)")).err().expect("should fail");
    assert_eq!(errs.len(), 1);
    assert_eq!(errs[0].code, 3);
    assert_eq!((errs[0].span.start, errs[0].span.end), (18, 19));
}

#[test]
fn compile_reports_mismatched_operands() {
    let errs = compile(parsed("$fn foo(): u32 = (1u32 + 1i32)")).err().expect("should fail");
    assert!(!errs.is_empty());
    assert!(errs.iter().all(|e| e.code == 3));
}

#[test]
fn foobar_generates_one_function() {
    let (f, u) = compile(parsed("$fn foo(): u32 = (1u32 * 2u32 + 3u32)")).ok().expect("should compile");
    let m = foobar(f, u);
    assert_eq!(m.functions.len(), 1);
    assert_eq!(m.type_map.len(), 1);
    assert!(type_eq(&m.type_map[0].0, &u32_type()));
    assert_eq!(m.constant_map.len(), 3);
}

#[test]
fn foobar_terminal_op_needs_no_type() {
    let (f, u) = compile(parsed("$fn foo(): u32 = (1u32 + 2u32)")).ok().expect("should compile");
    let m = foobar(f, u);
    assert_eq!(m.functions.len(), 1);
    assert!(m.type_map.is_empty());
}

#[test]
fn can_generate_arithmetic() {
    let (f, u) = compile(parsed("$fn foo(): u32 = (1u32 * 2u32 + 3u32)")).ok().expect("should compile");
    assert!(can_generate(&f, &u));
}

#[test]
fn can_generate_refuses_division() {
    let (f, u) = compile(parsed("$fn foo(): r32 = (1.0r32 / 2.0r32)")).ok().expect("should compile");
    assert!(!can_generate(&f, &u));
}

#[test]
fn can_generate_declaration_and_use() {
    let (f, u) = compile(parsed("$fn foo(): u32 = ({ let x = 1u32; x + x; })")).ok().expect("should compile");
    assert!(can_generate(&f, &u));
    let m = foobar(f, u);
    assert_eq!(m.functions.len(), 1);
}

#[test]
fn can_generate_arguments() {
    let (f, u) = compile(parsed("$fn foo(a: u32): u32 = ({ ; a })")).ok().expect("should compile");
    assert!(can_generate(&f, &u));
}

#[test]
fn arguments_visible_in_function_scope() {
    let (f, u) = compile(parsed("$fn foo(a: u32, b: r32): u32 = (a)")).ok().expect("should compile");
    let func = &f.functions[0].1[0];
    let s = func.sidecar.expect("a function gets a scope");
    assert!(u.scope_lookup(s, "a").is_some());
    assert!(u.scope_lookup(s, "b").is_some());
    assert!(u.scope_lookup(u.root_scope_id(), "a").is_none());
}

#[test]
fn typing_keeps_spans_and_names() {
    let src = "$fn foo(): u32 = (1u32 + 2u32)";
    let before = parsed(src);
    let span_before = before.functions[0].1[0].data.body.span();
    let (after, _u) = compile(before).ok().expect("should compile");
    assert_eq!(after.functions[0].0, "foo");
    assert_eq!(after.functions[0].1[0].data.body.span(), span_before);
}

#[test]
fn inference_runs_until_a_pass_infers_nothing() {
    let src = "$fn foo(): u32 = ({ let x = 1u32; let y = x + x; let z = y * y; z - x; })";
    let (f, _u) = compile(parsed(src)).ok().expect("a chain of declarations is typed pass after pass");
    assert!(f.functions[0].1[0].data.body.sidecar.ty.is_some());
}

#[test]
fn constants_of_equal_value_are_declared_once() {
    let (f, u) = compile(parsed("$fn foo(): u32 = (255u32 + 16xffu32 * 0255u32)")).ok().expect("should compile");
    assert!(can_generate(&f, &u));
    let m = foobar(f, u);
    assert_eq!(m.constant_map.len(), 1);
}

#[test]
fn fractional_constants_of_equal_value_are_declared_once() {
    let (f, u) = compile(parsed("$fn foo(): r32 = (1r32 + 1.0r32 + 1.5r32 + 2x1.1r32)")).ok().expect("should compile");
    assert!(can_generate(&f, &u));
    let m = foobar(f, u);
    assert_eq!(m.constant_map.len(), 2);
}
