use halberd::typing::{infer_field_access_type, infer_function_call_type, infer_infix_type, CallTarget};
use halberd::ast::InfixOp;
use halberd::types::{bool_type, matrix, number, type_eq, vector, Float, Integer, Matrix, NumberKind, Type, Vector};

fn r32() -> NumberKind {
    NumberKind::Float(Float { width: 32 })
}

fn u32k() -> NumberKind {
    NumberKind::Integer(Integer::Unsigned(32))
}

fn vec_of(k: NumberKind, n: u32) -> Type {
    vector(Vector { component_type: k, component_count: n })
}

#[test]
fn vector_constructor_counts_components() {
    let t = CallTarget::Type(vec_of(r32(), 4));
    let args = vec![Some(vec_of(r32(), 2)), Some(number(r32())), Some(number(r32()))];
    let r = infer_function_call_type(&t, &args).expect("should type");
    assert!(type_eq(&r, &vec_of(r32(), 4)));
}

#[test]
fn vector_constructor_with_wrong_count_fails() {
    let t = CallTarget::Type(vec_of(r32(), 4));
    let args = vec![Some(number(r32())), Some(number(r32()))];
    assert!(infer_function_call_type(&t, &args).is_none());
}

#[test]
fn call_with_unknown_argument_is_unknown() {
    let t = CallTarget::Ident("sin".to_string());
    assert!(infer_function_call_type(&t, &vec![None]).is_none());
}

#[test]
fn unary_builtin_keeps_type() {
    let t = CallTarget::Ident("fract".to_string());
    let r = infer_function_call_type(&t, &vec![Some(vec_of(r32(), 3))]).unwrap();
    assert!(type_eq(&r, &vec_of(r32(), 3)));
}

#[test]
fn length_gives_component_type() {
    let t = CallTarget::Ident("length".to_string());
    let r = infer_function_call_type(&t, &vec![Some(vec_of(r32(), 3))]).unwrap();
    assert!(type_eq(&r, &number(r32())));
    assert!(infer_function_call_type(&t, &vec![Some(vec_of(u32k(), 3))]).is_none());
}

#[test]
fn pow_needs_equal_arguments() {
    let t = CallTarget::Ident("pow".to_string());
    assert!(infer_function_call_type(&t, &vec![Some(number(r32())), Some(number(r32()))]).is_some());
    assert!(infer_function_call_type(&t, &vec![Some(number(r32())), Some(number(u32k()))]).is_none());
}

#[test]
fn field_access_picks_component() {
    let r = infer_field_access_type(&Some(vec_of(r32(), 4)), "w").unwrap();
    assert!(type_eq(&r, &number(r32())));
    assert!(infer_field_access_type(&Some(vec_of(r32(), 2)), "z").is_none());
    assert!(infer_field_access_type(&Some(vec_of(r32(), 2)), "q").is_none());
    assert!(infer_field_access_type(&None, "x").is_none());
}

#[test]
fn infix_on_equal_numbers() {
    let r = infer_infix_type(InfixOp::Add, &number(u32k()), &number(u32k())).unwrap();
    assert!(type_eq(&r, &number(u32k())));
    assert!(infer_infix_type(InfixOp::Add, &number(u32k()), &bool_type()).is_none());
}

#[test]
fn matrix_type_parts() {
    let m = Matrix { column_type: Vector { component_type: r32(), component_count: 3 }, column_count: 4 };
    assert_eq!(m.row_count(), 3);
    assert_eq!(m.column_count(), 4);
    assert_eq!(m.component_type(), r32());
    let _ = matrix(m);
}
