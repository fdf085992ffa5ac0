use halberd::block::{BlockId, BlockLocalRef};
use halberd::iil::{BinaryOp, Constant, OpExpr, OpExprUntyped, OpVoid};
use halberd::lexer::Digits;
use halberd::spv;
use halberd::spvgen::{IilOpExpr, IilOpExprUntyped, IilOpVoid};
use halberd::types::{number, Integer, NumberKind, StorageClass, Type};

fn r(local: usize) -> BlockLocalRef {
    BlockLocalRef { block: BlockId(3), local }
}

fn id_of(x: BlockLocalRef) -> u32 {
    x.local as u32 + 100
}

fn type_id(_t: Type) -> u32 {
    9
}

fn int_constant(ty: Integer, radix: u32, digits: Vec<u32>) -> Vec<u32> {
    let op = OpExpr::Constant {
        ret_type: number(NumberKind::Integer(ty)),
        value: Constant::Int { ty, value: Digits { radix, digits } },
    };
    match op.into_spv_expr(id_of, type_id) {
        spv::OpRetTyped::Constant { ret_type, value } => {
            assert_eq!(ret_type, 9);
            value
        },
        other => panic!("got {other:?}"),
    }
}

#[test]
fn store_maps_both_refs() {
    let s = OpVoid::Store { pointer: r(1), object: r(2) }.into_spv_void(id_of);
    assert_eq!(s, spv::OpVoid::Store { pointer: 101, object: 102 });
    assert_eq!(OpVoid::Return.into_spv_void(id_of), spv::OpVoid::Return);
}

#[test]
fn type_function_maps_params() {
    let t = OpExprUntyped::TypeFunction { ret: r(0), params: vec![r(4), r(5)] }.into_spv_retuntyped(id_of);
    match t {
        spv::OpRetUntyped::TypeFunction { return_type, params } => {
            assert_eq!(return_type, 100);
            assert_eq!(params, vec![104, 105]);
        },
        other => panic!("got {other:?}"),
    }
}

#[test]
fn type_pointer_uses_storage_class_number() {
    let t = OpExprUntyped::TypePointer { storage_class: StorageClass::Function, pointee: r(7) }.into_spv_retuntyped(id_of);
    assert!(matches!(t, spv::OpRetUntyped::TypePointer { storage_class: 7, pointee: 107 }));
    let i = OpExprUntyped::TypeInt { width: 32, signed: true }.into_spv_retuntyped(id_of);
    assert!(matches!(i, spv::OpRetUntyped::TypeInt { width: 32, signedness: 1 }));
}

#[test]
fn binary_maps_type_and_operands() {
    let op = OpExpr::Binary { op: BinaryOp::IMul, ret_type: number(NumberKind::Integer(Integer::Unsigned(32))), op0: r(1), op1: r(2) };
    match op.into_spv_expr(id_of, type_id) {
        spv::OpRetTyped::Binary { op, ret_type, op0, op1 } => {
            assert_eq!(op, BinaryOp::IMul);
            assert_eq!((ret_type, op0, op1), (9, 101, 102));
        },
        other => panic!("got {other:?}"),
    }
}

#[test]
fn small_constant_one_word() {
    assert_eq!(int_constant(Integer::Unsigned(32), 10, vec![7]), vec![7]);
}

#[test]
fn wide_constant_padded() {
    assert_eq!(int_constant(Integer::Unsigned(64), 10, vec![5]), vec![5, 0]);
}

#[test]
fn constant_across_words() {
    assert_eq!(int_constant(Integer::Signed(64), 16, vec![1, 0, 0, 0, 0, 0, 0, 0, 0]), vec![0, 1]);
}

#[test]
fn zero_constant_is_zero_words() {
    assert_eq!(int_constant(Integer::Unsigned(32), 10, vec![0]), vec![0]);
}
