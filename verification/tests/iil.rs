use halberd::block::{BlockId, BlockLocal, Ctx};
use halberd::iil::{Constant, OpExprUntyped, OpVoid};
use halberd::iilgen::{constants_to_asm, types_to_asm};
use halberd::lexer::{lexer, Digits, Token};
use halberd::types::{type_eq, Integer, Type};

fn types_of(src: &str) -> Vec<Type> {
    lexer(src)
        .expect("types should lex")
        .into_iter()
        .map(|t| match t.inner {
            Token::Type(t) => t,
            other => panic!("not a type: {other:?}"),
        })
        .collect()
}

fn check_types_to_asm(src: &str, expected_count: usize) {
    let types = types_of(src);
    let mut ctx = Ctx::new();
    let (block, map) = types_to_asm(types.iter().map(halberd::types::type_copy).collect(), &mut ctx);
    assert_eq!(block.id, BlockId(0));
    assert_eq!(ctx.next_id, 1);
    assert_eq!(map.len(), expected_count);
    assert_eq!(block.locals.len(), expected_count);
    for t in &types {
        assert!(map.iter().any(|(m, _)| type_eq(m, t)), "missing {t:?}");
    }
    for (k, (_, r)) in map.iter().enumerate() {
        assert_eq!(r.block, block.id);
        assert_eq!(r.local, k);
    }
}

#[test]
fn test_types_to_asm_scalar() {
    check_types_to_asm("u32", 1);
}

#[test]
fn test_types_to_asm_vector() {
    check_types_to_asm("u32v4", 2);
}

#[test]
fn test_types_to_asm_matrix() {
    check_types_to_asm("u32m4x3", 3);
}

#[test]
fn test_types_to_asm_several() {
    check_types_to_asm("u32m4x3 u32m4x4 u32m3x3", 6);
}

#[test]
fn types_to_asm_declares_component_before_vector() {
    let mut ctx = Ctx::new();
    let (block, _map) = types_to_asm(types_of("u32v4"), &mut ctx);
    assert!(matches!(block.locals[0], BlockLocal::Valued(OpExprUntyped::TypeInt { width: 32, signed: false })));
    match &block.locals[1] {
        BlockLocal::Valued(OpExprUntyped::TypeVector { component, count }) => {
            assert_eq!(*count, 4);
            assert_eq!(component.local, 0);
        },
        other => panic!("got {other:?}"),
    }
}

#[test]
fn constants_to_asm_one_local_each() {
    let constants = vec![
        Constant::Int { ty: Integer::Unsigned(32), value: Digits { radix: 10, digits: vec![7] } },
        Constant::Bool { value: true },
    ];
    let mut ctx = Ctx::new();
    let _ = ctx.new_id();
    let (block, map) = constants_to_asm(constants, &mut ctx);
    assert_eq!(block.id, BlockId(1));
    assert_eq!(block.locals.len(), 2);
    assert_eq!(map.len(), 2);
    assert_eq!(map[1].1.local, 1);
}

#[test]
fn block_builder_names_locals_in_order() {
    let mut ctx = Ctx::new();
    assert_eq!(ctx.new_id(), BlockId(0));
    let mut b = ctx.start_block::<OpVoid, u32>();
    b.push_void_local(OpVoid::Nop);
    let r0 = b.push_valued_local(5);
    let r1 = b.push_valued_local(6);
    assert_eq!(r0.block, BlockId(1));
    assert_eq!((r0.local, r1.local), (1, 2));
    let block = b.finish(());
    assert_eq!(block.id(), BlockId(1));
    let (locals, ()) = block.into_parts();
    assert_eq!(locals.len(), 3);
    assert_eq!(ctx.next_id, 2);
}
