use halberd::iil::BinaryOp;
use halberd::spv::{Instruction, InstructionRetTyped, LiteralString, OpRetTyped, OpRetUntyped, OpVoid};

#[test]
fn void_instruction_header() {
    let mut out = Vec::new();
    OpVoid::Store { pointer: 5, object: 6 }.write_instruction(&mut out);
    assert_eq!(out, vec![(3 << 16) | 62, 5, 6]);
}

#[test]
fn void_instruction_without_operands() {
    let mut out = vec![99];
    OpVoid::Return.write_instruction(&mut out);
    assert_eq!(out, vec![99, (1 << 16) | 253]);
    assert_eq!(OpVoid::FunctionEnd.opcode(), 56);
    assert_eq!(OpVoid::MemoryModel { addressing: 0, memory: 1 }.tell_operands(), 2);
}

#[test]
fn untyped_instruction_writes_result_id() {
    let mut out = Vec::new();
    OpRetUntyped::TypeInt { width: 32, signedness: 0 }.write_instruction(&mut out, 7);
    assert_eq!(out, vec![(4 << 16) | 21, 7, 32, 0]);
}

#[test]
fn function_type_lists_params() {
    let mut out = Vec::new();
    OpRetUntyped::TypeFunction { return_type: 1, params: vec![2, 3] }.write_instruction(&mut out, 9);
    assert_eq!(out, vec![(5 << 16) | 33, 9, 1, 2, 3]);
}

#[test]
fn typed_instruction_writes_type_then_id() {
    let mut out = Vec::new();
    let op = OpRetTyped::Binary { op: BinaryOp::IAdd, ret_type: 4, op0: 10, op1: 11 };
    assert_eq!(op.ret_type(), 4);
    op.write_instruction(&mut out, 12);
    assert_eq!(out, vec![(5 << 16) | 128, 4, 12, 10, 11]);
}

#[test]
fn constant_instruction_words() {
    let mut out = Vec::new();
    OpRetTyped::Constant { ret_type: 2, value: vec![0xdead_beef] }.write_instruction(&mut out, 3);
    assert_eq!(out, vec![(4 << 16) | 43, 2, 3, 0xdead_beef]);
}

#[test]
fn literal_string_short() {
    let s = LiteralString { value: "abc".to_string() };
    let mut out = Vec::new();
    s.write_spv_to(&mut out);
    assert_eq!(out, vec![0x0063_6261]);
    assert_eq!(s.tell_spv_wordcount(), 1);
}

#[test]
fn literal_string_whole_words_get_a_nul_word() {
    let s = LiteralString { value: "abcd".to_string() };
    let mut out = Vec::new();
    s.write_spv_to(&mut out);
    assert_eq!(out, vec![0x6463_6261, 0]);
    assert_eq!(s.tell_spv_wordcount(), 2);
}

#[test]
fn literal_string_empty() {
    let s = LiteralString { value: String::new() };
    let mut out = Vec::new();
    s.write_spv_to(&mut out);
    assert_eq!(out, vec![0]);
    assert_eq!(s.tell_spv_wordcount(), 1);
}

#[test]
fn ext_inst_import_instruction() {
    let mut out = Vec::new();
    let op = OpRetUntyped::ExtInstImport { name: LiteralString { value: "GLSL.std.450".to_string() } };
    op.write_instruction(&mut out, 1);
    assert_eq!(out.len(), 6);
    assert_eq!(out[0], (6 << 16) | 11);
    assert_eq!(out[1], 1);
    assert_eq!(out[2], u32::from_le_bytes(*b"GLSL"));
    assert_eq!(out[5], 0);
}

#[test]
fn literal_string_multibyte() {
    let s = LiteralString { value: "é".to_string() };
    let mut out = Vec::new();
    s.write_spv_to(&mut out);
    assert_eq!(out, vec![0x0000_a9c3]);
}
