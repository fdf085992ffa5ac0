//! The binary form of SPIR-V instructions: each instruction is a header word
//! (word count in the high half, opcode in the low half) followed by its
//! operands, one 32-bit word each, or several for a literal string.
use vstd::prelude::*;
use crate::iil::BinaryOp;

verus! {

/// The first word of an instruction.
pub open spec fn header_word(word_count: u16, opcode: u16) -> u32 {
    ((word_count as u32) << 16u32) | (opcode as u32)
}

/// The header keeps both halves: the word count is the high half and the
/// opcode the low half.
pub proof fn lemma_header_word(word_count: u16, opcode: u16)
    ensures
        header_word(word_count, opcode) >> 16u32 == word_count as u32,
        header_word(word_count, opcode) & 0xffffu32 == opcode as u32,
{
    assert(((((word_count as u32) << 16u32) | (opcode as u32)) >> 16u32) == word_count as u32)
        by (bit_vector);
    assert(((((word_count as u32) << 16u32) | (opcode as u32)) & 0xffffu32) == opcode as u32)
        by (bit_vector);
}

fn make_header(word_count: u16, opcode: u16) -> (r: u32)
    ensures
        r == header_word(word_count, opcode),
{
    ((word_count as u32) << 16u32) | (opcode as u32)
}

// ---------------------------------------------------------------------------
// Literal strings.
// ---------------------------------------------------------------------------

/// A literal string operand: UTF-8, nul-terminated, packed four bytes per
/// word, first byte lowest.
#[derive(Debug, Clone)]
pub struct LiteralString {
    pub value: String,
}

/// An extended instruction set's literal integer operand. No instruction
/// this compiler emits carries one.
#[derive(Debug, Clone, Copy)]
pub struct LiteralExtInstInteger;

/// The literal opcode operand of `OpSpecConstantOp`. No instruction this
/// compiler emits carries one.
#[derive(Debug, Clone, Copy)]
pub struct LiteralSpecConstantOpInteger;

/// The byte at `j`, or the nul padding past the end.
pub open spec fn byte_or_nul(bytes: Seq<u8>, j: int) -> u8 {
    if 0 <= j < bytes.len() {
        bytes[j]
    } else {
        0
    }
}

/// Four bytes as one little-endian word.
pub open spec fn le_word(b0: u8, b1: u8, b2: u8, b3: u8) -> u32 {
    (b0 as u32) | ((b1 as u32) << 8u32) | ((b2 as u32) << 16u32) | ((b3 as u32) << 24u32)
}

/// The words of a literal string made of `bytes`: the bytes four per word,
/// then at least one nul, padded with nuls to a whole word.
pub open spec fn string_words(bytes: Seq<u8>) -> Seq<u32> {
    Seq::new(
        (bytes.len() / 4 + 1) as nat,
        |i: int|
            le_word(
                byte_or_nul(bytes, 4 * i),
                byte_or_nul(bytes, 4 * i + 1),
                byte_or_nul(bytes, 4 * i + 2),
                byte_or_nul(bytes, 4 * i + 3),
            ),
    )
}

/// The byte at position `k` (0 to 3) of a word, lowest first.
pub open spec fn word_byte(w: u32, k: int) -> u32 {
    (w >> ((8 * k) as u32)) & 0xffu32
}

proof fn lemma_le_word_bytes(b0: u8, b1: u8, b2: u8, b3: u8)
    ensures
        word_byte(le_word(b0, b1, b2, b3), 0) == b0 as u32,
        word_byte(le_word(b0, b1, b2, b3), 1) == b1 as u32,
        word_byte(le_word(b0, b1, b2, b3), 2) == b2 as u32,
        word_byte(le_word(b0, b1, b2, b3), 3) == b3 as u32,
{
    let w = le_word(b0, b1, b2, b3);
    assert(((((b0 as u32) | ((b1 as u32) << 8u32) | ((b2 as u32) << 16u32) | ((b3 as u32) << 24u32))
        >> 0u32) & 0xffu32) == b0 as u32) by (bit_vector);
    assert(((((b0 as u32) | ((b1 as u32) << 8u32) | ((b2 as u32) << 16u32) | ((b3 as u32) << 24u32))
        >> 8u32) & 0xffu32) == b1 as u32) by (bit_vector);
    assert(((((b0 as u32) | ((b1 as u32) << 8u32) | ((b2 as u32) << 16u32) | ((b3 as u32) << 24u32))
        >> 16u32) & 0xffu32) == b2 as u32) by (bit_vector);
    assert(((((b0 as u32) | ((b1 as u32) << 8u32) | ((b2 as u32) << 16u32) | ((b3 as u32) << 24u32))
        >> 24u32) & 0xffu32) == b3 as u32) by (bit_vector);
    assert((8 * 0int) as u32 == 0u32);
    assert((8 * 1int) as u32 == 8u32);
    assert((8 * 2int) as u32 == 16u32);
    assert((8 * 3int) as u32 == 24u32);
}

/// A literal string reads back: byte `j` of the string is byte `j % 4` of
/// word `j / 4`, and the byte right after the string is its nul terminator.
pub proof fn law_string_words_read_back(bytes: Seq<u8>)
    ensures
        forall|j: int|
            0 <= j < bytes.len() ==> word_byte(#[trigger] string_words(bytes)[j / 4], j % 4)
                == bytes[j] as u32,
        word_byte(string_words(bytes)[bytes.len() as int / 4], bytes.len() as int % 4) == 0,
{
    let ws = string_words(bytes);
    assert forall|j: int| 0 <= j < bytes.len() implies word_byte(#[trigger] ws[j / 4], j % 4)
        == bytes[j] as u32 by {
        let i = j / 4;
        assert(0 <= i < ws.len());
        lemma_le_word_bytes(
            byte_or_nul(bytes, 4 * i),
            byte_or_nul(bytes, 4 * i + 1),
            byte_or_nul(bytes, 4 * i + 2),
            byte_or_nul(bytes, 4 * i + 3),
        );
        assert(j == 4 * i + j % 4);
    }
    let n = bytes.len() as int;
    let i = n / 4;
    lemma_le_word_bytes(
        byte_or_nul(bytes, 4 * i),
        byte_or_nul(bytes, 4 * i + 1),
        byte_or_nul(bytes, 4 * i + 2),
        byte_or_nul(bytes, 4 * i + 3),
    );
    assert(n == 4 * i + n % 4);
}

fn byte_at_or_nul(bytes: &[u8], p: usize, k: usize) -> (r: u8)
    requires
        p <= bytes@.len(),
    ensures
        r == byte_or_nul(bytes@, p + k),
{
    if k < bytes.len() - p {
        bytes[p + k]
    } else {
        0
    }
}

impl LiteralString {
    /// The UTF-8 bytes of the string.
    pub open spec fn bytes(&self) -> Seq<u8> {
        vstd::utf8::encode_utf8(self.value@)
    }

    /// The words this operand is written as.
    pub open spec fn words(&self) -> Seq<u32> {
        string_words(self.bytes())
    }

    /// Appends the string's words to `out`.
    pub fn write_spv_to(&self, out: &mut Vec<u32>)
        ensures
            final(out)@ == old(out)@ + self.words(),
    {
        let bytes = self.value.as_str().as_bytes();
        let len = bytes.len();
        let n = len / 4 + 1;
        let ghost start = out@;
        let mut i: usize = 0;
        while i < n
            invariant
                bytes@ == self.bytes(),
                len == bytes@.len(),
                n == len / 4 + 1,
                i <= n,
                out@ == start + string_words(bytes@).take(i as int),
            decreases n - i,
        {
            assert(4 * i <= len) by (nonlinear_arith)
                requires
                    i < n,
                    n == len / 4 + 1,
            ;
            let p = 4 * i;
            let b0 = byte_at_or_nul(bytes, p, 0);
            let b1 = byte_at_or_nul(bytes, p, 1);
            let b2 = byte_at_or_nul(bytes, p, 2);
            let b3 = byte_at_or_nul(bytes, p, 3);
            let w = (b0 as u32) | ((b1 as u32) << 8u32) | ((b2 as u32) << 16u32) | ((b3 as u32) << 24u32);
            out.push(w);
            proof {
                assert(string_words(bytes@).take(i + 1) == string_words(bytes@).take(i as int).push(w));
            }
            i = i + 1;
        }
        proof {
            assert(string_words(bytes@).take(n as int) == string_words(bytes@));
        }
    }

    /// The number of words [`LiteralString::write_spv_to`] writes, as a
    /// 16-bit count (cut to its low 16 bits past `0xffff`).
    pub fn tell_spv_wordcount(&self) -> (r: u16)
        ensures
            self.words().len() == self.bytes().len() / 4 + 1,
            r == (self.words().len() as u16),
            self.words().len() <= 0xffff ==> r == self.words().len(),
    {
        let bytes = self.value.as_str().as_bytes();
        (bytes.len() / 4 + 1) as u16
    }
}

// ---------------------------------------------------------------------------
// Instructions.
// ---------------------------------------------------------------------------

/// What every instruction has: an opcode and operand words.
pub trait Instruction {
    spec fn opcode_spec(&self) -> u16;

    /// The operand words, result type and result id not included.
    spec fn operands_spec(&self) -> Seq<u32>;

    fn opcode(&self) -> (r: u16)
        ensures
            r == self.opcode_spec(),
    ;

    /// Appends the operand words (result type and result id not included).
    fn write_operands_to(&self, out: &mut Vec<u32>)
        ensures
            final(out)@ == old(out)@ + self.operands_spec(),
    ;

    /// The number of operand words.
    fn tell_operands(&self) -> (r: u16)
        requires
            self.operands_spec().len() <= 0xffff,
        ensures
            r == self.operands_spec().len(),
    ;
}

/// An instruction with a result type.
pub trait InstructionRetTyped: Instruction {
    spec fn ret_type_spec(&self) -> u32;

    fn ret_type(&self) -> (r: u32)
        ensures
            r == self.ret_type_spec(),
    ;
}

/// An instruction without a result.
#[derive(Debug, Clone, Copy, PartialEq, Eq, Structural)]
pub enum OpVoid {
    Nop,
    Store { pointer: u32, object: u32 },
    Return,
    ReturnValue { value: u32 },
    FunctionEnd,
    Capability { capability: u32 },
    MemoryModel { addressing: u32, memory: u32 },
}

/// An instruction with a result id but no result type.
#[derive(Debug, Clone)]
pub enum OpRetUntyped {
    Label,
    ExtInstImport { name: LiteralString },
    TypeVoid,
    TypeBool,
    TypeInt { width: u32, signedness: u32 },
    TypeFloat { width: u32 },
    TypeVector { component_type: u32, component_count: u32 },
    TypeMatrix { column_type: u32, column_count: u32 },
    TypePointer { storage_class: u32, pointee: u32 },
    TypeFunction { return_type: u32, params: Vec<u32> },
}

/// An instruction with a result type and a result id.
#[derive(Debug, Clone)]
pub enum OpRetTyped {
    Binary { op: BinaryOp, ret_type: u32, op0: u32, op1: u32 },
    Variable { ret_type: u32, storage_class: u32 },
    FunctionParameter { ret_type: u32 },
    Constant { ret_type: u32, value: Vec<u32> },
    ConstantTrue { ret_type: u32 },
    ConstantFalse { ret_type: u32 },
    Function { ret_type: u32, control: u32, function_type: u32 },
}

/// The opcode of an arithmetic instruction.
pub open spec fn binary_opcode(op: BinaryOp) -> u16 {
    match op {
        BinaryOp::IAdd => 128,
        BinaryOp::FAdd => 129,
        BinaryOp::ISub => 130,
        BinaryOp::FSub => 131,
        BinaryOp::IMul => 132,
        BinaryOp::FMul => 133,
    }
}

/// The SPIR-V opcode of each arithmetic instruction, as the SPIR-V grammar
/// numbers them (`OpIAdd` 128, `OpFAdd` 129, `OpISub` 130, `OpFSub` 131,
/// `OpIMul` 132, `OpFMul` 133): no two instructions share an opcode, and
/// each one's float form comes right after its integer form.
pub proof fn law_binary_opcodes(a: BinaryOp, b: BinaryOp)
    ensures
        a != b ==> binary_opcode(a) != binary_opcode(b),
        binary_opcode(BinaryOp::IAdd) == 128,
        binary_opcode(BinaryOp::ISub) == 130,
        binary_opcode(BinaryOp::IMul) == 132,
        binary_opcode(BinaryOp::FAdd) == binary_opcode(BinaryOp::IAdd) + 1,
        binary_opcode(BinaryOp::FSub) == binary_opcode(BinaryOp::ISub) + 1,
        binary_opcode(BinaryOp::FMul) == binary_opcode(BinaryOp::IMul) + 1,
{
}

impl Instruction for OpVoid {
    open spec fn opcode_spec(&self) -> u16 {
        match *self {
            OpVoid::Nop => 0,
            OpVoid::Store { .. } => 62,
            OpVoid::Return => 253,
            OpVoid::ReturnValue { .. } => 254,
            OpVoid::FunctionEnd => 56,
            OpVoid::Capability { .. } => 17,
            OpVoid::MemoryModel { .. } => 14,
        }
    }

    open spec fn operands_spec(&self) -> Seq<u32> {
        match *self {
            OpVoid::Store { pointer, object } => seq![pointer, object],
            OpVoid::ReturnValue { value } => seq![value],
            OpVoid::Capability { capability } => seq![capability],
            OpVoid::MemoryModel { addressing, memory } => seq![addressing, memory],
            _ => Seq::empty(),
        }
    }

    fn opcode(&self) -> (r: u16) {
        match self {
            OpVoid::Nop => 0,
            OpVoid::Store { .. } => 62,
            OpVoid::Return => 253,
            OpVoid::ReturnValue { .. } => 254,
            OpVoid::FunctionEnd => 56,
            OpVoid::Capability { .. } => 17,
            OpVoid::MemoryModel { .. } => 14,
        }
    }

    fn write_operands_to(&self, out: &mut Vec<u32>) {
        match self {
            OpVoid::Store { pointer, object } => {
                out.push(*pointer);
                out.push(*object);
            },
            OpVoid::ReturnValue { value } => out.push(*value),
            OpVoid::Capability { capability } => out.push(*capability),
            OpVoid::MemoryModel { addressing, memory } => {
                out.push(*addressing);
                out.push(*memory);
            },
            _ => {},
        }
    }

    fn tell_operands(&self) -> (r: u16) {
        match self {
            OpVoid::Store { .. } => 2,
            OpVoid::ReturnValue { .. } => 1,
            OpVoid::Capability { .. } => 1,
            OpVoid::MemoryModel { .. } => 2,
            _ => 0,
        }
    }
}

/// Every kind of instruction has its own opcode, shared with no other kind
/// of any class, and it is the SPIR-V grammar's number for it (`OpNop` 0,
/// `OpMemoryModel` 14, `OpCapability` 17, `OpFunctionEnd` 56, `OpStore` 62,
/// `OpReturn` 253, `OpReturnValue` 254; `OpExtInstImport` 11, `OpTypeVoid`
/// 19, `OpTypeBool` 20, `OpTypeInt` 21, `OpTypeFloat` 22, `OpTypeVector` 23,
/// `OpTypeMatrix` 24, `OpTypePointer` 32, `OpTypeFunction` 33, `OpLabel`
/// 248; `OpConstantTrue` 41, `OpConstantFalse` 42, `OpConstant` 43,
/// `OpFunction` 54, `OpFunctionParameter` 55, `OpVariable` 59).
pub proof fn law_instruction_opcodes(a: OpVoid, a2: OpVoid, b: OpRetUntyped, b2: OpRetUntyped, c: OpRetTyped, c2: OpRetTyped)
    ensures
        a.opcode_spec() != b.opcode_spec(),
        a.opcode_spec() != c.opcode_spec(),
        b.opcode_spec() != c.opcode_spec(),
        a.opcode_spec() == a2.opcode_spec() ==> (a is Nop <==> a2 is Nop) && (a is Store <==> a2 is Store) && (a is Return
            <==> a2 is Return) && (a is ReturnValue <==> a2 is ReturnValue) && (a is FunctionEnd <==> a2 is FunctionEnd)
            && (a is Capability <==> a2 is Capability) && (a is MemoryModel <==> a2 is MemoryModel),
        b.opcode_spec() == b2.opcode_spec() ==> (b is Label <==> b2 is Label) && (b is ExtInstImport <==> b2 is ExtInstImport)
            && (b is TypeVoid <==> b2 is TypeVoid) && (b is TypeBool <==> b2 is TypeBool) && (b is TypeInt <==> b2 is TypeInt)
            && (b is TypeFloat <==> b2 is TypeFloat) && (b is TypeVector <==> b2 is TypeVector) && (b is TypeMatrix
            <==> b2 is TypeMatrix) && (b is TypePointer <==> b2 is TypePointer) && (b is TypeFunction <==> b2 is TypeFunction),
        c.opcode_spec() == c2.opcode_spec() ==> (c is Variable <==> c2 is Variable) && (c is FunctionParameter
            <==> c2 is FunctionParameter) && (c is Constant <==> c2 is Constant) && (c is ConstantTrue <==> c2 is ConstantTrue)
            && (c is ConstantFalse <==> c2 is ConstantFalse) && (c is Function <==> c2 is Function) && (c is Binary
            <==> c2 is Binary) && (c matches OpRetTyped::Binary { op, .. } ==> c2 matches OpRetTyped::Binary { op: op2, .. }
            && op == op2),
        a.opcode_spec() == match a {
            OpVoid::Nop => 0u16,
            OpVoid::MemoryModel { .. } => 14,
            OpVoid::Capability { .. } => 17,
            OpVoid::FunctionEnd => 56,
            OpVoid::Store { .. } => 62,
            OpVoid::Return => 253,
            OpVoid::ReturnValue { .. } => 254,
        },
        b.opcode_spec() == match b {
            OpRetUntyped::ExtInstImport { .. } => 11u16,
            OpRetUntyped::TypeVoid => 19,
            OpRetUntyped::TypeBool => 20,
            OpRetUntyped::TypeInt { .. } => 21,
            OpRetUntyped::TypeFloat { .. } => 22,
            OpRetUntyped::TypeVector { .. } => 23,
            OpRetUntyped::TypeMatrix { .. } => 24,
            OpRetUntyped::TypePointer { .. } => 32,
            OpRetUntyped::TypeFunction { .. } => 33,
            OpRetUntyped::Label => 248,
        },
        !(c is Binary) ==> c.opcode_spec() == match c {
            OpRetTyped::ConstantTrue { .. } => 41u16,
            OpRetTyped::ConstantFalse { .. } => 42,
            OpRetTyped::Constant { .. } => 43,
            OpRetTyped::Function { .. } => 54,
            OpRetTyped::FunctionParameter { .. } => 55,
            OpRetTyped::Variable { .. } => 59,
            OpRetTyped::Binary { .. } => 0,
        },
{
}

/// Appends `ws` to `out`.
fn push_all(out: &mut Vec<u32>, ws: &Vec<u32>)
    ensures
        final(out)@ == old(out)@ + ws@,
{
    let ghost start = out@;
    let mut i: usize = 0;
    while i < ws.len()
        invariant
            i <= ws@.len(),
            out@ == start + ws@.take(i as int),
        decreases ws@.len() - i,
    {
        out.push(ws[i]);
        proof {
            assert(ws@.take(i + 1) == ws@.take(i as int).push(ws@[i as int]));
        }
        i = i + 1;
    }
    proof {
        assert(ws@.take(ws@.len() as int) == ws@);
    }
}

impl Instruction for OpRetUntyped {
    open spec fn opcode_spec(&self) -> u16 {
        match *self {
            OpRetUntyped::Label => 248,
            OpRetUntyped::ExtInstImport { .. } => 11,
            OpRetUntyped::TypeVoid => 19,
            OpRetUntyped::TypeBool => 20,
            OpRetUntyped::TypeInt { .. } => 21,
            OpRetUntyped::TypeFloat { .. } => 22,
            OpRetUntyped::TypeVector { .. } => 23,
            OpRetUntyped::TypeMatrix { .. } => 24,
            OpRetUntyped::TypePointer { .. } => 32,
            OpRetUntyped::TypeFunction { .. } => 33,
        }
    }

    open spec fn operands_spec(&self) -> Seq<u32> {
        match *self {
            OpRetUntyped::ExtInstImport { name } => name.words(),
            OpRetUntyped::TypeInt { width, signedness } => seq![width, signedness],
            OpRetUntyped::TypeFloat { width } => seq![width],
            OpRetUntyped::TypeVector { component_type, component_count } => seq![
                component_type,
                component_count,
            ],
            OpRetUntyped::TypeMatrix { column_type, column_count } => seq![column_type, column_count],
            OpRetUntyped::TypePointer { storage_class, pointee } => seq![storage_class, pointee],
            OpRetUntyped::TypeFunction { return_type, params } => seq![return_type] + params@,
            _ => Seq::empty(),
        }
    }

    fn opcode(&self) -> (r: u16) {
        match self {
            OpRetUntyped::Label => 248,
            OpRetUntyped::ExtInstImport { .. } => 11,
            OpRetUntyped::TypeVoid => 19,
            OpRetUntyped::TypeBool => 20,
            OpRetUntyped::TypeInt { .. } => 21,
            OpRetUntyped::TypeFloat { .. } => 22,
            OpRetUntyped::TypeVector { .. } => 23,
            OpRetUntyped::TypeMatrix { .. } => 24,
            OpRetUntyped::TypePointer { .. } => 32,
            OpRetUntyped::TypeFunction { .. } => 33,
        }
    }

    fn write_operands_to(&self, out: &mut Vec<u32>) {
        match self {
            OpRetUntyped::ExtInstImport { name } => name.write_spv_to(out),
            OpRetUntyped::TypeInt { width, signedness } => {
                out.push(*width);
                out.push(*signedness);
            },
            OpRetUntyped::TypeFloat { width } => out.push(*width),
            OpRetUntyped::TypeVector { component_type, component_count } => {
                out.push(*component_type);
                out.push(*component_count);
            },
            OpRetUntyped::TypeMatrix { column_type, column_count } => {
                out.push(*column_type);
                out.push(*column_count);
            },
            OpRetUntyped::TypePointer { storage_class, pointee } => {
                out.push(*storage_class);
                out.push(*pointee);
            },
            OpRetUntyped::TypeFunction { return_type, params } => {
                out.push(*return_type);
                push_all(out, params);
            },
            _ => {},
        }
    }

    fn tell_operands(&self) -> (r: u16) {
        match self {
            OpRetUntyped::ExtInstImport { name } => name.tell_spv_wordcount(),
            OpRetUntyped::TypeInt { .. } => 2,
            OpRetUntyped::TypeFloat { .. } => 1,
            OpRetUntyped::TypeVector { .. } => 2,
            OpRetUntyped::TypeMatrix { .. } => 2,
            OpRetUntyped::TypePointer { .. } => 2,
            OpRetUntyped::TypeFunction { params, .. } => (params.len() + 1) as u16,
            _ => 0,
        }
    }
}

impl Instruction for OpRetTyped {
    open spec fn opcode_spec(&self) -> u16 {
        match *self {
            OpRetTyped::Binary { op, .. } => binary_opcode(op),
            OpRetTyped::Variable { .. } => 59,
            OpRetTyped::FunctionParameter { .. } => 55,
            OpRetTyped::Constant { .. } => 43,
            OpRetTyped::ConstantTrue { .. } => 41,
            OpRetTyped::ConstantFalse { .. } => 42,
            OpRetTyped::Function { .. } => 54,
        }
    }

    open spec fn operands_spec(&self) -> Seq<u32> {
        match *self {
            OpRetTyped::Binary { op0, op1, .. } => seq![op0, op1],
            OpRetTyped::Variable { storage_class, .. } => seq![storage_class],
            OpRetTyped::Constant { value, .. } => value@,
            OpRetTyped::Function { control, function_type, .. } => seq![control, function_type],
            _ => Seq::empty(),
        }
    }

    fn opcode(&self) -> (r: u16) {
        match self {
            OpRetTyped::Binary { op, .. } => match op {
                BinaryOp::IAdd => 128,
                BinaryOp::FAdd => 129,
                BinaryOp::ISub => 130,
                BinaryOp::FSub => 131,
                BinaryOp::IMul => 132,
                BinaryOp::FMul => 133,
            },
            OpRetTyped::Variable { .. } => 59,
            OpRetTyped::FunctionParameter { .. } => 55,
            OpRetTyped::Constant { .. } => 43,
            OpRetTyped::ConstantTrue { .. } => 41,
            OpRetTyped::ConstantFalse { .. } => 42,
            OpRetTyped::Function { .. } => 54,
        }
    }

    fn write_operands_to(&self, out: &mut Vec<u32>) {
        match self {
            OpRetTyped::Binary { op0, op1, .. } => {
                out.push(*op0);
                out.push(*op1);
            },
            OpRetTyped::Variable { storage_class, .. } => out.push(*storage_class),
            OpRetTyped::Constant { value, .. } => push_all(out, value),
            OpRetTyped::Function { control, function_type, .. } => {
                out.push(*control);
                out.push(*function_type);
            },
            _ => {},
        }
    }

    fn tell_operands(&self) -> (r: u16) {
        match self {
            OpRetTyped::Binary { .. } => 2,
            OpRetTyped::Variable { .. } => 1,
            OpRetTyped::Constant { value, .. } => value.len() as u16,
            OpRetTyped::Function { .. } => 2,
            _ => 0,
        }
    }
}

impl InstructionRetTyped for OpRetTyped {
    open spec fn ret_type_spec(&self) -> u32 {
        match *self {
            OpRetTyped::Binary { ret_type, .. } => ret_type,
            OpRetTyped::Variable { ret_type, .. } => ret_type,
            OpRetTyped::FunctionParameter { ret_type } => ret_type,
            OpRetTyped::Constant { ret_type, .. } => ret_type,
            OpRetTyped::ConstantTrue { ret_type } => ret_type,
            OpRetTyped::ConstantFalse { ret_type } => ret_type,
            OpRetTyped::Function { ret_type, .. } => ret_type,
        }
    }

    fn ret_type(&self) -> (r: u32) {
        match self {
            OpRetTyped::Binary { ret_type, .. } => *ret_type,
            OpRetTyped::Variable { ret_type, .. } => *ret_type,
            OpRetTyped::FunctionParameter { ret_type } => *ret_type,
            OpRetTyped::Constant { ret_type, .. } => *ret_type,
            OpRetTyped::ConstantTrue { ret_type } => *ret_type,
            OpRetTyped::ConstantFalse { ret_type } => *ret_type,
            OpRetTyped::Function { ret_type, .. } => *ret_type,
        }
    }
}

/// The words of a whole instruction: the header, then the words that go
/// before the operands (result type, result id), then the operands.
pub open spec fn instruction_words(opcode: u16, leading: Seq<u32>, operands: Seq<u32>) -> Seq<u32> {
    seq![header_word((1 + leading.len() + operands.len()) as u16, opcode)] + leading + operands
}

/// `out` grew by one whole instruction, whose header gives its own length and
/// its opcode.
pub open spec fn one_instruction(before: Seq<u32>, after: Seq<u32>, opcode: u16) -> bool {
    &&& after.len() > before.len()
    &&& after.subrange(0, before.len() as int) == before
    &&& after[before.len() as int] >> 16u32 == (after.len() - before.len()) as u32
    &&& after[before.len() as int] & 0xffffu32 == opcode as u32
}

proof fn lemma_instruction_words(before: Seq<u32>, opcode: u16, leading: Seq<u32>, operands: Seq<u32>)
    requires
        1 + leading.len() + operands.len() <= 0xffff,
    ensures
        one_instruction(before, before + instruction_words(opcode, leading, operands), opcode),
{
    let wc = (1 + leading.len() + operands.len()) as u16;
    lemma_header_word(wc, opcode);
    let after = before + instruction_words(opcode, leading, operands);
    assert(after.subrange(0, before.len() as int) == before);
    assert(after[before.len() as int] == header_word(wc, opcode));
}

impl OpVoid {
    /// Appends the instruction: header, then operands.
    pub fn write_instruction(&self, out: &mut Vec<u32>)
        ensures
            final(out)@ == old(out)@ + instruction_words(self.opcode_spec(), Seq::empty(), self.operands_spec()),
            one_instruction(old(out)@, final(out)@, self.opcode_spec()),
    {
        let word_count = self.tell_operands() + 1;
        out.push(make_header(word_count, self.opcode()));
        self.write_operands_to(out);
        proof {
            lemma_instruction_words(old(out)@, self.opcode_spec(), Seq::empty(), self.operands_spec());
            assert(final(out)@ == old(out)@ + instruction_words(self.opcode_spec(), Seq::empty(), self.operands_spec()));
        }
    }
}

impl OpRetUntyped {
    /// Appends the instruction: header, result id, then operands.
    pub fn write_instruction(&self, out: &mut Vec<u32>, result_id: u32)
        requires
            self.operands_spec().len() + 2 <= 0xffff,
        ensures
            final(out)@ == old(out)@ + instruction_words(self.opcode_spec(), seq![result_id], self.operands_spec()),
            one_instruction(old(out)@, final(out)@, self.opcode_spec()),
    {
        let word_count = self.tell_operands() + 2;
        out.push(make_header(word_count, self.opcode()));
        out.push(result_id);
        self.write_operands_to(out);
        proof {
            lemma_instruction_words(old(out)@, self.opcode_spec(), seq![result_id], self.operands_spec());
            assert(final(out)@ == old(out)@ + instruction_words(self.opcode_spec(), seq![result_id], self.operands_spec()));
        }
    }
}

impl OpRetTyped {
    /// Appends the instruction: header, result type, result id, then
    /// operands.
    pub fn write_instruction(&self, out: &mut Vec<u32>, result_id: u32)
        requires
            self.operands_spec().len() + 3 <= 0xffff,
        ensures
            final(out)@ == old(out)@ + instruction_words(
                self.opcode_spec(),
                seq![self.ret_type_spec(), result_id],
                self.operands_spec(),
            ),
            one_instruction(old(out)@, final(out)@, self.opcode_spec()),
    {
        let word_count = self.tell_operands() + 3;
        out.push(make_header(word_count, self.opcode()));
        out.push(self.ret_type());
        out.push(result_id);
        self.write_operands_to(out);
        proof {
            lemma_instruction_words(old(out)@, self.opcode_spec(), seq![self.ret_type_spec(), result_id], self.operands_spec());
            assert(final(out)@ == old(out)@ + instruction_words(
                self.opcode_spec(),
                seq![self.ret_type_spec(), result_id],
                self.operands_spec(),
            ));
        }
    }
}

} // verus!
