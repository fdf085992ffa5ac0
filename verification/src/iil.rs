//! The intermediate instruction language: SPIR-V-shaped instructions whose
//! operands name earlier locals of blocks, in a hierarchical form (a local
//! may be a whole nested block) and a flat one.
use vstd::prelude::*;
use crate::block::{Block, BlockLocal, BlockLocalRef, BlockId};
use crate::lexer::{Digits, NumberValue, NumberValueView, number_value_view, copy_digits, copy_number_value};
use crate::types::{Type, TypeView, Integer, Float, StorageClass, type_copy};
use crate::tex::{
    digits_value, bytes_of, valid_digits, number_value_ok, number_value_fraction, gcd, digits_ok, digit_bytes,
    same_digit_value, reduced_value_digits,
};

verus! {

/// The arithmetic instructions.
#[derive(Clone, Copy, PartialEq, Eq, Structural, Debug, Hash)]
pub enum BinaryOp {
    IAdd,
    FAdd,
    ISub,
    FSub,
    IMul,
    FMul,
}

/// A constant value.
#[derive(Debug)]
pub enum Constant {
    Int { ty: Integer, value: Digits },
    Float { ty: Float, value: NumberValue },
    Bool { value: bool },
}

/// A valued instruction with a result type.
#[derive(Debug)]
pub enum OpExpr {
    Binary { op: BinaryOp, ret_type: Type, op0: BlockLocalRef, op1: BlockLocalRef },
    Variable { ret_type: Type, storage_class: StorageClass },
    FunctionParameter { ret_type: Type },
    Constant { ret_type: Type, value: Constant },
    ConstantTrue { ret_type: Type },
    ConstantFalse { ret_type: Type },
    Function { ret_type: Type, function_type: Type },
}

/// A valued instruction without a result type.
#[derive(Debug)]
pub enum OpExprUntyped {
    Label,
    ExtInstImport { name: String },
    TypeInt { width: u32, signed: bool },
    TypeFloat { width: u32 },
    TypeVector { component: BlockLocalRef, count: u32 },
    TypeMatrix { column: BlockLocalRef, count: u32 },
    TypeVoid,
    TypeBool,
    TypeFunction { ret: BlockLocalRef, params: Vec<BlockLocalRef> },
    TypePointer { storage_class: StorageClass, pointee: BlockLocalRef },
}

/// An instruction without a result.
#[derive(Clone, Copy, PartialEq, Eq, Structural, Debug, Hash)]
pub enum OpVoid {
    Nop,
    Store { pointer: BlockLocalRef, object: BlockLocalRef },
    Return,
    ReturnValue { value: BlockLocalRef },
    FunctionEnd,
    Capability { capability: u32 },
    MemoryModel { addressing: u32, memory: u32 },
}

/// Any valued instruction.
#[derive(Debug)]
pub enum OpAnyValued {
    Typed(OpExpr),
    Untyped(OpExprUntyped),
}

/// A valued local of a hierarchical block.
#[derive(Debug)]
pub enum BlockLocalExpr {
    Op(OpExpr),
    OpUntyped(OpExprUntyped),
    Block(Box<Block<OpVoid, BlockLocalExpr, Option<BlockLocalExpr>>>),
    Constant(Constant),
    Ref(BlockLocalRef),
}

/// A valued local of a flat block.
#[derive(Debug)]
pub enum FlatBlockLocalExpr {
    Op(OpExpr),
    OpUntyped(OpExprUntyped),
    Constant(Constant),
    Ref(BlockLocalRef),
}

// ---------------------------------------------------------------------------
// Views.
// ---------------------------------------------------------------------------

pub enum ConstantView {
    Int(Integer, nat, Seq<u32>),
    Float(Float, NumberValueView),
    Bool(bool),
}

pub enum OpExprView {
    Binary(BinaryOp, TypeView, BlockLocalRef, BlockLocalRef),
    Variable(TypeView, StorageClass),
    FunctionParameter(TypeView),
    Constant(TypeView, ConstantView),
    ConstantTrue(TypeView),
    ConstantFalse(TypeView),
    Function(TypeView, TypeView),
}

pub enum OpUntypedView {
    Label,
    ExtInstImport(Seq<char>),
    TypeInt(u32, bool),
    TypeFloat(u32),
    TypeVector(BlockLocalRef, u32),
    TypeMatrix(BlockLocalRef, u32),
    TypeVoid,
    TypeBool,
    TypeFunction(BlockLocalRef, Seq<BlockLocalRef>),
    TypePointer(StorageClass, BlockLocalRef),
}

pub enum HExprView {
    Op(OpExprView),
    OpUntyped(OpUntypedView),
    Block(Box<HBlockView>),
    Constant(ConstantView),
    Ref(BlockLocalRef),
}

pub enum HLocalView {
    Void(OpVoid),
    Valued(HExprView),
}

pub struct HBlockView {
    pub id: BlockId,
    pub locals: Seq<HLocalView>,
    pub terminal: Option<HExprView>,
}

pub enum FlatExprView {
    Op(OpExprView),
    OpUntyped(OpUntypedView),
    Constant(ConstantView),
    Ref(BlockLocalRef),
}

pub enum FlatLocalView {
    Void(OpVoid),
    Valued(FlatExprView),
}

pub open spec fn constant_view(c: Constant) -> ConstantView {
    match c {
        Constant::Int { ty, value } => ConstantView::Int(ty, value.radix as nat, value.digits@),
        Constant::Float { ty, value } => ConstantView::Float(ty, number_value_view(value)),
        Constant::Bool { value } => ConstantView::Bool(value),
    }
}

pub open spec fn op_view(o: OpExpr) -> OpExprView {
    match o {
        OpExpr::Binary { op, ret_type, op0, op1 } => OpExprView::Binary(op, ret_type@, op0, op1),
        OpExpr::Variable { ret_type, storage_class } => OpExprView::Variable(ret_type@, storage_class),
        OpExpr::FunctionParameter { ret_type } => OpExprView::FunctionParameter(ret_type@),
        OpExpr::Constant { ret_type, value } => OpExprView::Constant(ret_type@, constant_view(value)),
        OpExpr::ConstantTrue { ret_type } => OpExprView::ConstantTrue(ret_type@),
        OpExpr::ConstantFalse { ret_type } => OpExprView::ConstantFalse(ret_type@),
        OpExpr::Function { ret_type, function_type } => OpExprView::Function(ret_type@, function_type@),
    }
}

pub open spec fn untyped_view(o: OpExprUntyped) -> OpUntypedView {
    match o {
        OpExprUntyped::Label => OpUntypedView::Label,
        OpExprUntyped::ExtInstImport { name } => OpUntypedView::ExtInstImport(name@),
        OpExprUntyped::TypeInt { width, signed } => OpUntypedView::TypeInt(width, signed),
        OpExprUntyped::TypeFloat { width } => OpUntypedView::TypeFloat(width),
        OpExprUntyped::TypeVector { component, count } => OpUntypedView::TypeVector(component, count),
        OpExprUntyped::TypeMatrix { column, count } => OpUntypedView::TypeMatrix(column, count),
        OpExprUntyped::TypeVoid => OpUntypedView::TypeVoid,
        OpExprUntyped::TypeBool => OpUntypedView::TypeBool,
        OpExprUntyped::TypeFunction { ret, params } => OpUntypedView::TypeFunction(ret, params@),
        OpExprUntyped::TypePointer { storage_class, pointee } => OpUntypedView::TypePointer(storage_class, pointee),
    }
}

pub open spec fn hexpr_view(e: BlockLocalExpr) -> HExprView
    decreases e,
{
    match e {
        BlockLocalExpr::Op(o) => HExprView::Op(op_view(o)),
        BlockLocalExpr::OpUntyped(o) => HExprView::OpUntyped(untyped_view(o)),
        BlockLocalExpr::Block(b) => HExprView::Block(Box::new(hblock_view(*b))),
        BlockLocalExpr::Constant(c) => HExprView::Constant(constant_view(c)),
        BlockLocalExpr::Ref(r) => HExprView::Ref(r),
    }
}

pub open spec fn hlocal_view(l: BlockLocal<OpVoid, BlockLocalExpr>) -> HLocalView
    decreases l,
{
    match l {
        BlockLocal::Void(v) => HLocalView::Void(v),
        BlockLocal::Valued(e) => HLocalView::Valued(hexpr_view(e)),
    }
}

pub open spec fn hlocals_view(s: Seq<BlockLocal<OpVoid, BlockLocalExpr>>) -> Seq<HLocalView>
    decreases s,
{
    if s.len() == 0 {
        Seq::empty()
    } else {
        proof {
            assert(decreases_to!(s => s.drop_last()));
            assert(decreases_to!(s => s[s.len() - 1]));
        }
        hlocals_view(s.drop_last()).push(hlocal_view(s.last()))
    }
}

pub open spec fn hblock_view(b: Block<OpVoid, BlockLocalExpr, Option<BlockLocalExpr>>) -> HBlockView
    decreases b,
{
    proof {
        assert(decreases_to!(b.locals => b.locals@));
    }
    HBlockView {
        id: b.id,
        locals: hlocals_view(b.locals@),
        terminal: match b.terminal {
            Some(t) => Some(hexpr_view(t)),
            None => None,
        },
    }
}

pub open spec fn flat_view(e: FlatBlockLocalExpr) -> FlatExprView {
    match e {
        FlatBlockLocalExpr::Op(o) => FlatExprView::Op(op_view(o)),
        FlatBlockLocalExpr::OpUntyped(o) => FlatExprView::OpUntyped(untyped_view(o)),
        FlatBlockLocalExpr::Constant(c) => FlatExprView::Constant(constant_view(c)),
        FlatBlockLocalExpr::Ref(r) => FlatExprView::Ref(r),
    }
}

pub open spec fn flat_local_view(l: BlockLocal<OpVoid, FlatBlockLocalExpr>) -> FlatLocalView {
    match l {
        BlockLocal::Void(v) => FlatLocalView::Void(v),
        BlockLocal::Valued(e) => FlatLocalView::Valued(flat_view(e)),
    }
}

pub open spec fn flat_locals_view(s: Seq<BlockLocal<OpVoid, FlatBlockLocalExpr>>) -> Seq<FlatLocalView> {
    s.map_values(|l: BlockLocal<OpVoid, FlatBlockLocalExpr>| flat_local_view(l))
}

pub proof fn lemma_hlocals_view(s: Seq<BlockLocal<OpVoid, BlockLocalExpr>>)
    ensures
        hlocals_view(s).len() == s.len(),
        forall|i: int| 0 <= i < s.len() ==> #[trigger] hlocals_view(s)[i] == hlocal_view(s[i]),
    decreases s.len(),
{
    if s.len() > 0 {
        lemma_hlocals_view(s.drop_last());
    }
}


// ---------------------------------------------------------------------------
// Renumbering: making operands that name one local name another.
// ---------------------------------------------------------------------------

pub open spec fn ren_ref(r: BlockLocalRef, from: BlockLocalRef, to: BlockLocalRef) -> BlockLocalRef {
    if r == from {
        to
    } else {
        r
    }
}

pub open spec fn ren_op(o: OpExprView, from: BlockLocalRef, to: BlockLocalRef) -> OpExprView {
    match o {
        OpExprView::Binary(b, t, x, y) => OpExprView::Binary(b, t, ren_ref(x, from, to), ren_ref(y, from, to)),
        _ => o,
    }
}

pub open spec fn ren_untyped(o: OpUntypedView, from: BlockLocalRef, to: BlockLocalRef) -> OpUntypedView {
    match o {
        OpUntypedView::TypeVector(c, n) => OpUntypedView::TypeVector(ren_ref(c, from, to), n),
        OpUntypedView::TypeMatrix(c, n) => OpUntypedView::TypeMatrix(ren_ref(c, from, to), n),
        OpUntypedView::TypeFunction(r, ps) => OpUntypedView::TypeFunction(
            ren_ref(r, from, to),
            ps.map_values(|p: BlockLocalRef| ren_ref(p, from, to)),
        ),
        OpUntypedView::TypePointer(sc, p) => OpUntypedView::TypePointer(sc, ren_ref(p, from, to)),
        _ => o,
    }
}

pub open spec fn ren_void(v: OpVoid, from: BlockLocalRef, to: BlockLocalRef) -> OpVoid {
    match v {
        OpVoid::Store { pointer, object } => OpVoid::Store {
            pointer: ren_ref(pointer, from, to),
            object: ren_ref(object, from, to),
        },
        OpVoid::ReturnValue { value } => OpVoid::ReturnValue { value: ren_ref(value, from, to) },
        _ => v,
    }
}

pub open spec fn ren_hexpr(e: HExprView, from: BlockLocalRef, to: BlockLocalRef) -> HExprView
    decreases e,
{
    match e {
        HExprView::Op(o) => HExprView::Op(ren_op(o, from, to)),
        HExprView::OpUntyped(o) => HExprView::OpUntyped(ren_untyped(o, from, to)),
        HExprView::Block(b) => HExprView::Block(Box::new(ren_hblock(*b, from, to))),
        HExprView::Constant(c) => HExprView::Constant(c),
        HExprView::Ref(r) => HExprView::Ref(ren_ref(r, from, to)),
    }
}

pub open spec fn ren_hlocal(l: HLocalView, from: BlockLocalRef, to: BlockLocalRef) -> HLocalView
    decreases l,
{
    match l {
        HLocalView::Void(v) => HLocalView::Void(ren_void(v, from, to)),
        HLocalView::Valued(e) => HLocalView::Valued(ren_hexpr(e, from, to)),
    }
}

pub open spec fn ren_hlocals(s: Seq<HLocalView>, from: BlockLocalRef, to: BlockLocalRef) -> Seq<HLocalView>
    decreases s,
{
    if s.len() == 0 {
        Seq::empty()
    } else {
        proof {
            assert(decreases_to!(s => s.drop_last()));
            assert(decreases_to!(s => s[s.len() - 1]));
        }
        ren_hlocals(s.drop_last(), from, to).push(ren_hlocal(s.last(), from, to))
    }
}

pub open spec fn ren_hblock(b: HBlockView, from: BlockLocalRef, to: BlockLocalRef) -> HBlockView
    decreases b,
{
    HBlockView {
        id: b.id,
        locals: ren_hlocals(b.locals, from, to),
        terminal: match b.terminal {
            Some(t) => Some(ren_hexpr(t, from, to)),
            None => None,
        },
    }
}

/// Renumbering by each pair of `rens` in turn.
pub open spec fn ren_all_hlocal(l: HLocalView, rens: Seq<(BlockLocalRef, BlockLocalRef)>) -> HLocalView
    decreases rens.len(),
{
    if rens.len() == 0 {
        l
    } else {
        ren_hlocal(ren_all_hlocal(l, rens.drop_last()), rens.last().0, rens.last().1)
    }
}

pub open spec fn ren_all_hexpr(e: HExprView, rens: Seq<(BlockLocalRef, BlockLocalRef)>) -> HExprView
    decreases rens.len(),
{
    if rens.len() == 0 {
        e
    } else {
        ren_hexpr(ren_all_hexpr(e, rens.drop_last()), rens.last().0, rens.last().1)
    }
}

// ---------------------------------------------------------------------------
// Sizes, which renumbering keeps.
// ---------------------------------------------------------------------------

pub open spec fn hsize_expr(e: HExprView) -> nat
    decreases e,
{
    match e {
        HExprView::Block(b) => 1 + hsize_block(*b),
        _ => 1,
    }
}

pub open spec fn hsize_local(l: HLocalView) -> nat
    decreases l,
{
    match l {
        HLocalView::Void(_) => 1,
        HLocalView::Valued(e) => 1 + hsize_expr(e),
    }
}

pub open spec fn hsize_locals(s: Seq<HLocalView>) -> nat
    decreases s,
{
    if s.len() == 0 {
        0
    } else {
        proof {
            assert(decreases_to!(s => s.drop_last()));
            assert(decreases_to!(s => s[s.len() - 1]));
        }
        hsize_locals(s.drop_last()) + hsize_local(s.last())
    }
}

pub open spec fn hsize_block(b: HBlockView) -> nat
    decreases b,
{
    1 + hsize_locals(b.locals) + match b.terminal {
        Some(t) => hsize_expr(t),
        None => 0,
    }
}

pub proof fn lemma_ren_size_expr(e: HExprView, from: BlockLocalRef, to: BlockLocalRef)
    ensures
        hsize_expr(ren_hexpr(e, from, to)) == hsize_expr(e),
    decreases e,
{
    match e {
        HExprView::Block(b) => lemma_ren_size_block(*b, from, to),
        _ => {},
    }
}

pub proof fn lemma_ren_size_locals(s: Seq<HLocalView>, from: BlockLocalRef, to: BlockLocalRef)
    ensures
        hsize_locals(ren_hlocals(s, from, to)) == hsize_locals(s),
        ren_hlocals(s, from, to).len() == s.len(),
    decreases s,
{
    if s.len() > 0 {
        lemma_ren_size_locals(s.drop_last(), from, to);
        let x = ren_hlocals(s, from, to);
        assert(x.drop_last() =~= ren_hlocals(s.drop_last(), from, to));
        assert(x.last() == ren_hlocal(s.last(), from, to));
        match s.last() {
            HLocalView::Valued(e) => lemma_ren_size_expr(e, from, to),
            _ => {},
        }
        assert(hsize_local(x.last()) == hsize_local(s.last()));
        assert(hsize_locals(x) == hsize_locals(x.drop_last()) + hsize_local(x.last()));
    }
}

pub proof fn lemma_ren_size_block(b: HBlockView, from: BlockLocalRef, to: BlockLocalRef)
    ensures
        hsize_block(ren_hblock(b, from, to)) == hsize_block(b),
    decreases b,
{
    lemma_ren_size_locals(b.locals, from, to);
    match b.terminal {
        Some(t) => lemma_ren_size_expr(t, from, to),
        None => {},
    }
}

pub proof fn lemma_ren_all_size_local(l: HLocalView, rens: Seq<(BlockLocalRef, BlockLocalRef)>)
    ensures
        hsize_local(ren_all_hlocal(l, rens)) == hsize_local(l),
    decreases rens.len(),
{
    if rens.len() > 0 {
        lemma_ren_all_size_local(l, rens.drop_last());
        match ren_all_hlocal(l, rens.drop_last()) {
            HLocalView::Valued(e) => lemma_ren_size_expr(e, rens.last().0, rens.last().1),
            _ => {},
        }
    }
}

pub proof fn lemma_ren_all_size_expr(e: HExprView, rens: Seq<(BlockLocalRef, BlockLocalRef)>)
    ensures
        hsize_expr(ren_all_hexpr(e, rens)) == hsize_expr(e),
    decreases rens.len(),
{
    if rens.len() > 0 {
        lemma_ren_all_size_expr(e, rens.drop_last());
        lemma_ren_size_expr(ren_all_hexpr(e, rens.drop_last()), rens.last().0, rens.last().1);
    }
}


// ---------------------------------------------------------------------------
// Constants: copies and comparison.
// ---------------------------------------------------------------------------

/// A copy of `c`.
pub fn copy_constant(c: &Constant) -> (r: Constant)
    ensures
        constant_view(r) == constant_view(*c),
{
    match c {
        Constant::Int { ty, value } => Constant::Int { ty: *ty, value: copy_digits(value) },
        Constant::Float { ty, value } => Constant::Float { ty: *ty, value: copy_number_value(value) },
        Constant::Bool { value } => Constant::Bool { value: *value },
    }
}

fn digits_eq(a: &Digits, b: &Digits) -> (r: bool)
    ensures
        r == (a.radix == b.radix && a.digits@ == b.digits@),
{
    if a.radix != b.radix || a.digits.len() != b.digits.len() {
        return false;
    }
    let mut i: usize = 0;
    while i < a.digits.len()
        invariant
            a.digits@.len() == b.digits@.len(),
            i <= a.digits@.len(),
            forall|k: int| 0 <= k < i ==> a.digits@[k] == b.digits@[k],
        decreases a.digits@.len() - i,
    {
        if a.digits[i] != b.digits[i] {
            return false;
        }
        i += 1;
    }
    assert(a.digits@ =~= b.digits@);
    true
}

fn number_value_eq(a: &NumberValue, b: &NumberValue) -> (r: bool)
    ensures
        r == (number_value_view(*a) == number_value_view(*b)),
{
    match (a, b) {
        (NumberValue::Int(x), NumberValue::Int(y)) => digits_eq(x, y),
        (NumberValue::Float { whole: w1, frac: f1 }, NumberValue::Float { whole: w2, frac: f2 }) => digits_eq(w1, w2)
            && digits_eq(f1, f2),
        _ => false,
    }
}

/// Whether two constants are the same.
pub fn constant_eq(a: &Constant, b: &Constant) -> (r: bool)
    ensures
        r == (constant_view(*a) == constant_view(*b)),
{
    match (a, b) {
        (Constant::Int { ty: t1, value: v1 }, Constant::Int { ty: t2, value: v2 }) => *t1 == *t2 && digits_eq(v1, v2),
        (Constant::Float { ty: t1, value: v1 }, Constant::Float { ty: t2, value: v2 }) => *t1 == *t2 && number_value_eq(
            v1,
            v2,
        ),
        (Constant::Bool { value: x }, Constant::Bool { value: y }) => *x == *y,
        _ => false,
    }
}


/// What a constant stands for: an integer constant's type and value; a
/// fractional one's type and value in lowest terms (numerator and
/// denominator); a truth value.  A constant with malformed digits stands
/// for its spelling.
pub enum ConstantKey {
    Int(Integer, nat),
    Float(Float, nat, nat),
    Bool(bool),
    Spelled(ConstantView),
}

pub open spec fn constant_key(c: ConstantView) -> ConstantKey {
    match c {
        ConstantView::Int(t, r, ds) => if valid_digits(r, ds) {
            ConstantKey::Int(t, digits_value(bytes_of(ds), r))
        } else {
            ConstantKey::Spelled(c)
        },
        ConstantView::Float(f, v) => if number_value_ok(v) {
            let (n, d) = number_value_fraction(v);
            ConstantKey::Float(f, n / gcd(n, d), d / gcd(n, d))
        } else {
            ConstantKey::Spelled(c)
        },
        ConstantView::Bool(b) => ConstantKey::Bool(b),
    }
}

/// Two constants stand for the same value of the same type.
pub open spec fn same_constant_view(a: ConstantView, b: ConstantView) -> bool {
    constant_key(a) == constant_key(b)
}

fn number_value_ok_exec(v: &NumberValue) -> (r: bool)
    ensures
        r == number_value_ok(number_value_view(*v)),
{
    match v {
        NumberValue::Int(d) => digits_ok(d),
        NumberValue::Float { whole, frac } => digits_ok(whole) && digits_ok(frac),
    }
}

/// Whether two constants stand for the same value of the same type.
pub fn same_constant(a: &Constant, b: &Constant) -> (r: bool)
    ensures
        r == same_constant_view(constant_view(*a), constant_view(*b)),
{
    match (a, b) {
        (Constant::Int { ty: t1, value: v1 }, Constant::Int { ty: t2, value: v2 }) => {
            if !(*t1 == *t2) {
                return false;
            }
            let ok1 = digits_ok(v1);
            let ok2 = digits_ok(v2);
            if ok1 && ok2 {
                let b1 = digit_bytes(&v1.digits);
                let b2 = digit_bytes(&v2.digits);
                same_digit_value(&b1, v1.radix, &b2, v2.radix)
            } else if !ok1 && !ok2 {
                constant_eq(a, b)
            } else {
                false
            }
        },
        (Constant::Float { ty: f1, value: v1 }, Constant::Float { ty: f2, value: v2 }) => {
            if !(*f1 == *f2) {
                return false;
            }
            let ok1 = number_value_ok_exec(v1);
            let ok2 = number_value_ok_exec(v2);
            if ok1 && ok2 {
                let (n1, d1, r1) = reduced_value_digits(v1);
                let (n2, d2, r2) = reduced_value_digits(v2);
                same_digit_value(&n1, r1, &n2, r2) && same_digit_value(&d1, r1, &d2, r2)
            } else if !ok1 && !ok2 {
                constant_eq(a, b)
            } else {
                false
            }
        },
        (Constant::Bool { value: x }, Constant::Bool { value: y }) => *x == *y,
        _ => false,
    }
}

/// A copy of `o`.
pub fn copy_op(o: &OpExpr) -> (r: OpExpr)
    ensures
        op_view(r) == op_view(*o),
{
    match o {
        OpExpr::Binary { op, ret_type, op0, op1 } => OpExpr::Binary {
            op: *op,
            ret_type: type_copy(ret_type),
            op0: *op0,
            op1: *op1,
        },
        OpExpr::Variable { ret_type, storage_class } => OpExpr::Variable {
            ret_type: type_copy(ret_type),
            storage_class: *storage_class,
        },
        OpExpr::FunctionParameter { ret_type } => OpExpr::FunctionParameter { ret_type: type_copy(ret_type) },
        OpExpr::Constant { ret_type, value } => OpExpr::Constant {
            ret_type: type_copy(ret_type),
            value: copy_constant(value),
        },
        OpExpr::ConstantTrue { ret_type } => OpExpr::ConstantTrue { ret_type: type_copy(ret_type) },
        OpExpr::ConstantFalse { ret_type } => OpExpr::ConstantFalse { ret_type: type_copy(ret_type) },
        OpExpr::Function { ret_type, function_type } => OpExpr::Function {
            ret_type: type_copy(ret_type),
            function_type: type_copy(function_type),
        },
    }
}

/// A copy of `o`.
pub fn copy_untyped(o: &OpExprUntyped) -> (r: OpExprUntyped)
    ensures
        untyped_view(r) == untyped_view(*o),
{
    match o {
        OpExprUntyped::Label => OpExprUntyped::Label,
        OpExprUntyped::ExtInstImport { name } => OpExprUntyped::ExtInstImport { name: name.clone() },
        OpExprUntyped::TypeInt { width, signed } => OpExprUntyped::TypeInt { width: *width, signed: *signed },
        OpExprUntyped::TypeFloat { width } => OpExprUntyped::TypeFloat { width: *width },
        OpExprUntyped::TypeVector { component, count } => OpExprUntyped::TypeVector {
            component: *component,
            count: *count,
        },
        OpExprUntyped::TypeMatrix { column, count } => OpExprUntyped::TypeMatrix { column: *column, count: *count },
        OpExprUntyped::TypeVoid => OpExprUntyped::TypeVoid,
        OpExprUntyped::TypeBool => OpExprUntyped::TypeBool,
        OpExprUntyped::TypeFunction { ret, params } => {
            let ps = params.clone();
            assert(ps@ =~= params@);
            OpExprUntyped::TypeFunction { ret: *ret, params: ps }
        },
        OpExprUntyped::TypePointer { storage_class, pointee } => OpExprUntyped::TypePointer {
            storage_class: *storage_class,
            pointee: *pointee,
        },
    }
}

} // verus!
