//! Turning intermediate instructions into SPIR-V instructions, once each
//! local and each type has been given an id.
use vstd::prelude::*;
use crate::block::BlockLocalRef;
use crate::iil::{Constant, OpExpr, OpExprUntyped, OpVoid};
use crate::spv;
use crate::tex::{digits_value, bytes_of, valid_digits};
use crate::types::{Integer, StorageClass, Type};
use num_bigint::BigUint;

verus! {

/// The SPIR-V number of a storage class.
pub open spec fn storage_class_number(sc: StorageClass) -> u32 {
    match sc {
        StorageClass::Function => 7,
        StorageClass::Input => 1,
        StorageClass::Output => 3,
    }
}

/// The storage classes are written as SPIR-V numbers them (`Input` 1,
/// `Output` 3, `Function` 7), no two alike.
pub proof fn law_storage_class_numbers(a: StorageClass, b: StorageClass)
    ensures
        a != b ==> storage_class_number(a) != storage_class_number(b),
        storage_class_number(StorageClass::Input) == 1,
        storage_class_number(StorageClass::Output) == 3,
        storage_class_number(StorageClass::Function) == 7,
{
}

fn storage_class_word(sc: StorageClass) -> (r: u32)
    ensures
        r == storage_class_number(sc),
{
    match sc {
        StorageClass::Function => 7,
        StorageClass::Input => 1,
        StorageClass::Output => 3,
    }
}

/// The instruction `b` is `a` with each local replaced by an id that `ids`
/// allows for it.
pub open spec fn void_corresponds(a: OpVoid, b: spv::OpVoid, ids: spec_fn(BlockLocalRef, u32) -> bool) -> bool {
    match a {
        OpVoid::Nop => b == spv::OpVoid::Nop,
        OpVoid::Store { pointer, object } => b matches spv::OpVoid::Store { pointer: p, object: o } && ids(pointer, p)
            && ids(object, o),
        OpVoid::Return => b == spv::OpVoid::Return,
        OpVoid::ReturnValue { value } => b matches spv::OpVoid::ReturnValue { value: v } && ids(value, v),
        OpVoid::FunctionEnd => b == spv::OpVoid::FunctionEnd,
        OpVoid::Capability { capability } => b == spv::OpVoid::Capability { capability },
        OpVoid::MemoryModel { addressing, memory } => b == spv::OpVoid::MemoryModel { addressing, memory },
    }
}

/// An intermediate instruction without a result, as SPIR-V.
pub trait IilOpVoid: Sized {
    fn into_spv_void<MapRefs: Fn(BlockLocalRef) -> u32>(self, map_refs: MapRefs) -> spv::OpVoid
        requires
            forall|x: BlockLocalRef| map_refs.requires((x,)),
    ;
}

impl IilOpVoid for OpVoid {
    fn into_spv_void<MapRefs: Fn(BlockLocalRef) -> u32>(self, map_refs: MapRefs) -> (r: spv::OpVoid)
        ensures
            void_corresponds(self, r, |x: BlockLocalRef, id: u32| map_refs.ensures((x,), id)),
    {
        match self {
            OpVoid::Nop => spv::OpVoid::Nop,
            OpVoid::Store { pointer, object } => {
                let p = map_refs(pointer);
                let o = map_refs(object);
                spv::OpVoid::Store { pointer: p, object: o }
            },
            OpVoid::Return => spv::OpVoid::Return,
            OpVoid::ReturnValue { value } => {
                let v = map_refs(value);
                spv::OpVoid::ReturnValue { value: v }
            },
            OpVoid::FunctionEnd => spv::OpVoid::FunctionEnd,
            OpVoid::Capability { capability } => spv::OpVoid::Capability { capability },
            OpVoid::MemoryModel { addressing, memory } => spv::OpVoid::MemoryModel { addressing, memory },
        }
    }
}

/// `ids` of each local of `a`, in order, are `b`.
pub open spec fn refs_correspond(a: Seq<BlockLocalRef>, b: Seq<u32>, ids: spec_fn(BlockLocalRef, u32) -> bool) -> bool {
    &&& a.len() == b.len()
    &&& forall|i: int| 0 <= i < a.len() ==> ids(#[trigger] a[i], b[i])
}

/// The instruction `b` is `a` with each local replaced by an id that `ids`
/// allows for it.
pub open spec fn untyped_corresponds(
    a: OpExprUntyped,
    b: spv::OpRetUntyped,
    ids: spec_fn(BlockLocalRef, u32) -> bool,
) -> bool {
    match a {
        OpExprUntyped::Label => b is Label,
        OpExprUntyped::ExtInstImport { name } => b matches spv::OpRetUntyped::ExtInstImport { name: n } && n.value@
            == name@,
        OpExprUntyped::TypeInt { width, signed } => b == spv::OpRetUntyped::TypeInt {
            width,
            signedness: if signed {
                1
            } else {
                0
            },
        },
        OpExprUntyped::TypeFloat { width } => b == spv::OpRetUntyped::TypeFloat { width },
        OpExprUntyped::TypeVector { component, count } => b matches spv::OpRetUntyped::TypeVector {
            component_type: c,
            component_count: n,
        } && ids(component, c) && n == count,
        OpExprUntyped::TypeMatrix { column, count } => b matches spv::OpRetUntyped::TypeMatrix {
            column_type: c,
            column_count: n,
        } && ids(column, c) && n == count,
        OpExprUntyped::TypeVoid => b is TypeVoid,
        OpExprUntyped::TypeBool => b is TypeBool,
        OpExprUntyped::TypeFunction { ret, params } => b matches spv::OpRetUntyped::TypeFunction {
            return_type: rt,
            params: ps,
        } && ids(ret, rt) && refs_correspond(params@, ps@, ids),
        OpExprUntyped::TypePointer { storage_class, pointee } => b matches spv::OpRetUntyped::TypePointer {
            storage_class: sc,
            pointee: p,
        } && sc == storage_class_number(storage_class) && ids(pointee, p),
    }
}

/// An intermediate instruction with a result but no result type, as SPIR-V.
pub trait IilOpExprUntyped: Sized {
    fn into_spv_retuntyped<MapRefs: Fn(BlockLocalRef) -> u32>(self, map_refs: MapRefs) -> spv::OpRetUntyped
        requires
            forall|x: BlockLocalRef| map_refs.requires((x,)),
    ;
}

impl IilOpExprUntyped for OpExprUntyped {
    fn into_spv_retuntyped<MapRefs: Fn(BlockLocalRef) -> u32>(self, map_refs: MapRefs) -> (r: spv::OpRetUntyped)
        ensures
            untyped_corresponds(self, r, |x: BlockLocalRef, id: u32| map_refs.ensures((x,), id)),
    {
        match self {
            OpExprUntyped::Label => spv::OpRetUntyped::Label,
            OpExprUntyped::ExtInstImport { name } => spv::OpRetUntyped::ExtInstImport {
                name: spv::LiteralString { value: name },
            },
            OpExprUntyped::TypeInt { width, signed } => spv::OpRetUntyped::TypeInt {
                width,
                signedness: if signed {
                    1
                } else {
                    0
                },
            },
            OpExprUntyped::TypeFloat { width } => spv::OpRetUntyped::TypeFloat { width },
            OpExprUntyped::TypeVector { component, count } => {
                let c = map_refs(component);
                spv::OpRetUntyped::TypeVector { component_type: c, component_count: count }
            },
            OpExprUntyped::TypeMatrix { column, count } => {
                let c = map_refs(column);
                spv::OpRetUntyped::TypeMatrix { column_type: c, column_count: count }
            },
            OpExprUntyped::TypeVoid => spv::OpRetUntyped::TypeVoid,
            OpExprUntyped::TypeBool => spv::OpRetUntyped::TypeBool,
            OpExprUntyped::TypeFunction { ret, params } => {
                let rt = map_refs(ret);
                let mut ps: Vec<u32> = Vec::new();
                let mut i: usize = 0;
                while i < params.len()
                    invariant
                        forall|x: BlockLocalRef| map_refs.requires((x,)),
                        i <= params@.len(),
                        refs_correspond(params@.take(i as int), ps@, |x: BlockLocalRef, id: u32| map_refs.ensures((x,), id)),
                    decreases params@.len() - i,
                {
                    let id = map_refs(params[i]);
                    ps.push(id);
                    i = i + 1;
                }
                proof {
                    assert(params@.take(params@.len() as int) == params@);
                }
                spv::OpRetUntyped::TypeFunction { return_type: rt, params: ps }
            },
            OpExprUntyped::TypePointer { storage_class, pointee } => {
                let p = map_refs(pointee);
                spv::OpRetUntyped::TypePointer { storage_class: storage_class_word(storage_class), pointee: p }
            },
        }
    }
}

// ---------------------------------------------------------------------------
// Constants.
// ---------------------------------------------------------------------------

/// A number as 32-bit words, least significant first, without a high zero
/// word.
pub open spec fn le_words(v: nat) -> Seq<u32>
    decreases v,
{
    if v == 0 {
        Seq::empty()
    } else {
        seq![(v % 0x1_0000_0000) as u32] + le_words(v / 0x1_0000_0000)
    }
}

/// The value of words, least significant first.
pub open spec fn words_value(ws: Seq<u32>) -> nat
    decreases ws.len(),
{
    if ws.len() == 0 {
        0
    } else {
        ws[0] as nat + 0x1_0000_0000 * words_value(ws.subrange(1, ws.len() as int))
    }
}

/// How many words a literal of `bits` bits takes.
pub open spec fn word_count(bits: nat) -> nat {
    (bits + 31) / 32
}

/// The words of an integer constant of type `ty`: its value's words, padded
/// with zero words to the width of the type.
pub open spec fn int_constant_words(ty: Integer, radix: nat, ds: Seq<u32>) -> Seq<u32> {
    let ws = le_words(digits_value(bytes_of(ds), radix));
    ws + Seq::new((word_count(ty.spec_bit_width() as nat) - ws.len()) as nat, |i: int| 0u32)
}

/// A non-negative value fits its integer type: below `2^w` for an unsigned
/// type of `w` bits, below `2^(w-1)` for a signed one.
pub open spec fn int_in_range(ty: Integer, v: nat) -> bool {
    match ty {
        Integer::Unsigned(w) => v < vstd::arithmetic::power2::pow2(w as nat),
        Integer::Signed(w) => w >= 1 && v < vstd::arithmetic::power2::pow2((w - 1) as nat),
    }
}

/// The constant is well-formed, in range for its type, and fits its type's
/// words.
pub open spec fn int_constant_fits(ty: Integer, radix: nat, ds: Seq<u32>) -> bool {
    &&& valid_digits(radix, ds)
    &&& int_in_range(ty, digits_value(bytes_of(ds), radix))
    &&& le_words(digits_value(bytes_of(ds), radix)).len() <= word_count(ty.spec_bit_width() as nat)
}

/// Builds the number with `num_bigint::BigUint::from_radix_be` and takes
/// its 32-bit words with `BigUint::to_u32_digits` (least significant first,
/// none for zero).  With valid digits these are the words of their value.
#[verifier::external_body]
fn radix_digits_words(digits: &Vec<u8>, radix: u32) -> (r: Vec<u32>)
    requires
        2 <= radix <= 256,
    ensures
        (forall|i: int| 0 <= i < digits@.len() ==> #[trigger] digits@[i] < radix) ==> r@ == le_words(
            digits_value(digits@, radix as nat),
        ),
{
    match BigUint::from_radix_be(digits.as_slice(), radix) {
        Some(v) => v.to_u32_digits(),
        None => Vec::new(),
    }
}

fn digit_bytes_of(ds: &Vec<u32>) -> (r: Vec<u8>)
    requires
        forall|i: int| 0 <= i < ds@.len() ==> #[trigger] ds@[i] < 256,
    ensures
        r@ == bytes_of(ds@),
        forall|i: int| 0 <= i < ds@.len() ==> #[trigger] r@[i] == ds@[i],
{
    let mut r: Vec<u8> = Vec::new();
    let mut i: usize = 0;
    while i < ds.len()
        invariant
            i <= ds@.len(),
            forall|k: int| 0 <= k < ds@.len() ==> #[trigger] ds@[k] < 256,
            r@ == bytes_of(ds@.take(i as int)),
            forall|k: int| 0 <= k < i ==> #[trigger] r@[k] == ds@[k],
        decreases ds@.len() - i,
    {
        r.push(ds[i] as u8);
        proof {
            assert(bytes_of(ds@.take(i + 1)) =~= bytes_of(ds@.take(i as int)).push(ds@[i as int] as u8));
        }
        i = i + 1;
    }
    proof {
        assert(ds@.take(ds@.len() as int) == ds@);
    }
    r
}

fn int_constant_words_exec(ty: Integer, radix: u32, ds: &Vec<u32>) -> (r: Vec<u32>)
    requires
        int_constant_fits(ty, radix as nat, ds@),
    ensures
        r@ == int_constant_words(ty, radix as nat, ds@),
{
    let bytes = digit_bytes_of(ds);
    let mut ws = radix_digits_words(&bytes, radix);
    let bits = ty.bit_width();
    let n = bits / 32 + if bits % 32 == 0 { 0 } else { 1 };
    assert(n == word_count(bits as nat));
    let ghost base = ws@;
    let ghost pad = (n - base.len()) as nat;
    while ws.len() < n as usize
        invariant
            base.len() <= ws@.len() <= n,
            pad == n - base.len(),
            ws@ == base + Seq::new((ws@.len() - base.len()) as nat, |i: int| 0u32),
        decreases n - ws@.len(),
    {
        ws.push(0);
        proof {
            assert(ws@ =~= base + Seq::new((ws@.len() - base.len()) as nat, |i: int| 0u32));
        }
    }
    ws
}

/// The instruction `b` is `a` with each local and each type replaced by an
/// id that `ids` and `tids` allow for it, and a constant by its words.
pub open spec fn typed_corresponds(
    a: OpExpr,
    b: spv::OpRetTyped,
    ids: spec_fn(BlockLocalRef, u32) -> bool,
    tids: spec_fn(Type, u32) -> bool,
) -> bool {
    match a {
        OpExpr::Binary { op, ret_type, op0, op1 } => b matches spv::OpRetTyped::Binary {
            op: o,
            ret_type: t,
            op0: x,
            op1: y,
        } && o == op && tids(ret_type, t) && ids(op0, x) && ids(op1, y),
        OpExpr::Variable { ret_type, storage_class } => b matches spv::OpRetTyped::Variable {
            ret_type: t,
            storage_class: sc,
        } && tids(ret_type, t) && sc == storage_class_number(storage_class),
        OpExpr::FunctionParameter { ret_type } => b matches spv::OpRetTyped::FunctionParameter { ret_type: t } && tids(
            ret_type,
            t,
        ),
        OpExpr::Constant { ret_type, value } => b matches spv::OpRetTyped::Constant { ret_type: t, value: ws } && tids(
            ret_type,
            t,
        ) && (value matches Constant::Int { ty, value: d } && ws@ == int_constant_words(ty, d.radix as nat, d.digits@)),
        OpExpr::ConstantTrue { ret_type } => b matches spv::OpRetTyped::ConstantTrue { ret_type: t } && tids(ret_type, t),
        OpExpr::ConstantFalse { ret_type } => b matches spv::OpRetTyped::ConstantFalse { ret_type: t } && tids(
            ret_type,
            t,
        ),
        OpExpr::Function { ret_type, function_type } => b matches spv::OpRetTyped::Function {
            ret_type: t,
            control: c,
            function_type: ft,
        } && tids(ret_type, t) && c == 0 && tids(function_type, ft),
    }
}

/// Which instructions can be written: a constant must be a whole number
/// that fits its type (fractional constants have no binary form here).
pub open spec fn typed_convertible(a: OpExpr) -> bool {
    match a {
        OpExpr::Constant { value, .. } => value matches Constant::Int { ty, value: d } && int_constant_fits(
            ty,
            d.radix as nat,
            d.digits@,
        ),
        _ => true,
    }
}

/// An intermediate instruction with a result type, as SPIR-V.
pub trait IilOpExpr: Sized {
    spec fn convertible(&self) -> bool;

    fn into_spv_expr<MapRefs: Fn(BlockLocalRef) -> u32, MapTypes: Fn(Type) -> u32>(
        self,
        map_refs: MapRefs,
        map_types: MapTypes,
    ) -> spv::OpRetTyped
        requires
            self.convertible(),
            forall|x: BlockLocalRef| map_refs.requires((x,)),
            forall|t: Type| map_types.requires((t,)),
    ;

    fn ret_type(&self) -> &Type;
}

impl IilOpExpr for OpExpr {
    open spec fn convertible(&self) -> bool {
        typed_convertible(*self)
    }

    fn into_spv_expr<MapRefs: Fn(BlockLocalRef) -> u32, MapTypes: Fn(Type) -> u32>(
        self,
        map_refs: MapRefs,
        map_types: MapTypes,
    ) -> (r: spv::OpRetTyped)
        ensures
            typed_corresponds(
                self,
                r,
                |x: BlockLocalRef, id: u32| map_refs.ensures((x,), id),
                |t: Type, id: u32| map_types.ensures((t,), id),
            ),
    {
        match self {
            OpExpr::Binary { op, ret_type, op0, op1 } => {
                let t = map_types(ret_type);
                let x = map_refs(op0);
                let y = map_refs(op1);
                spv::OpRetTyped::Binary { op, ret_type: t, op0: x, op1: y }
            },
            OpExpr::Variable { ret_type, storage_class } => {
                let t = map_types(ret_type);
                spv::OpRetTyped::Variable { ret_type: t, storage_class: storage_class_word(storage_class) }
            },
            OpExpr::FunctionParameter { ret_type } => {
                let t = map_types(ret_type);
                spv::OpRetTyped::FunctionParameter { ret_type: t }
            },
            OpExpr::Constant { ret_type, value } => {
                let t = map_types(ret_type);
                match value {
                    Constant::Int { ty, value: d } => {
                        let ws = int_constant_words_exec(ty, d.radix, &d.digits);
                        spv::OpRetTyped::Constant { ret_type: t, value: ws }
                    },
                    _ => spv::OpRetTyped::Constant { ret_type: t, value: Vec::new() },
                }
            },
            OpExpr::ConstantTrue { ret_type } => {
                let t = map_types(ret_type);
                spv::OpRetTyped::ConstantTrue { ret_type: t }
            },
            OpExpr::ConstantFalse { ret_type } => {
                let t = map_types(ret_type);
                spv::OpRetTyped::ConstantFalse { ret_type: t }
            },
            OpExpr::Function { ret_type, function_type } => {
                let t = map_types(ret_type);
                let ft = map_types(function_type);
                spv::OpRetTyped::Function { ret_type: t, control: 0, function_type: ft }
            },
        }
    }

    fn ret_type(&self) -> (r: &Type)
        ensures
            *r == match *self {
                OpExpr::Binary { ret_type, .. } => ret_type,
                OpExpr::Variable { ret_type, .. } => ret_type,
                OpExpr::FunctionParameter { ret_type } => ret_type,
                OpExpr::Constant { ret_type, .. } => ret_type,
                OpExpr::ConstantTrue { ret_type } => ret_type,
                OpExpr::ConstantFalse { ret_type } => ret_type,
                OpExpr::Function { ret_type, .. } => ret_type,
            },
    {
        match self {
            OpExpr::Binary { ret_type, .. } => ret_type,
            OpExpr::Variable { ret_type, .. } => ret_type,
            OpExpr::FunctionParameter { ret_type } => ret_type,
            OpExpr::Constant { ret_type, .. } => ret_type,
            OpExpr::ConstantTrue { ret_type } => ret_type,
            OpExpr::ConstantFalse { ret_type } => ret_type,
            OpExpr::Function { ret_type, .. } => ret_type,
        }
    }
}

/// The words of a constant read back as its value.
pub proof fn law_int_constant_words_value(ty: Integer, radix: nat, ds: Seq<u32>)
    requires
        int_constant_fits(ty, radix, ds),
    ensures
        words_value(int_constant_words(ty, radix, ds)) == digits_value(bytes_of(ds), radix),
        int_constant_words(ty, radix, ds).len() == word_count(ty.spec_bit_width() as nat),
{
    let v = digits_value(bytes_of(ds), radix);
    lemma_le_words_value(v);
    let ws = le_words(v);
    let pad = Seq::new((word_count(ty.spec_bit_width() as nat) - ws.len()) as nat, |i: int| 0u32);
    lemma_words_value_zero_pad(ws, pad.len());
    assert(pad =~= Seq::new(pad.len(), |i: int| 0u32));
}

proof fn lemma_le_words_value(v: nat)
    ensures
        words_value(le_words(v)) == v,
    decreases v,
{
    if v > 0 {
        lemma_le_words_value(v / 0x1_0000_0000);
        let ws = le_words(v);
        assert(ws.subrange(1, ws.len() as int) == le_words(v / 0x1_0000_0000));
    }
}

proof fn lemma_words_value_zero_pad(ws: Seq<u32>, n: nat)
    ensures
        words_value(ws + Seq::new(n, |i: int| 0u32)) == words_value(ws),
    decreases ws.len(), n,
{
    let z = Seq::new(n, |i: int| 0u32);
    if ws.len() == 0 {
        assert(ws + z =~= z);
        lemma_zero_words(n);
    } else {
        let rest = ws.subrange(1, ws.len() as int);
        lemma_words_value_zero_pad(rest, n);
        assert((ws + z).subrange(1, (ws + z).len() as int) =~= rest + z);
    }
}

proof fn lemma_zero_words(n: nat)
    ensures
        words_value(Seq::new(n, |i: int| 0u32)) == 0,
    decreases n,
{
    if n > 0 {
        lemma_zero_words((n - 1) as nat);
        assert(Seq::new(n, |i: int| 0u32).subrange(1, n as int) =~= Seq::new((n - 1) as nat, |i: int| 0u32));
    }
}

} // verus!
