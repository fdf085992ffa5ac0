//! Putting a whole file's intermediate code together: every function
//! generated and flattened, the types and constants they use declared, and
//! everything sewn into one block in SPIR-V's module order.
use vstd::prelude::*;
use vstd::string::StringExecFns;
use crate::ast::{File, Function, FunctionView, functions_view, group_view};
use crate::block::{Block, BlockBuilder, BlockLocal, BlockLocalRef, BlockId, Ctx};
use crate::compiler::NamespaceItemIILGeneration;
use crate::iil::{
    Constant, ConstantView, OpExpr, OpExprView, OpExprUntyped, OpUntypedView, OpVoid, OpAnyValued,
    FlatBlockLocalExpr, FlatExprView, FlatLocalView, flat_view, flat_local_view, flat_locals_view, op_view,
    untyped_view, constant_view, ren_op, ren_untyped, ren_void, copy_constant, same_constant, same_constant_view, copy_op,
    copy_untyped,
};
use crate::iilgen::{
    IilFunction, IilFunctionView, iil_function_view, gen_function, iil_items, IILItemView, flatten,
    flatten_block, process_function, types_to_asm, constants_to_asm, emit_wf, emitted, needed_by, constant_op,
    opt_flat, renumber_op, renumber_untyped, renumber_void, gen_state,
};
use crate::scope::{Universe, ScopeView};
use crate::types::{self, Type, TypeView, type_copy};

verus! {

/// A function whose body is one flat block.
#[derive(Debug)]
pub struct FlatFunction {
    pub ty: types::Function,
    pub body: Block<OpVoid, FlatBlockLocalExpr, Option<FlatBlockLocalExpr>>,
}

pub struct FlatFunctionView {
    pub args: Seq<TypeView>,
    pub result: TypeView,
    pub id: BlockId,
    pub locals: Seq<FlatLocalView>,
    pub terminal: Option<FlatExprView>,
}

pub open spec fn flat_function_view(f: FlatFunction) -> FlatFunctionView {
    FlatFunctionView {
        args: types::types_view(f.ty.args@),
        result: (*f.ty.result)@,
        id: f.body.id,
        locals: flat_locals_view(f.body.locals@),
        terminal: opt_flat(f.body.terminal),
    }
}

/// A local of the module block.
pub enum ModLocalView {
    Void(OpVoid),
    Typed(OpExprView),
    Untyped(OpUntypedView),
}

pub open spec fn mod_local_view(l: BlockLocal<OpVoid, OpAnyValued>) -> ModLocalView {
    match l {
        BlockLocal::Void(v) => ModLocalView::Void(v),
        BlockLocal::Valued(OpAnyValued::Typed(o)) => ModLocalView::Typed(op_view(o)),
        BlockLocal::Valued(OpAnyValued::Untyped(o)) => ModLocalView::Untyped(untyped_view(o)),
    }
}

pub open spec fn mod_locals_view(s: Seq<BlockLocal<OpVoid, OpAnyValued>>) -> Seq<ModLocalView> {
    s.map_values(|l: BlockLocal<OpVoid, OpAnyValued>| mod_local_view(l))
}

/// Everything generated for a file.
#[derive(Debug)]
pub struct Module {
    pub functions: Vec<FlatFunction>,
    pub types: Block<OpVoid, OpExprUntyped, ()>,
    pub type_map: Vec<(Type, BlockLocalRef)>,
    pub constants: Block<OpVoid, OpExpr, ()>,
    pub constant_map: Vec<(Constant, BlockLocalRef)>,
    pub module: Block<OpVoid, OpAnyValued, ()>,
}

// ---------------------------------------------------------------------------
// The functions.
// ---------------------------------------------------------------------------

/// The functions of a file, group after group.
pub open spec fn file_functions(gs: Seq<(Seq<char>, Seq<FunctionView>)>) -> Seq<FunctionView>
    decreases gs.len(),
{
    if gs.len() == 0 {
        Seq::empty()
    } else {
        file_functions(gs.drop_last()) + gs.last().1
    }
}

/// Generating functions in order.
pub open spec fn gen_functions(next_id: nat, items: Seq<ScopeView<IILItemView>>, fs: Seq<FunctionView>) -> Option<
    (nat, Seq<ScopeView<IILItemView>>, Seq<IilFunctionView>),
>
    decreases fs.len(),
{
    if fs.len() == 0 {
        Some((next_id, items, Seq::empty()))
    } else {
        match gen_functions(next_id, items, fs.drop_last()) {
            Some((n1, it1, done)) => match gen_function(n1, it1, fs.last()) {
                Some((n2, it2, f)) => Some((n2, it2, done.push(f))),
                None => None,
            },
            None => None,
        }
    }
}

/// A generated function flattened into block `id`.
pub open spec fn flat_of(h: IilFunctionView, id: BlockId) -> FlatFunctionView {
    let (locals, terminal) = flatten_block(h.body, Seq::empty(), id);
    FlatFunctionView { args: h.args, result: h.result, id, locals, terminal }
}

// ---------------------------------------------------------------------------
// What the functions use.
// ---------------------------------------------------------------------------

/// The result type of an instruction.
pub open spec fn op_ret_type(o: OpExprView) -> TypeView {
    match o {
        OpExprView::Binary(_, t, _, _) => t,
        OpExprView::Variable(t, _) => t,
        OpExprView::FunctionParameter(t) => t,
        OpExprView::Constant(t, _) => t,
        OpExprView::ConstantTrue(t) => t,
        OpExprView::ConstantFalse(t) => t,
        OpExprView::Function(t, _) => t,
    }
}

/// The result types of the instructions among `locals`, in order.
pub open spec fn local_op_types(locals: Seq<FlatLocalView>) -> Seq<TypeView>
    decreases locals.len(),
{
    if locals.len() == 0 {
        Seq::empty()
    } else {
        local_op_types(locals.drop_last()) + match locals.last() {
            FlatLocalView::Valued(FlatExprView::Op(o)) => seq![op_ret_type(o)],
            _ => Seq::empty(),
        }
    }
}

/// The result types of the instructions of all the functions' locals.
pub open spec fn op_types(fs: Seq<FlatFunctionView>) -> Seq<TypeView>
    decreases fs.len(),
{
    if fs.len() == 0 {
        Seq::empty()
    } else {
        op_types(fs.drop_last()) + local_op_types(fs.last().locals)
    }
}

/// The constants the functions' locals and terminals use, in order.
pub open spec fn used_constants(fs: Seq<FlatFunctionView>) -> Seq<ConstantView>
    decreases fs.len(),
{
    if fs.len() == 0 {
        Seq::empty()
    } else {
        used_constants(fs.drop_last()) + local_constants(fs.last().locals) + match fs.last().terminal {
            Some(FlatExprView::Constant(c)) => seq![c],
            _ => Seq::empty(),
        }
    }
}

pub open spec fn local_constants(locals: Seq<FlatLocalView>) -> Seq<ConstantView>
    decreases locals.len(),
{
    if locals.len() == 0 {
        Seq::empty()
    } else {
        local_constants(locals.drop_last()) + match locals.last() {
            FlatLocalView::Valued(FlatExprView::Constant(c)) => seq![c],
            _ => Seq::empty(),
        }
    }
}


/// Some constant of `cs` stands for the same value as `c`.
pub open spec fn has_same(cs: Seq<ConstantView>, c: ConstantView) -> bool {
    exists|i: int| 0 <= i < cs.len() && same_constant_view(#[trigger] cs[i], c)
}

/// `cs` with one constant for each value: the first that stands for it.
pub open spec fn distinct(cs: Seq<ConstantView>) -> Seq<ConstantView>
    decreases cs.len(),
{
    if cs.len() == 0 {
        Seq::empty()
    } else if has_same(distinct(cs.drop_last()), cs.last()) {
        distinct(cs.drop_last())
    } else {
        distinct(cs.drop_last()).push(cs.last())
    }
}

// ---------------------------------------------------------------------------
// Sewing the module together.
// ---------------------------------------------------------------------------

/// The module's locals so far, and which local of a part ended up where.
pub struct SewState {
    pub locals: Seq<ModLocalView>,
    pub rens: Seq<(BlockLocalRef, BlockLocalRef)>,
}

pub open spec fn here(st: SewState, sid: BlockId) -> BlockLocalRef {
    BlockLocalRef { block: sid, local: st.locals.len() as usize }
}

pub open spec fn put(st: SewState, l: ModLocalView) -> SewState {
    SewState { locals: st.locals.push(l), rens: st.rens }
}

pub open spec fn put_mapped(st: SewState, from: BlockLocalRef, l: ModLocalView, sid: BlockId) -> SewState {
    SewState { locals: st.locals.push(l), rens: st.rens.push((from, here(st, sid))) }
}

pub open spec fn map_to(st: SewState, from: BlockLocalRef, to: BlockLocalRef) -> SewState {
    SewState { locals: st.locals, rens: st.rens.push((from, to)) }
}

/// The module's first locals: the shader capability, the import of the
/// GLSL instruction set, and the logical addressing and GLSL memory model.
pub open spec fn prelude() -> SewState {
    SewState {
        locals: seq![
            ModLocalView::Void(OpVoid::Capability { capability: 1 }),
            ModLocalView::Untyped(OpUntypedView::ExtInstImport("GLSL.std.450"@)),
            ModLocalView::Void(OpVoid::MemoryModel { addressing: 0, memory: 1 }),
        ],
        rens: Seq::empty(),
    }
}

pub open spec fn sew_types(st: SewState, ls: Seq<BlockLocal<OpVoid, OpExprUntyped>>, tid: BlockId, sid: BlockId) -> SewState
    decreases ls.len(),
{
    if ls.len() == 0 {
        st
    } else {
        let st1 = sew_types(st, ls.drop_last(), tid, sid);
        let r = BlockLocalRef { block: tid, local: (ls.len() - 1) as usize };
        match ls.last() {
            BlockLocal::Valued(x) => put_mapped(st1, r, ModLocalView::Untyped(untyped_view(x)), sid),
            BlockLocal::Void(v) => put(st1, ModLocalView::Void(v)),
        }
    }
}

pub open spec fn sew_consts(st: SewState, ls: Seq<BlockLocal<OpVoid, OpExpr>>, cid: BlockId, sid: BlockId) -> SewState
    decreases ls.len(),
{
    if ls.len() == 0 {
        st
    } else {
        let st1 = sew_consts(st, ls.drop_last(), cid, sid);
        let r = BlockLocalRef { block: cid, local: (ls.len() - 1) as usize };
        match ls.last() {
            BlockLocal::Valued(o) => put_mapped(st1, r, ModLocalView::Typed(op_view(o)), sid),
            BlockLocal::Void(v) => put(st1, ModLocalView::Void(v)),
        }
    }
}

/// The local of the constants block holding the value of constant `c`.
pub open spec fn const_ref(cmap: Seq<(Constant, BlockLocalRef)>, c: ConstantView) -> BlockLocalRef {
    cmap[choose|i: int| 0 <= i < cmap.len() && same_constant_view(constant_view(cmap[i].0), c)].1
}

pub open spec fn sew_body(
    st: SewState,
    id: BlockId,
    ls: Seq<FlatLocalView>,
    sid: BlockId,
    cmap: Seq<(Constant, BlockLocalRef)>,
) -> SewState
    decreases ls.len(),
{
    if ls.len() == 0 {
        st
    } else {
        let st1 = sew_body(st, id, ls.drop_last(), sid, cmap);
        let r = BlockLocalRef { block: id, local: (ls.len() - 1) as usize };
        match ls.last() {
            FlatLocalView::Void(v) => put(st1, ModLocalView::Void(v)),
            FlatLocalView::Valued(FlatExprView::Op(o)) => put_mapped(st1, r, ModLocalView::Typed(o), sid),
            FlatLocalView::Valued(FlatExprView::OpUntyped(o)) => put_mapped(st1, r, ModLocalView::Untyped(o), sid),
            FlatLocalView::Valued(FlatExprView::Constant(c)) => map_to(st1, r, const_ref(cmap, c)),
            FlatLocalView::Valued(FlatExprView::Ref(x)) => map_to(st1, r, x),
        }
    }
}

/// A function in the module: its declaration, its body, its return, its end.
pub open spec fn sew_function(
    st: SewState,
    f: FlatFunctionView,
    fref: BlockLocalRef,
    sid: BlockId,
    cmap: Seq<(Constant, BlockLocalRef)>,
) -> SewState {
    let st1 = put_mapped(
        st,
        fref,
        ModLocalView::Typed(OpExprView::Function(f.result, TypeView::Function(f.args, Box::new(f.result)))),
        sid,
    );
    let st2 = sew_body(st1, f.id, f.locals, sid, cmap);
    let st3 = match f.terminal {
        None => put(st2, ModLocalView::Void(OpVoid::Return)),
        Some(FlatExprView::Op(o)) => put(
            put(st2, ModLocalView::Typed(o)),
            ModLocalView::Void(OpVoid::ReturnValue { value: here(st2, sid) }),
        ),
        Some(FlatExprView::OpUntyped(o)) => put(
            put(st2, ModLocalView::Untyped(o)),
            ModLocalView::Void(OpVoid::ReturnValue { value: here(st2, sid) }),
        ),
        Some(FlatExprView::Constant(c)) => put(st2, ModLocalView::Void(OpVoid::ReturnValue { value: const_ref(cmap, c) })),
        Some(FlatExprView::Ref(x)) => put(st2, ModLocalView::Void(OpVoid::ReturnValue { value: x })),
    };
    put(st3, ModLocalView::Void(OpVoid::FunctionEnd))
}

pub open spec fn sew_functions(
    st: SewState,
    fs: Seq<FlatFunctionView>,
    fid: BlockId,
    sid: BlockId,
    cmap: Seq<(Constant, BlockLocalRef)>,
) -> SewState
    decreases fs.len(),
{
    if fs.len() == 0 {
        st
    } else {
        let st1 = sew_functions(st, fs.drop_last(), fid, sid, cmap);
        sew_function(st1, fs.last(), BlockLocalRef { block: fid, local: (fs.len() - 1) as usize }, sid, cmap)
    }
}

pub open spec fn mod_ren(l: ModLocalView, from: BlockLocalRef, to: BlockLocalRef) -> ModLocalView {
    match l {
        ModLocalView::Void(v) => ModLocalView::Void(ren_void(v, from, to)),
        ModLocalView::Typed(o) => ModLocalView::Typed(ren_op(o, from, to)),
        ModLocalView::Untyped(o) => ModLocalView::Untyped(ren_untyped(o, from, to)),
    }
}

/// `l` renumbered by each pair of `rens`, the last pair first, so that a
/// local moved twice ends where it was moved last.
pub open spec fn apply_rens(l: ModLocalView, rens: Seq<(BlockLocalRef, BlockLocalRef)>) -> ModLocalView
    decreases rens.len(),
{
    if rens.len() == 0 {
        l
    } else {
        apply_rens(mod_ren(l, rens.last().0, rens.last().1), rens.drop_last())
    }
}

/// The module block's locals, given its parts.
pub open spec fn module_locals(
    types: Seq<BlockLocal<OpVoid, OpExprUntyped>>,
    tid: BlockId,
    consts: Seq<BlockLocal<OpVoid, OpExpr>>,
    cid: BlockId,
    cmap: Seq<(Constant, BlockLocalRef)>,
    fs: Seq<FlatFunctionView>,
    fid: BlockId,
    sid: BlockId,
) -> Seq<ModLocalView> {
    let st = sew_functions(sew_consts(sew_types(prelude(), types, tid, sid), consts, cid, sid), fs, fid, sid, cmap);
    st.locals.map_values(|l: ModLocalView| apply_rens(l, st.rens))
}


// ---------------------------------------------------------------------------
// Sewing, executable.
// ---------------------------------------------------------------------------

pub open spec fn sew_state(b: BlockBuilder<OpVoid, OpAnyValued>, rens: Seq<(BlockLocalRef, BlockLocalRef)>) -> SewState {
    SewState { locals: mod_locals_view(b.locals@), rens }
}

proof fn lemma_mod_push(s: Seq<BlockLocal<OpVoid, OpAnyValued>>, x: BlockLocal<OpVoid, OpAnyValued>)
    ensures
        mod_locals_view(s.push(x)) == mod_locals_view(s).push(mod_local_view(x)),
{
    assert(mod_locals_view(s.push(x)) =~= mod_locals_view(s).push(mod_local_view(x)));
}

fn put_void(b: &mut BlockBuilder<OpVoid, OpAnyValued>, v: OpVoid)
    ensures
        final(b).id == old(b).id,
        mod_locals_view(final(b).locals@) == mod_locals_view(old(b).locals@).push(ModLocalView::Void(v)),
{
    let ghost s0 = b.locals@;
    b.push_void_local(v);
    proof {
        lemma_mod_push(s0, BlockLocal::Void(v));
    }
}

fn put_valued(b: &mut BlockBuilder<OpVoid, OpAnyValued>, x: OpAnyValued) -> (r: BlockLocalRef)
    ensures
        final(b).id == old(b).id,
        mod_locals_view(final(b).locals@) == mod_locals_view(old(b).locals@).push(mod_local_view(BlockLocal::Valued(x))),
        r == here(sew_state(*old(b), Seq::empty()), old(b).id),
{
    let ghost s0 = b.locals@;
    let r = b.push_valued_local(x);
    proof {
        lemma_mod_push(s0, BlockLocal::Valued(x));
    }
    r
}

fn sew_types_exec(
    b: &mut BlockBuilder<OpVoid, OpAnyValued>,
    rens: &mut Vec<(BlockLocalRef, BlockLocalRef)>,
    types: &Block<OpVoid, OpExprUntyped, ()>,
)
    ensures
        final(b).id == old(b).id,
        sew_state(*final(b), final(rens)@) == sew_types(sew_state(*old(b), old(rens)@), types.locals@, types.id, old(b).id),
{
    let tid = types.id;
    let ghost orig = types.locals@;
    let ghost st0 = sew_state(*b, rens@);
    let ghost sid = b.id;
    let mut i: usize = 0;
    assert(orig.take(0) =~= Seq::<BlockLocal<OpVoid, OpExprUntyped>>::empty());
    while i < types.locals.len()
        invariant
            orig == types.locals@,
            i <= orig.len(),
            b.id == sid,
            sew_state(*b, rens@) == sew_types(st0, orig.take(i as int), tid, sid),
        decreases orig.len() - i,
    {
        proof {
            assert(orig.take(i + 1).drop_last() =~= orig.take(i as int));
            assert(orig.take(i + 1).last() == orig[i as int]);
        }
        match &types.locals[i] {
            BlockLocal::Valued(x) => {
                let r = put_valued(b, OpAnyValued::Untyped(copy_untyped(x)));
                rens.push((BlockLocalRef { block: tid, local: i }, r));
            },
            BlockLocal::Void(v) => {
                put_void(b, *v);
            },
        }
        i += 1;
    }
    assert(orig.take(orig.len() as int) =~= orig);
}

fn sew_consts_exec(
    b: &mut BlockBuilder<OpVoid, OpAnyValued>,
    rens: &mut Vec<(BlockLocalRef, BlockLocalRef)>,
    consts: &Block<OpVoid, OpExpr, ()>,
)
    ensures
        final(b).id == old(b).id,
        sew_state(*final(b), final(rens)@) == sew_consts(sew_state(*old(b), old(rens)@), consts.locals@, consts.id, old(b).id),
{
    let cid = consts.id;
    let ghost orig = consts.locals@;
    let ghost st0 = sew_state(*b, rens@);
    let ghost sid = b.id;
    let mut i: usize = 0;
    assert(orig.take(0) =~= Seq::<BlockLocal<OpVoid, OpExpr>>::empty());
    while i < consts.locals.len()
        invariant
            orig == consts.locals@,
            i <= orig.len(),
            b.id == sid,
            sew_state(*b, rens@) == sew_consts(st0, orig.take(i as int), cid, sid),
        decreases orig.len() - i,
    {
        proof {
            assert(orig.take(i + 1).drop_last() =~= orig.take(i as int));
            assert(orig.take(i + 1).last() == orig[i as int]);
        }
        match &consts.locals[i] {
            BlockLocal::Valued(o) => {
                let r = put_valued(b, OpAnyValued::Typed(copy_op(o)));
                rens.push((BlockLocalRef { block: cid, local: i }, r));
            },
            BlockLocal::Void(v) => {
                put_void(b, *v);
            },
        }
        i += 1;
    }
    assert(orig.take(orig.len() as int) =~= orig);
}

/// Whether the value of constant `c` has a local in `cmap`.
pub open spec fn has_local(cmap: Seq<(Constant, BlockLocalRef)>, c: ConstantView) -> bool {
    exists|i: int| 0 <= i < cmap.len() && same_constant_view(constant_view(#[trigger] cmap[i].0), c)
}

/// Whether the value of every constant of `cs` has a local in `cmap`.
pub open spec fn covers(cmap: Seq<(Constant, BlockLocalRef)>, cs: Seq<ConstantView>) -> bool {
    forall|k: int| 0 <= k < cs.len() ==> has_local(cmap, #[trigger] cs[k])
}

fn find_const(cmap: &Vec<(Constant, BlockLocalRef)>, c: &Constant) -> (r: BlockLocalRef)
    requires
        has_local(cmap@, constant_view(*c)),
        cmap_unique(cmap@),
    ensures
        r == const_ref(cmap@, constant_view(*c)),
{
    let mut i: usize = 0;
    while i < cmap.len()
        invariant
            i <= cmap@.len(),
            forall|k: int| 0 <= k < i ==> !same_constant_view(constant_view(cmap@[k].0), constant_view(*c)),
            has_local(cmap@, constant_view(*c)),
            cmap_unique(cmap@),
        decreases cmap@.len() - i,
    {
        if same_constant(&cmap[i].0, c) {
            let ghost w = choose|k: int|
                0 <= k < cmap@.len() && same_constant_view(constant_view(cmap@[k].0), constant_view(*c));
            assert(w == i) by {
                if w > i {
                    assert(!same_constant_view(constant_view(cmap@[i as int].0), constant_view(cmap@[w].0)));
                }
            }
            return cmap[i].1;
        }
        i += 1;
    }
    assert(false);
    cmap[0].1
}


/// No value has two locals in `cmap`.
pub open spec fn cmap_unique(cmap: Seq<(Constant, BlockLocalRef)>) -> bool {
    forall|a: int, b: int|
        0 <= a < b < cmap.len() ==> !same_constant_view(constant_view(cmap[a].0), constant_view(cmap[b].0))
}

/// The constants a function uses.
pub open spec fn function_constants(f: FlatFunctionView) -> Seq<ConstantView> {
    local_constants(f.locals) + match f.terminal {
        Some(FlatExprView::Constant(c)) => seq![c],
        _ => Seq::empty(),
    }
}

proof fn lemma_local_constants_prefix(ls: Seq<FlatLocalView>, j: int)
    requires
        0 <= j < ls.len(),
        ls[j] matches FlatLocalView::Valued(FlatExprView::Constant(_)),
    ensures
        local_constants(ls).contains(ls[j]->Valued_0->Constant_0),
    decreases ls.len(),
{
    if j < ls.len() - 1 {
        lemma_local_constants_prefix(ls.drop_last(), j);
        let c = ls[j]->Valued_0->Constant_0;
        let k = choose|k: int| 0 <= k < local_constants(ls.drop_last()).len() && local_constants(ls.drop_last())[k] == c;
        assert(local_constants(ls)[k] == c);
    } else {
        assert(local_constants(ls).last() == ls[j]->Valued_0->Constant_0);
    }
}

fn sew_function_exec(
    b: &mut BlockBuilder<OpVoid, OpAnyValued>,
    rens: &mut Vec<(BlockLocalRef, BlockLocalRef)>,
    f: &FlatFunction,
    fref: BlockLocalRef,
    cmap: &Vec<(Constant, BlockLocalRef)>,
)
    requires
        cmap_unique(cmap@),
        covers(cmap@, function_constants(flat_function_view(*f))),
    ensures
        final(b).id == old(b).id,
        sew_state(*final(b), final(rens)@) == sew_function(
            sew_state(*old(b), old(rens)@),
            flat_function_view(*f),
            fref,
            old(b).id,
            cmap@,
        ),
{
    let ghost fv = flat_function_view(*f);
    let ghost sid = b.id;
    let args = f.ty.args.clone();
    proof {
        types::lemma_types_view(args@);
        types::lemma_types_view(f.ty.args@);
        assert(types::types_view(args@) =~= types::types_view(f.ty.args@));
    }
    let fn_ty = Type::Function(types::Function { args, result: Box::new(type_copy(&f.ty.result)) });
    let r0 = put_valued(
        b,
        OpAnyValued::Typed(OpExpr::Function { ret_type: type_copy(&f.ty.result), function_type: fn_ty }),
    );
    rens.push((fref, r0));
    let ghost st1 = sew_state(*b, rens@);
    let id = f.body.id;
    let ghost orig = f.body.locals@;
    let ghost lv = fv.locals;
    let mut j: usize = 0;
    assert(flat_locals_view(orig).take(0) =~= Seq::<FlatLocalView>::empty());
    while j < f.body.locals.len()
        invariant
            orig == f.body.locals@,
            j <= orig.len(),
            b.id == sid,
            lv == flat_locals_view(orig),
            cmap_unique(cmap@),
            covers(cmap@, function_constants(fv)),
            fv == flat_function_view(*f),
            fv.locals == lv,
            fv.id == id,
            sew_state(*b, rens@) == sew_body(st1, id, lv.take(j as int), sid, cmap@),
        decreases orig.len() - j,
    {
        proof {
            assert(lv.take(j + 1).drop_last() =~= lv.take(j as int));
            assert(lv.take(j + 1).last() == flat_local_view(orig[j as int]));
        }
        let r = BlockLocalRef { block: id, local: j };
        match &f.body.locals[j] {
            BlockLocal::Void(v) => {
                put_void(b, *v);
            },
            BlockLocal::Valued(FlatBlockLocalExpr::Op(o)) => {
                let x = put_valued(b, OpAnyValued::Typed(copy_op(o)));
                rens.push((r, x));
            },
            BlockLocal::Valued(FlatBlockLocalExpr::OpUntyped(o)) => {
                let x = put_valued(b, OpAnyValued::Untyped(copy_untyped(o)));
                rens.push((r, x));
            },
            BlockLocal::Valued(FlatBlockLocalExpr::Constant(c)) => {
                proof {
                    lemma_local_constants_prefix(lv, j as int);
                    let w = choose|w: int| 0 <= w < local_constants(lv).len() && local_constants(lv)[w] == constant_view(*c);
                    assert(function_constants(fv)[w] == constant_view(*c));
                }
                let x = find_const(cmap, c);
                rens.push((r, x));
            },
            BlockLocal::Valued(FlatBlockLocalExpr::Ref(x)) => {
                rens.push((r, *x));
            },
        }
        j += 1;
    }
    assert(lv.take(lv.len() as int) =~= lv);
    match &f.body.terminal {
        None => {
            put_void(b, OpVoid::Return);
        },
        Some(FlatBlockLocalExpr::Op(o)) => {
            let x = put_valued(b, OpAnyValued::Typed(copy_op(o)));
            put_void(b, OpVoid::ReturnValue { value: x });
        },
        Some(FlatBlockLocalExpr::OpUntyped(o)) => {
            let x = put_valued(b, OpAnyValued::Untyped(copy_untyped(o)));
            put_void(b, OpVoid::ReturnValue { value: x });
        },
        Some(FlatBlockLocalExpr::Constant(c)) => {
            proof {
                let k = local_constants(lv).len() as int;
                assert(function_constants(fv)[k] == constant_view(*c));
            }
            let x = find_const(cmap, c);
            put_void(b, OpVoid::ReturnValue { value: x });
        },
        Some(FlatBlockLocalExpr::Ref(x)) => {
            put_void(b, OpVoid::ReturnValue { value: *x });
        },
    }
    put_void(b, OpVoid::FunctionEnd);
}

fn mod_renumber(l: BlockLocal<OpVoid, OpAnyValued>, from: BlockLocalRef, to: BlockLocalRef) -> (r: BlockLocal<
    OpVoid,
    OpAnyValued,
>)
    ensures
        mod_local_view(r) == mod_ren(mod_local_view(l), from, to),
{
    match l {
        BlockLocal::Void(v) => BlockLocal::Void(renumber_void(v, from, to)),
        BlockLocal::Valued(OpAnyValued::Typed(o)) => BlockLocal::Valued(OpAnyValued::Typed(renumber_op(o, from, to))),
        BlockLocal::Valued(OpAnyValued::Untyped(o)) => BlockLocal::Valued(
            OpAnyValued::Untyped(renumber_untyped(o, from, to)),
        ),
    }
}

fn apply_rens_exec(l: BlockLocal<OpVoid, OpAnyValued>, rens: &Vec<(BlockLocalRef, BlockLocalRef)>) -> (r: BlockLocal<
    OpVoid,
    OpAnyValued,
>)
    ensures
        mod_local_view(r) == apply_rens(mod_local_view(l), rens@),
{
    let mut cur = l;
    let mut k = rens.len();
    assert(rens@.take(k as int) =~= rens@);
    while k > 0
        invariant
            k <= rens@.len(),
            apply_rens(mod_local_view(cur), rens@.take(k as int)) == apply_rens(mod_local_view(l), rens@),
        decreases k,
    {
        assert(rens@.take(k as int).drop_last() =~= rens@.take(k - 1));
        let (from, to) = rens[k - 1];
        cur = mod_renumber(cur, from, to);
        k -= 1;
    }
    assert(rens@.take(0) =~= Seq::<(BlockLocalRef, BlockLocalRef)>::empty());
    cur
}

/// The finished module block, every operand moved to where its local ended.
fn finish_module(b: BlockBuilder<OpVoid, OpAnyValued>, rens: &Vec<(BlockLocalRef, BlockLocalRef)>) -> (r: Block<
    OpVoid,
    OpAnyValued,
    (),
>)
    ensures
        r.id == b.id,
        mod_locals_view(r.locals@) == mod_locals_view(b.locals@).map_values(|l: ModLocalView| apply_rens(l, rens@)),
{
    broadcast use vstd::std_specs::vec::axiom_spec_into_iter;

    let id = b.id;
    let ghost orig = b.locals@;
    let mut out: Vec<BlockLocal<OpVoid, OpAnyValued>> = Vec::new();
    for l in it: b.locals.into_iter()
        invariant
            it.seq() == orig,
            out@.len() == it.index(),
            forall|k: int| 0 <= k < it.index() ==> mod_local_view(#[trigger] out@[k]) == apply_rens(
                mod_local_view(orig[k]),
                rens@,
            ),
    {
        out.push(apply_rens_exec(l, rens));
    }
    let r = Block { id, locals: out, terminal: () };
    assert(mod_locals_view(r.locals@) =~= mod_locals_view(orig).map_values(|l: ModLocalView| apply_rens(l, rens@)));
    r
}

// ---------------------------------------------------------------------------
// Collecting what the functions use.
// ---------------------------------------------------------------------------

fn op_ret_type_exec(o: &OpExpr) -> (r: Type)
    ensures
        r@ == op_ret_type(op_view(*o)),
{
    match o {
        OpExpr::Binary { ret_type, .. } => type_copy(ret_type),
        OpExpr::Variable { ret_type, .. } => type_copy(ret_type),
        OpExpr::FunctionParameter { ret_type } => type_copy(ret_type),
        OpExpr::Constant { ret_type, .. } => type_copy(ret_type),
        OpExpr::ConstantTrue { ret_type } => type_copy(ret_type),
        OpExpr::ConstantFalse { ret_type } => type_copy(ret_type),
        OpExpr::Function { ret_type, .. } => type_copy(ret_type),
    }
}

pub open spec fn flat_functions_view(fs: Seq<FlatFunction>) -> Seq<FlatFunctionView> {
    fs.map_values(|f: FlatFunction| flat_function_view(f))
}

/// The result types of the instructions of the functions' locals.
fn collect_types(fs: &Vec<FlatFunction>) -> (r: Vec<Type>)
    ensures
        types::types_view(r@) == op_types(flat_functions_view(fs@)),
{
    let ghost fv = flat_functions_view(fs@);
    let mut out: Vec<Type> = Vec::new();
    let mut i: usize = 0;
    proof {
        types::lemma_types_view(out@);
        assert(types::types_view(out@) =~= Seq::<TypeView>::empty());
        assert(fv.take(0) =~= Seq::<FlatFunctionView>::empty());
    }
    while i < fs.len()
        invariant
            i <= fs@.len(),
            fv == flat_functions_view(fs@),
            types::types_view(out@) == op_types(fv.take(i as int)),
        decreases fs@.len() - i,
    {
        let ghost start = types::types_view(out@);
        let ls = &fs[i].body.locals;
        let ghost lv = flat_locals_view(ls@);
        let mut j: usize = 0;
        assert(lv.take(0) =~= Seq::<FlatLocalView>::empty());
        assert(start + local_op_types(lv.take(0)) =~= start);
        while j < ls.len()
            invariant
                j <= ls@.len(),
                lv == flat_locals_view(ls@),
                types::types_view(out@) == start + local_op_types(lv.take(j as int)),
            decreases ls@.len() - j,
        {
            proof {
                assert(lv.take(j + 1).drop_last() =~= lv.take(j as int));
                assert(lv.take(j + 1).last() == flat_local_view(ls@[j as int]));
            }
            let ghost before = out@;
            match &ls[j] {
                BlockLocal::Valued(FlatBlockLocalExpr::Op(o)) => {
                    let t = op_ret_type_exec(o);
                    out.push(t);
                    proof {
                        types::lemma_types_view(before);
                        types::lemma_types_view(out@);
                        assert(types::types_view(out@) =~= types::types_view(before).push(t@));
                        assert(types::types_view(out@) =~= start + local_op_types(lv.take(j + 1)));
                    }
                },
                _ => {
                    assert(types::types_view(out@) =~= start + local_op_types(lv.take(j + 1)));
                },
            }
            j += 1;
        }
        proof {
            assert(lv.take(ls@.len() as int) =~= lv);
            assert(fv.take(i + 1).drop_last() =~= fv.take(i as int));
            assert(fv.take(i + 1).last() == flat_function_view(fs@[i as int]));
            assert(types::types_view(out@) =~= op_types(fv.take(i + 1)));
        }
        i += 1;
    }
    assert(fv.take(fs@.len() as int) =~= fv);
    out
}


pub open spec fn consts_view(cs: Seq<Constant>) -> Seq<ConstantView> {
    cs.map_values(|c: Constant| constant_view(c))
}

proof fn lemma_distinct_push(s: Seq<ConstantView>, x: ConstantView)
    ensures
        distinct(s.push(x)) == if has_same(distinct(s), x) {
            distinct(s)
        } else {
            distinct(s).push(x)
        },
{
    assert(s.push(x).drop_last() =~= s);
}

fn push_distinct(out: &mut Vec<Constant>, c: Constant)
    ensures
        consts_view(final(out)@) == if has_same(consts_view(old(out)@), constant_view(c)) {
            consts_view(old(out)@)
        } else {
            consts_view(old(out)@).push(constant_view(c))
        },
{
    let mut i: usize = 0;
    while i < out.len()
        invariant
            i <= out@.len(),
            forall|k: int| 0 <= k < i ==> !same_constant_view(constant_view(out@[k]), constant_view(c)),
        decreases out@.len() - i,
    {
        if same_constant(&out[i], &c) {
            assert(same_constant_view(consts_view(out@)[i as int], constant_view(c)));
            return;
        }
        i += 1;
    }
    let ghost before = out@;
    assert(!has_same(consts_view(before), constant_view(c))) by {
        if has_same(consts_view(before), constant_view(c)) {
            let k = choose|k: int|
                0 <= k < consts_view(before).len() && same_constant_view(#[trigger] consts_view(before)[k], constant_view(c));
            assert(constant_view(before[k]) == consts_view(before)[k]);
        }
    }
    out.push(c);
    assert(consts_view(out@) =~= consts_view(before).push(constant_view(c)));
}

/// The constants the functions use, each once, in order of first use.
fn collect_constants(fs: &Vec<FlatFunction>) -> (r: Vec<Constant>)
    ensures
        consts_view(r@) == distinct(used_constants(flat_functions_view(fs@))),
{
    let ghost fv = flat_functions_view(fs@);
    let mut out: Vec<Constant> = Vec::new();
    let mut i: usize = 0;
    assert(consts_view(out@) =~= Seq::<ConstantView>::empty());
    assert(fv.take(0) =~= Seq::<FlatFunctionView>::empty());
    while i < fs.len()
        invariant
            i <= fs@.len(),
            fv == flat_functions_view(fs@),
            consts_view(out@) == distinct(used_constants(fv.take(i as int))),
        decreases fs@.len() - i,
    {
        let ghost base = used_constants(fv.take(i as int));
        let ls = &fs[i].body.locals;
        let ghost lv = flat_locals_view(ls@);
        let mut j: usize = 0;
        assert(lv.take(0) =~= Seq::<FlatLocalView>::empty());
        assert(base + local_constants(lv.take(0)) =~= base);
        while j < ls.len()
            invariant
                j <= ls@.len(),
                lv == flat_locals_view(ls@),
                consts_view(out@) == distinct(base + local_constants(lv.take(j as int))),
            decreases ls@.len() - j,
        {
            proof {
                assert(lv.take(j + 1).drop_last() =~= lv.take(j as int));
                assert(lv.take(j + 1).last() == flat_local_view(ls@[j as int]));
            }
            match &ls[j] {
                BlockLocal::Valued(FlatBlockLocalExpr::Constant(c)) => {
                    let ghost x = constant_view(*c);
                    proof {
                        assert(base + local_constants(lv.take(j + 1)) =~= (base + local_constants(lv.take(j as int))).push(x));
                        lemma_distinct_push(base + local_constants(lv.take(j as int)), x);
                    }
                    push_distinct(&mut out, copy_constant(c));
                },
                _ => {
                    assert(base + local_constants(lv.take(j + 1)) =~= base + local_constants(lv.take(j as int)));
                },
            }
            j += 1;
        }
        proof {
            assert(lv.take(ls@.len() as int) =~= lv);
            assert(fv.take(i + 1).drop_last() =~= fv.take(i as int));
            assert(fv.take(i + 1).last() == flat_function_view(fs@[i as int]));
        }
        match &fs[i].body.terminal {
            Some(FlatBlockLocalExpr::Constant(c)) => {
                let ghost x = constant_view(*c);
                proof {
                    assert(used_constants(fv.take(i + 1)) =~= (base + local_constants(lv)).push(x));
                    lemma_distinct_push(base + local_constants(lv), x);
                }
                push_distinct(&mut out, copy_constant(c));
            },
            _ => {
                assert(used_constants(fv.take(i + 1)) =~= base + local_constants(lv));
            },
        }
        i += 1;
    }
    assert(fv.take(fs@.len() as int) =~= fv);
    out
}


// ---------------------------------------------------------------------------
// The whole file.
// ---------------------------------------------------------------------------

proof fn lemma_gen_functions_prefix(next: nat, items: Seq<ScopeView<IILItemView>>, fs: Seq<FunctionView>, k: int)
    requires
        gen_functions(next, items, fs) is Some,
        0 <= k <= fs.len(),
    ensures
        gen_functions(next, items, fs.take(k)) is Some,
    decreases fs.len(),
{
    if k == fs.len() {
        assert(fs.take(k) =~= fs);
    } else {
        lemma_gen_functions_prefix(next, items, fs.drop_last(), k);
        assert(fs.drop_last().take(k) =~= fs.take(k));
    }
}

proof fn lemma_distinct(s: Seq<ConstantView>)
    ensures
        forall|a: int, b: int|
            0 <= a < b < distinct(s).len() ==> !same_constant_view(distinct(s)[a], distinct(s)[b]),
        forall|x: ConstantView| s.contains(x) ==> has_same(distinct(s), x),
    decreases s.len(),
{
    if s.len() > 0 {
        lemma_distinct(s.drop_last());
        let d = distinct(s.drop_last());
        if !has_same(d, s.last()) {
            assert forall|a: int, b: int| 0 <= a < b < distinct(s).len() implies !same_constant_view(
                distinct(s)[a],
                distinct(s)[b],
            ) by {
                if b == d.len() {
                    assert(distinct(s)[a] == d[a]);
                    assert(distinct(s)[b] == s.last());
                    if same_constant_view(d[a], s.last()) {
                        assert(has_same(d, s.last()));
                    }
                } else {
                    assert(distinct(s)[a] == d[a]);
                    assert(distinct(s)[b] == d[b]);
                }
            }
        }
        assert forall|x: ConstantView| s.contains(x) implies has_same(distinct(s), x) by {
            let k = choose|k: int| 0 <= k < s.len() && s[k] == x;
            if k < s.len() - 1 {
                assert(s.drop_last()[k] == x);
                assert(s.drop_last().contains(x));
                let w = choose|w: int| 0 <= w < d.len() && same_constant_view(#[trigger] d[w], x);
                assert(distinct(s)[w] == d[w]);
            } else if !has_same(d, x) {
                assert(distinct(s)[d.len() as int] == x);
                assert(same_constant_view(distinct(s)[d.len() as int], x));
            }
        }
    }
}

proof fn lemma_function_constants_used(fs: Seq<FlatFunctionView>, i: int)
    requires
        0 <= i < fs.len(),
    ensures
        forall|k: int| 0 <= k < function_constants(fs[i]).len() ==> used_constants(fs).contains(
            #[trigger] function_constants(fs[i])[k],
        ),
    decreases fs.len(),
{
    assert(used_constants(fs) =~= used_constants(fs.drop_last()) + function_constants(fs.last()));
    if i < fs.len() - 1 {
        lemma_function_constants_used(fs.drop_last(), i);
        assert forall|k: int| 0 <= k < function_constants(fs[i]).len() implies used_constants(fs).contains(
            #[trigger] function_constants(fs[i])[k],
        ) by {
            let x = function_constants(fs[i])[k];
            assert(fs.drop_last()[i] == fs[i]);
            let w = choose|w: int| 0 <= w < used_constants(fs.drop_last()).len() && used_constants(fs.drop_last())[w] == x;
            assert(used_constants(fs)[w] == x);
        }
    } else {
        assert forall|k: int| 0 <= k < function_constants(fs[i]).len() implies used_constants(fs).contains(
            #[trigger] function_constants(fs[i])[k],
        ) by {
            let n = used_constants(fs.drop_last()).len() as int;
            assert(used_constants(fs)[n + k] == function_constants(fs[i])[k]);
        }
    }
}

/// Whether generating the file's functions, from block id `next_id` on,
/// succeeds and leaves enough block ids for flattening them and for the
/// types, constants and module blocks.
pub open spec fn file_gen_ok(next_id: nat, items: Seq<ScopeView<IILItemView>>, gs: Seq<(Seq<char>, Seq<FunctionView>)>) -> bool {
    next_id < u64::MAX && (gen_functions(next_id + 1, items, file_functions(gs)) matches Some((n1, _, hs)) && n1
        + hs.len() + 3 < u64::MAX)
}

pub open spec fn needed_by_views(ts: Seq<TypeView>, x: TypeView) -> bool {
    exists|j: int| 0 <= j < ts.len() && crate::iilgen::needs(ts[j], x)
}

pub open spec fn iil_functions_view(hs: Seq<IilFunction>) -> Seq<IilFunctionView> {
    hs.map_values(|h: IilFunction| iil_function_view(h))
}

/// The file's functions, group after group.
fn gather_functions(file: File) -> (r: Vec<Function>)
    ensures
        functions_view(r@) == file_functions(file@),
{
    broadcast use vstd::std_specs::vec::axiom_spec_into_iter;

    let ghost gs = file@;
    let mut all: Vec<Function> = Vec::new();
    let ghost orig_groups = file.functions@;
    let File { functions } = file;
    assert(gs.take(0) =~= Seq::<(Seq<char>, Seq<FunctionView>)>::empty());
    assert(functions_view(all@) =~= Seq::<FunctionView>::empty());
    for g in it: functions.into_iter()
        invariant
            it.seq() == orig_groups,
            gs == orig_groups.map_values(|g: (String, Vec<Function>)| group_view(g)),
            functions_view(all@) == file_functions(gs.take(it.index())),
    {
        let ghost i = it.index();
        let (_, fs) = g;
        let ghost fs0 = fs@;
        let ghost start = functions_view(all@);
        assert(fs0.take(0) =~= Seq::<Function>::empty());
        assert(start + functions_view(fs0.take(0)) =~= start);
        for f in jt: fs.into_iter()
            invariant
                jt.seq() == fs0,
                functions_view(all@) == start + functions_view(fs0.take(jt.index())),
        {
            let ghost j = jt.index();
            let ghost before = all@;
            proof {
                assert(fs0.take(j + 1) =~= fs0.take(j).push(f));
                assert(functions_view(fs0.take(j + 1)) =~= functions_view(fs0.take(j)).push(f@));
                assert(functions_view(before.push(f)) =~= functions_view(before).push(f@));
            }
            all.push(f);
            assert(functions_view(all@) =~= start + functions_view(fs0.take(j + 1)));
        }
        proof {
            assert(fs0.take(fs0.len() as int) =~= fs0);
            assert(gs.take(i + 1).drop_last() =~= gs.take(i));
            assert(gs.take(i + 1).last() == group_view(orig_groups[i]));
        }
    }
    assert(gs.take(gs.len() as int) =~= gs);
    all
}

/// Generates functions in order.
fn generate_all(all: Vec<Function>, universe: &mut Universe<NamespaceItemIILGeneration>, blockctx: &mut Ctx) -> (r: Vec<
    IilFunction,
>)
    requires
        old(universe).wf(),
        gen_functions(old(blockctx).next_id as nat, iil_items(old(universe)@), functions_view(all@)) is Some,
    ensures
        final(universe).wf(),
        gen_functions(old(blockctx).next_id as nat, iil_items(old(universe)@), functions_view(all@)) == Some(
            (final(blockctx).next_id as nat, iil_items(final(universe)@), iil_functions_view(r@)),
        ),
{
    broadcast use vstd::std_specs::vec::axiom_spec_into_iter;

    let ghost n0 = blockctx.next_id as nat;
    let ghost items0 = iil_items(universe@);
    let ghost ffv = functions_view(all@);
    let mut hs: Vec<IilFunction> = Vec::new();
    let ghost orig_all = all@;
    assert(ffv.take(0) =~= Seq::<FunctionView>::empty());
    assert(iil_functions_view(hs@) =~= Seq::<IilFunctionView>::empty());
    for f in it: all.into_iter()
        invariant
            it.seq() == orig_all,
            ffv == functions_view(orig_all),
            gen_functions(n0, items0, ffv) is Some,
            universe.wf(),
            gen_functions(n0, items0, ffv.take(it.index())) == Some(
                (blockctx.next_id as nat, iil_items(universe@), iil_functions_view(hs@)),
            ),
    {
        let ghost i = it.index();
        proof {
            lemma_gen_functions_prefix(n0, items0, ffv, i + 1);
            assert(ffv.take(i + 1).drop_last() =~= ffv.take(i));
            assert(ffv.take(i + 1).last() == orig_all[i]@);
        }
        let h = process_function(f, universe, blockctx);
        proof {
            assert(iil_functions_view(hs@.push(h)) =~= iil_functions_view(hs@).push(iil_function_view(h)));
        }
        hs.push(h);
    }
    assert(ffv.take(ffv.len() as int) =~= ffv);
    hs
}

/// Flattens each function into a block of its own, with consecutive ids.
fn flatten_all(hs: Vec<IilFunction>, blockctx: &mut Ctx) -> (r: Vec<FlatFunction>)
    requires
        old(blockctx).next_id + hs@.len() < u64::MAX,
    ensures
        final(blockctx).next_id == old(blockctx).next_id + hs@.len(),
        r@.len() == hs@.len(),
        forall|k: int| 0 <= k < hs@.len() ==> #[trigger] flat_functions_view(r@)[k] == flat_of(
            iil_functions_view(hs@)[k],
            BlockId((old(blockctx).next_id + k) as u64),
        ),
{
    broadcast use vstd::std_specs::vec::axiom_spec_into_iter;

    let ghost n1 = blockctx.next_id as nat;
    let ghost hv = iil_functions_view(hs@);
    let mut fl: Vec<FlatFunction> = Vec::new();
    let ghost orig_hs = hs@;
    for h in it: hs.into_iter()
        invariant
            it.seq() == orig_hs,
            hv == iil_functions_view(orig_hs),
            n1 + hv.len() < u64::MAX,
            blockctx.next_id == n1 + it.index(),
            fl@.len() == it.index(),
            forall|k: int| 0 <= k < it.index() ==> #[trigger] flat_function_view(fl@[k]) == flat_of(
                hv[k],
                BlockId((n1 + k) as u64),
            ),
    {
        let IilFunction { ty, body } = h;
        let body = flatten(body, blockctx);
        fl.push(FlatFunction { ty, body });
    }
    fl
}

/// The module block: the prelude, the types, the constants and the
/// functions, every operand moved to where its local ended up.
fn sew_module(
    types: &Block<OpVoid, OpExprUntyped, ()>,
    constants: &Block<OpVoid, OpExpr, ()>,
    constant_map: &Vec<(Constant, BlockLocalRef)>,
    fl: &Vec<FlatFunction>,
    fid: BlockId,
    blockctx: &mut Ctx,
) -> (r: Block<OpVoid, OpAnyValued, ()>)
    requires
        old(blockctx).next_id < u64::MAX,
        cmap_unique(constant_map@),
        forall|i: int| 0 <= i < fl@.len() ==> covers(constant_map@, function_constants(#[trigger] flat_functions_view(fl@)[i])),
    ensures
        final(blockctx).next_id == old(blockctx).next_id + 1,
        r.id == BlockId(old(blockctx).next_id),
        mod_locals_view(r.locals@) == module_locals(
            types.locals@,
            types.id,
            constants.locals@,
            constants.id,
            constant_map@,
            flat_functions_view(fl@),
            fid,
            r.id,
        ),
{
    let ghost flv = flat_functions_view(fl@);
    let mut b: BlockBuilder<OpVoid, OpAnyValued> = blockctx.start_block();
    let ghost sid = b.id;
    let mut rens: Vec<(BlockLocalRef, BlockLocalRef)> = Vec::new();
    assert(mod_locals_view(b.locals@) =~= Seq::<ModLocalView>::empty());
    put_void(&mut b, OpVoid::Capability { capability: 1 });
    let glsl = String::from_str("GLSL.std.450");
    put_valued(&mut b, OpAnyValued::Untyped(OpExprUntyped::ExtInstImport { name: glsl }));
    put_void(&mut b, OpVoid::MemoryModel { addressing: 0, memory: 1 });
    assert(mod_locals_view(b.locals@) =~= prelude().locals);
    assert(rens@ =~= prelude().rens);
    sew_types_exec(&mut b, &mut rens, types);
    sew_consts_exec(&mut b, &mut rens, constants);
    let ghost st_c = sew_state(b, rens@);
    let mut i: usize = 0;
    assert(flv.take(0) =~= Seq::<FlatFunctionView>::empty());
    while i < fl.len()
        invariant
            i <= fl@.len(),
            flv == flat_functions_view(fl@),
            b.id == sid,
            cmap_unique(constant_map@),
            forall|i: int| 0 <= i < fl@.len() ==> covers(constant_map@, function_constants(#[trigger] flat_functions_view(fl@)[i])),
            sew_state(b, rens@) == sew_functions(st_c, flv.take(i as int), fid, sid, constant_map@),
        decreases fl@.len() - i,
    {
        proof {
            assert(flv.take(i + 1).drop_last() =~= flv.take(i as int));
            assert(flv.take(i + 1).last() == flv[i as int]);
        }
        sew_function_exec(&mut b, &mut rens, &fl[i], BlockLocalRef { block: fid, local: i }, constant_map);
        i += 1;
    }
    assert(flv.take(fl@.len() as int) =~= flv);
    finish_module(b, &rens)
}

/// What processing the file `gs` gives, from block id `fid` on and with the
/// names' items `items0`: its functions generated and flattened, the types
/// and the constants they use declared, and the module sewn together.
pub open spec fn file_processed(
    gs: Seq<(Seq<char>, Seq<FunctionView>)>,
    items0: Seq<ScopeView<IILItemView>>,
    fid: nat,
    r: Module,
) -> bool {
    let (n1, items1, hs) = gen_functions(fid + 1, items0, file_functions(gs))->0;
    let fl = flat_functions_view(r.functions@);
    &&& fl.len() == hs.len()
    &&& forall|i: int| 0 <= i < hs.len() ==> #[trigger] fl[i] == flat_of(hs[i], BlockId((n1 + i) as u64))
    &&& r.types.id == BlockId((n1 + hs.len()) as u64)
    &&& emit_wf(r.type_map@, r.types.locals@, r.types.id)
    &&& forall|k: int| 0 <= k < op_types(fl).len() ==> emitted(r.type_map@).contains(#[trigger] op_types(fl)[k])
    &&& forall|k: int| 0 <= k < r.type_map@.len() ==> needed_by_views(op_types(fl), #[trigger] emitted(r.type_map@)[k])
    &&& r.constants.id == BlockId((n1 + hs.len() + 1) as u64)
    &&& r.constants.locals@.len() == r.constant_map@.len()
    &&& r.constant_map@.map_values(|p: (Constant, BlockLocalRef)| constant_view(p.0)) == distinct(used_constants(fl))
    &&& forall|i: int|
        0 <= i < r.constant_map@.len() ==> (#[trigger] r.constant_map@[i]).1 == (BlockLocalRef {
            block: r.constants.id,
            local: i as usize,
        })
    &&& forall|i: int|
        0 <= i < r.constants.locals@.len() ==> ((#[trigger] r.constants.locals@[i]) matches BlockLocal::Valued(o) && op_view(o)
            == constant_op(distinct(used_constants(fl))[i]))
    &&& r.module.id == BlockId((n1 + hs.len() + 2) as u64)
    &&& mod_locals_view(r.module.locals@) == module_locals(
        r.types.locals@,
        r.types.id,
        r.constants.locals@,
        r.constants.id,
        r.constant_map@,
        fl,
        BlockId(fid as u64),
        r.module.id,
    )
}

/// Generates a file's intermediate code: every function, flattened; the
/// types and constants they use; and the module block holding it all.
#[verifier::spinoff_prover]
#[verifier::rlimit(60)]
pub fn process_file(file: File, universe: &mut Universe<NamespaceItemIILGeneration>, blockctx: &mut Ctx) -> (r: Module)
    requires
        old(universe).wf(),
        file_gen_ok(old(blockctx).next_id as nat, iil_items(old(universe)@), file@),
    ensures
        final(universe).wf(),
        file_processed(file@, iil_items(old(universe)@), old(blockctx).next_id as nat, r),
        ({
            let (n1, items1, hs) = gen_functions(
                old(blockctx).next_id as nat + 1,
                iil_items(old(universe)@),
                file_functions(file@),
            )->0;
            &&& iil_items(final(universe)@) == items1
            &&& final(blockctx).next_id == n1 + hs.len() + 3
        }),
{
    let fid = blockctx.new_id();
    let all = gather_functions(file);
    let hs = generate_all(all, universe, blockctx);
    let fl = flatten_all(hs, blockctx);
    let ghost flv = flat_functions_view(fl@);
    let tys = collect_types(&fl);
    let (types, type_map) = types_to_asm(tys, blockctx);
    proof {
        types::lemma_types_view(tys@);
        assert forall|k: int| 0 <= k < type_map@.len() implies needed_by_views(op_types(flv), #[trigger] emitted(type_map@)[k]) by {
            assert(needed_by(tys@, tys@.len() as int, emitted(type_map@)[k]));
            let j = choose|j: int| 0 <= j < tys@.len() && crate::iilgen::needs(tys@[j]@, emitted(type_map@)[k]);
            assert(op_types(flv)[j] == tys@[j]@);
        }
        assert forall|k: int| 0 <= k < op_types(flv).len() implies emitted(type_map@).contains(#[trigger] op_types(flv)[k]) by {
            assert(op_types(flv)[k] == tys@[k]@);
        }
    }
    let consts = collect_constants(&fl);
    let ghost cv = consts_view(consts@);
    let (constants, constant_map) = constants_to_asm(consts, blockctx);
    proof {
        lemma_distinct(used_constants(flv));
        assert(constant_map@.map_values(|p: (Constant, BlockLocalRef)| constant_view(p.0)) =~= cv);
        assert forall|a: int, b: int| 0 <= a < b < constant_map@.len() implies !same_constant_view(
            constant_view(constant_map@[a].0),
            constant_view(constant_map@[b].0),
        ) by {
            assert(constant_view(constant_map@[a].0) == cv[a]);
            assert(constant_view(constant_map@[b].0) == cv[b]);
        }
        assert forall|i: int| 0 <= i < fl@.len() implies covers(constant_map@, function_constants(#[trigger] flat_functions_view(fl@)[i])) by {
            lemma_function_constants_used(flv, i);
            let fc = function_constants(flv[i]);
            assert(flat_functions_view(fl@)[i] == flv[i]);
            assert forall|k: int| 0 <= k < fc.len() implies has_local(constant_map@, #[trigger] fc[k]) by {
                let x = fc[k];
                assert(used_constants(flv).contains(x));
                assert(has_same(distinct(used_constants(flv)), x));
                let w = choose|w: int|
                    0 <= w < distinct(used_constants(flv)).len() && same_constant_view(
                        #[trigger] distinct(used_constants(flv))[w],
                        x,
                    );
                assert(cv[w] == distinct(used_constants(flv))[w]);
                assert(constant_view(constant_map@[w].0) == cv[w]);
                assert(same_constant_view(constant_view(constant_map@[w].0), x));
            }
            assert(covers(constant_map@, fc));
        }
    }
    let module = sew_module(&types, &constants, &constant_map, &fl, fid, blockctx);
    Module { functions: fl, types, type_map, constants, constant_map, module }
}

} // verus!
