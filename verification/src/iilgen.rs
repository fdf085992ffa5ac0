//! Generating intermediate code from a typed file.
//!
//! An expression is turned into the locals it needs, pushed into the block
//! being built, and a local standing for the expression itself, which the
//! caller pushes (or not).  Literals become constants, variables references
//! to the local that holds them, arithmetic an instruction on the locals of
//! its operands, a declaration a variable, its value and a store, and a
//! block a nested block.
use vstd::prelude::*;
use crate::ast::{
    Function, FunctionData, FunctionView, ArgView, args_view, arg_view, Expr, ExprData, ExprView, ExprDataView, Block as AstBlock, InfixOp, LiteralInt, LiteralFloat, expr_view, exprs_view, lemma_exprs_view,
    lemma_exprs_view_push,
};
use crate::block::{Block, BlockBuilder, BlockLocal, BlockLocalRef, BlockId, Ctx};
use crate::compiler::NamespaceItemIILGeneration;
use crate::iil::{
    BinaryOp, Constant, ConstantView, OpExpr, OpExprView, OpExprUntyped, OpVoid, BlockLocalExpr, HExprView,
    HLocalView, HBlockView, hexpr_view, hlocal_view, hlocals_view, hblock_view, op_view, constant_view,
    lemma_hlocals_view, FlatBlockLocalExpr, FlatExprView, FlatLocalView, flat_view, flat_local_view,
    flat_locals_view, ren_ref, ren_op, ren_untyped, ren_void, ren_hexpr, ren_hlocal, ren_hlocals, ren_hblock,
    ren_all_hlocal, ren_all_hexpr, hsize_expr, hsize_local, hsize_locals, hsize_block, lemma_ren_all_size_local,
    lemma_ren_all_size_expr, untyped_view, OpUntypedView, copy_constant,
};
use crate::lexer::Spanned;
use crate::scope::{
    Universe, ScopeId, ScopeView, insert_item, lookup_view, defining_scope, lemma_defining_scope, map_scopes,
    lemma_map_scopes_lookup, lemma_map_scopes_insert,
};
use crate::types::{self, Type, TypeView, Concrete, Abstract, Integer, Vector, Matrix, NumberKind, StorageClass, type_copy, type_eq};
use crate::typing::{scope_of, opt_type_view};

verus! {

/// What generation knows of a name: its type and the local holding it.
pub struct IILItemView {
    pub ty: TypeView,
    pub block_ref: Option<BlockLocalRef>,
}

pub open spec fn iil_item_view(it: NamespaceItemIILGeneration) -> IILItemView {
    IILItemView { ty: it.ty@, block_ref: it.block_ref }
}

pub open spec fn iil_item_fn() -> spec_fn(NamespaceItemIILGeneration) -> IILItemView {
    |it: NamespaceItemIILGeneration| iil_item_view(it)
}

pub open spec fn iil_items(u: Seq<ScopeView<NamespaceItemIILGeneration>>) -> Seq<ScopeView<IILItemView>> {
    map_scopes(u, iil_item_fn())
}

/// The state of generation: the locals of the block being built and its id,
/// the next block id, and the names' items.
pub struct GenState {
    pub cur: Seq<HLocalView>,
    pub cur_id: BlockId,
    pub next_id: nat,
    pub items: Seq<ScopeView<IILItemView>>,
}

pub open spec fn push_local(st: GenState, l: HLocalView) -> GenState {
    GenState { cur: st.cur.push(l), cur_id: st.cur_id, next_id: st.next_id, items: st.items }
}

/// The reference the next local pushed in `st` gets.
pub open spec fn next_ref(st: GenState) -> BlockLocalRef {
    BlockLocalRef { block: st.cur_id, local: st.cur.len() as usize }
}

/// The instruction for `op` on operands of type `ty`.
pub open spec fn binary_op(op: InfixOp, ty: Option<TypeView>) -> Option<BinaryOp> {
    match ty {
        Some(TypeView::Concrete(Concrete::Number(NumberKind::Integer(_)))) => match op {
            InfixOp::Add => Some(BinaryOp::IAdd),
            InfixOp::Subtract => Some(BinaryOp::ISub),
            InfixOp::Multiply => Some(BinaryOp::IMul),
            _ => None,
        },
        Some(TypeView::Concrete(Concrete::Number(NumberKind::Float(_)))) => match op {
            InfixOp::Add => Some(BinaryOp::FAdd),
            InfixOp::Subtract => Some(BinaryOp::FSub),
            InfixOp::Multiply => Some(BinaryOp::FMul),
            _ => None,
        },
        _ => None,
    }
}

/// What an infix operator computes from two integers (`None` for the
/// operators that have no integer meaning).
pub open spec fn infix_int_value(op: InfixOp, x: int, y: int) -> Option<int> {
    match op {
        InfixOp::Add => Some(x + y),
        InfixOp::Subtract => Some(x - y),
        InfixOp::Multiply => Some(x * y),
        _ => None,
    }
}

/// What an integer arithmetic instruction computes from its operands, as
/// SPIR-V defines `OpIAdd`, `OpISub` and `OpIMul` (before wrapping); `None`
/// for the float instructions.
pub open spec fn binop_int_value(b: BinaryOp, x: int, y: int) -> Option<int> {
    match b {
        BinaryOp::IAdd => Some(x + y),
        BinaryOp::ISub => Some(x - y),
        BinaryOp::IMul => Some(x * y),
        _ => None,
    }
}

/// The float instruction doing what integer instruction `b` does.
pub open spec fn float_form(b: BinaryOp) -> BinaryOp {
    match b {
        BinaryOp::IAdd => BinaryOp::FAdd,
        BinaryOp::ISub => BinaryOp::FSub,
        BinaryOp::IMul => BinaryOp::FMul,
        _ => b,
    }
}

/// The instruction chosen for an infix operator computes that operator: on
/// an integer type it is an integer instruction whose value on any two
/// operands is the operator's, chosen exactly for the operators that have
/// an integer meaning; on a float type it is the float form of the same
/// instruction; and two different operators on one type never get the same
/// instruction.
pub proof fn law_binary_op_computes(op: InfixOp, op2: InfixOp, w: Integer, f: crate::types::Float, x: int, y: int)
    ensures
        ({
            let ti = Some(TypeView::Concrete(Concrete::Number(NumberKind::Integer(w))));
            let tf = Some(TypeView::Concrete(Concrete::Number(NumberKind::Float(f))));
            &&& (binary_op(op, ti) is Some <==> infix_int_value(op, x, y) is Some)
            &&& (binary_op(op, ti) matches Some(b) ==> binop_int_value(b, x, y) == infix_int_value(op, x, y))
            &&& binary_op(op, tf) == match binary_op(op, ti) {
                Some(b) => Some(float_form(b)),
                None => None,
            }
            &&& (op != op2 && binary_op(op, ti) is Some ==> binary_op(op, ti) != binary_op(op2, ti))
            &&& (op != op2 && binary_op(op, tf) is Some ==> binary_op(op, tf) != binary_op(op2, tf))
        }),
{
}

/// `items` with the name `name`, as found from scope `s`, held by local `r`.
pub open spec fn set_block_ref(items: Seq<ScopeView<IILItemView>>, s: nat, name: Seq<char>, r: BlockLocalRef) -> Seq<
    ScopeView<IILItemView>,
> {
    match defining_scope(items, s, name) {
        Some(d) => insert_item(items, d, name, IILItemView { ty: items[d as int].items[name].ty, block_ref: Some(r) }),
        None => items,
    }
}

/// Generating `e` in state `st`: the state after, and the local standing for
/// `e`; `None` for what generation does not handle (an operator other than
/// `+`, `-`, `*`, or on other than numbers; a name without a local; a name
/// declared twice; running out of block ids).
pub open spec fn gen_expr(st: GenState, e: ExprView) -> Option<(GenState, HLocalView)>
    decreases e, 1int,
{
    match e.data {
        ExprDataView::LiteralInt(t, r, ds, _) => Some((st, HLocalView::Valued(HExprView::Constant(ConstantView::Int(t, r, ds))))),
        ExprDataView::LiteralFloat(f, v, _) => Some((st, HLocalView::Valued(HExprView::Constant(ConstantView::Float(f, v))))),
        ExprDataView::LiteralBool(b, _) => Some((st, HLocalView::Valued(HExprView::Constant(ConstantView::Bool(b))))),
        ExprDataView::InfixOp(l, op, _, r) => match gen_valued(st, *l) {
            Some((st1, lref)) => match gen_valued(st1, *r) {
                Some((st2, rref)) => match binary_op(op, e.sidecar.ty) {
                    Some(bop) => Some(
                        (st2, HLocalView::Valued(HExprView::Op(OpExprView::Binary(bop, e.sidecar.ty->0, lref, rref)))),
                    ),
                    None => None,
                },
                None => None,
            },
            None => None,
        },
        ExprDataView::Var(name, _) => match lookup_view(st.items, scope_of(e), name) {
            Some(item) => match item.block_ref {
                Some(r) => Some((st, HLocalView::Valued(HExprView::Ref(r)))),
                None => None,
            },
            None => None,
        },
        ExprDataView::Declaration(name, _, v) => {
            let s = scope_of(e);
            match lookup_view(st.items, s, name) {
                Some(item) => if item.block_ref is Some {
                    None
                } else {
                    let var_ref = next_ref(st);
                    let st0 = push_local(
                        st,
                        HLocalView::Valued(HExprView::Op(OpExprView::Variable(item.ty, StorageClass::Function))),
                    );
                    let st1 = GenState {
                        cur: st0.cur,
                        cur_id: st0.cur_id,
                        next_id: st0.next_id,
                        items: set_block_ref(st0.items, s, name, var_ref),
                    };
                    match gen_valued(st1, *v) {
                        Some((st2, vref)) => Some(
                            (
                                push_local(st2, HLocalView::Void(OpVoid::Store { pointer: var_ref, object: vref })),
                                HLocalView::Void(OpVoid::Nop),
                            ),
                        ),
                        None => None,
                    }
                },
                None => None,
            }
        },
        ExprDataView::Block(es, last, _) => if st.next_id >= u64::MAX {
            None
        } else {
            let inner = GenState {
                cur: Seq::empty(),
                cur_id: BlockId(st.next_id as u64),
                next_id: st.next_id + 1,
                items: st.items,
            };
            match gen_discard(inner, es) {
                Some(in1) => {
                    let outer = GenState { cur: st.cur, cur_id: st.cur_id, next_id: in1.next_id, items: in1.items };
                    match last {
                        None => Some(
                            (
                                outer,
                                HLocalView::Valued(
                                    HExprView::Block(
                                        Box::new(HBlockView { id: inner.cur_id, locals: in1.cur, terminal: None }),
                                    ),
                                ),
                            ),
                        ),
                        Some(t) => match gen_expr(in1, *t) {
                            Some((in2, HLocalView::Void(v))) => Some(
                                (
                                    GenState {
                                        cur: st.cur.push(HLocalView::Void(v)),
                                        cur_id: st.cur_id,
                                        next_id: in2.next_id,
                                        items: in2.items,
                                    },
                                    HLocalView::Valued(
                                        HExprView::Block(
                                            Box::new(HBlockView { id: inner.cur_id, locals: in2.cur, terminal: None }),
                                        ),
                                    ),
                                ),
                            ),
                            Some((in2, HLocalView::Valued(x))) => Some(
                                (
                                    GenState { cur: st.cur, cur_id: st.cur_id, next_id: in2.next_id, items: in2.items },
                                    HLocalView::Valued(
                                        HExprView::Block(
                                            Box::new(HBlockView { id: inner.cur_id, locals: in2.cur, terminal: Some(x) }),
                                        ),
                                    ),
                                ),
                            ),
                            None => None,
                        },
                    }
                },
                None => None,
            }
        },
    }
}

/// Generating `e`, which must stand for a value, and pushing that value.
pub open spec fn gen_valued(st: GenState, e: ExprView) -> Option<(GenState, BlockLocalRef)>
    decreases e, 2int,
{
    match gen_expr(st, e) {
        Some((st1, HLocalView::Valued(x))) => Some((push_local(st1, HLocalView::Valued(x)), next_ref(st1))),
        _ => None,
    }
}

/// Generating expressions in order, dropping what stands for each.
pub open spec fn gen_discard(st: GenState, es: Seq<ExprView>) -> Option<GenState>
    decreases es, 0int,
{
    if es.len() == 0 {
        Some(st)
    } else {
        proof {
            assert(decreases_to!(es => es.drop_last()));
            assert(decreases_to!(es => es[es.len() - 1]));
        }
        match gen_discard(st, es.drop_last()) {
            Some(st1) => match gen_expr(st1, es.last()) {
                Some((st2, _)) => Some(st2),
                None => None,
            },
            None => None,
        }
    }
}


// ---------------------------------------------------------------------------
// Generation, executable.
// ---------------------------------------------------------------------------

/// The generation state of a builder, a context and a universe.
pub open spec fn gen_state(
    b: BlockBuilder<OpVoid, BlockLocalExpr>,
    ctx: Ctx,
    u: Seq<ScopeView<NamespaceItemIILGeneration>>,
) -> GenState {
    GenState { cur: hlocals_view(b.locals@), cur_id: b.id, next_id: ctx.next_id as nat, items: iil_items(u) }
}

pub proof fn lemma_hlocals_push(s: Seq<BlockLocal<OpVoid, BlockLocalExpr>>, x: BlockLocal<OpVoid, BlockLocalExpr>)
    ensures
        hlocals_view(s.push(x)) == hlocals_view(s).push(hlocal_view(x)),
{
    assert(s.push(x).drop_last() =~= s);
}

proof fn lemma_gen_discard_prefix(st: GenState, es: Seq<ExprView>, k: int)
    requires
        gen_discard(st, es) is Some,
        0 <= k <= es.len(),
    ensures
        gen_discard(st, es.take(k)) is Some,
    decreases es.len(),
{
    if k == es.len() {
        assert(es.take(k) =~= es);
    } else {
        lemma_gen_discard_prefix(st, es.drop_last(), k);
        assert(es.drop_last().take(k) =~= es.take(k));
    }
}

pub(crate) fn binary_op_exec(op: InfixOp, ty: &Option<Type>) -> (r: Option<BinaryOp>)
    ensures
        r == binary_op(op, opt_type_view(*ty)),
{
    match ty {
        Some(Type::Concrete(Concrete::Number(NumberKind::Integer(_)))) => match op {
            InfixOp::Add => Some(BinaryOp::IAdd),
            InfixOp::Subtract => Some(BinaryOp::ISub),
            InfixOp::Multiply => Some(BinaryOp::IMul),
            _ => None,
        },
        Some(Type::Concrete(Concrete::Number(NumberKind::Float(_)))) => match op {
            InfixOp::Add => Some(BinaryOp::FAdd),
            InfixOp::Subtract => Some(BinaryOp::FSub),
            InfixOp::Multiply => Some(BinaryOp::FMul),
            _ => None,
        },
        _ => None,
    }
}

fn scope_or_root(scope: Option<ScopeId>, universe: &Universe<NamespaceItemIILGeneration>) -> (r: ScopeId)
    requires
        universe.wf(),
    ensures
        r.idx() == match scope {
            Some(s) => s.idx(),
            None => 0,
        },
{
    proof {
        universe.lemma_wf();
    }
    match scope {
        Some(s) => s,
        None => universe.root_scope_id(),
    }
}

/// Generates `expr` into `blockbuilder`, and returns the local standing for
/// it (which the caller pushes, or not).
pub fn push_expr_to_block_mostly(
    expr: Expr,
    universe: &mut Universe<NamespaceItemIILGeneration>,
    blockbuilder: &mut BlockBuilder<OpVoid, BlockLocalExpr>,
    blockctx: &mut Ctx,
) -> (r: BlockLocal<OpVoid, BlockLocalExpr>)
    requires
        old(universe).wf(),
        gen_expr(gen_state(*old(blockbuilder), *old(blockctx), old(universe)@), expr@) is Some,
    ensures
        final(universe).wf(),
        final(universe)@.len() == old(universe)@.len(),
        final(blockbuilder).id == old(blockbuilder).id,
        gen_expr(gen_state(*old(blockbuilder), *old(blockctx), old(universe)@), expr@) == Some(
            (gen_state(*final(blockbuilder), *final(blockctx), final(universe)@), hlocal_view(r)),
        ),
    decreases expr, 1int,
{
    let ghost st = gen_state(*blockbuilder, *blockctx, universe@);
    let ghost ev = expr@;
    let Expr { data, sidecar } = expr;
    match data {
        ExprData::LiteralInt(l) => {
            let Spanned { inner: LiteralInt { ty, value }, span: _ } = l;
            BlockLocal::Valued(BlockLocalExpr::Constant(Constant::Int { ty, value }))
        },
        ExprData::LiteralFloat(l) => {
            let Spanned { inner: LiteralFloat { ty, value }, span: _ } = l;
            BlockLocal::Valued(BlockLocalExpr::Constant(Constant::Float { ty, value }))
        },
        ExprData::LiteralBool(l) => BlockLocal::Valued(BlockLocalExpr::Constant(Constant::Bool { value: l.inner })),
        ExprData::InfixOp(l, op, r) => {
            let lref = push_valued(*l, universe, blockbuilder, blockctx);
            let rref = push_valued(*r, universe, blockbuilder, blockctx);
            match binary_op_exec(op.inner, &sidecar.ty) {
                Some(b) => match sidecar.ty {
                    Some(t) => BlockLocal::Valued(
                        BlockLocalExpr::Op(OpExpr::Binary { op: b, ret_type: t, op0: lref, op1: rref }),
                    ),
                    None => {
                        assert(false);
                        BlockLocal::Void(OpVoid::Nop)
                    },
                },
                None => {
                    assert(false);
                    BlockLocal::Void(OpVoid::Nop)
                },
            }
        },
        ExprData::Var(v) => {
            let s = scope_or_root(sidecar.scope, universe);
            proof {
                lemma_map_scopes_lookup(universe@, iil_item_fn(), s.idx(), v.inner@);
            }
            if !universe.contains_scope(s) {
                assert(false);
                return BlockLocal::Void(OpVoid::Nop);
            }
            match universe.get_scope(s).lookup(v.inner.as_str()) {
                Some(item) => match item.block_ref {
                    Some(r) => BlockLocal::Valued(BlockLocalExpr::Ref(r)),
                    None => {
                        assert(false);
                        BlockLocal::Void(OpVoid::Nop)
                    },
                },
                None => {
                    assert(false);
                    BlockLocal::Void(OpVoid::Nop)
                },
            }
        },
        ExprData::Declaration { name, value } => {
            let s = scope_or_root(sidecar.scope, universe);
            let ghost u0 = universe@;
            proof {
                lemma_map_scopes_lookup(u0, iil_item_fn(), s.idx(), name.inner@);
                lemma_defining_scope(u0, s.idx(), name.inner@);
            }
            if !universe.contains_scope(s) {
                assert(false);
                return BlockLocal::Void(OpVoid::Nop);
            }
            let ty = match universe.get_scope(s).lookup(name.inner.as_str()) {
                Some(item) => {
                    if item.block_ref.is_some() {
                        assert(false);
                        return BlockLocal::Void(OpVoid::Nop);
                    }
                    type_copy(&item.ty)
                },
                None => {
                    assert(false);
                    return BlockLocal::Void(OpVoid::Nop);
                },
            };
            let ghost b0 = blockbuilder.locals@;
            let ghost tyv = ty@;
            let var_br = blockbuilder.push_valued_local(
                BlockLocalExpr::Op(OpExpr::Variable { ret_type: ty, storage_class: StorageClass::Function }),
            );
            proof {
                lemma_hlocals_push(b0, blockbuilder.locals@.last());
                lemma_hlocals_view(b0);
                assert(blockbuilder.locals@ =~= b0.push(blockbuilder.locals@.last()));
                assert(var_br == next_ref(st));
                assert(gen_state(*blockbuilder, *blockctx, u0) == push_local(
                    st,
                    HLocalView::Valued(HExprView::Op(OpExprView::Variable(tyv, StorageClass::Function))),
                ));
            }
            let f = move |info: &NamespaceItemIILGeneration| -> (r: NamespaceItemIILGeneration)
                ensures
                    r.ty@ == info.ty@,
                    r.block_ref == Some(var_br),
                { NamespaceItemIILGeneration { ty: type_copy(&info.ty), block_ref: Some(var_br) } };
            let _ = universe.scope_lookup_and_modify(s, name.inner.as_str(), f);
            proof {
                match defining_scope(u0, s.idx(), name.inner@) {
                    Some(d) => {
                        let nv = choose|nv: NamespaceItemIILGeneration|
                            {
                                &&& f.ensures((&u0[d as int].items[name.inner@],), nv)
                                &&& universe@ == u0.update(
                                    d as int,
                                    ScopeView {
                                        parent: u0[d as int].parent,
                                        items: u0[d as int].items.insert(name.inner@, nv),
                                    },
                                )
                            };
                        lemma_map_scopes_insert(u0, iil_item_fn(), d, name.inner@, nv);
                        assert(iil_item_view(nv) == IILItemView {
                            ty: iil_items(u0)[d as int].items[name.inner@].ty,
                            block_ref: Some(var_br),
                        });
                    },
                    None => {},
                }
                assert(lookup_view(st.items, s.idx(), name.inner@) matches Some(item) && item.ty == tyv);
                assert(iil_items(universe@) == set_block_ref(st.items, s.idx(), name.inner@, var_br));
            }
            let vref = push_valued(*value, universe, blockbuilder, blockctx);
            let ghost b1 = blockbuilder.locals@;
            blockbuilder.push_void_local(OpVoid::Store { pointer: var_br, object: vref });
            proof {
                lemma_hlocals_push(b1, BlockLocal::Void(OpVoid::Store { pointer: var_br, object: vref }));
            }
            let res = BlockLocal::Void(OpVoid::Nop);
            assert(gen_expr(st, ev) == Some((gen_state(*blockbuilder, *blockctx, universe@), hlocal_view(res))));
            res
        },
        ExprData::Block(b) => {
            if blockctx.next_id == u64::MAX {
                assert(false);
                return BlockLocal::Void(OpVoid::Nop);
            }
            let Spanned { inner: AstBlock { exprs, last }, span: _ } = b;
            let ghost ex = exprs;
            proof {
                assert(decreases_to!(expr => expr.data));
                assert(decreases_to!(expr.data => (expr.data)->Block_0));
                assert(decreases_to!((expr.data)->Block_0 => (expr.data)->Block_0.inner));
                assert(decreases_to!((expr.data)->Block_0.inner => (expr.data)->Block_0.inner.exprs));
                assert(decreases_to!((expr.data)->Block_0.inner.exprs => (expr.data)->Block_0.inner.exprs@));
            }
            let mut inner: BlockBuilder<OpVoid, BlockLocalExpr> = blockctx.start_block();
            let ghost st_in = gen_state(inner, *blockctx, universe@);
            let ghost id0 = inner.id;
            let ghost orig = exprs@;
            proof {
                lemma_exprs_view(orig.take(0));
                assert(exprs_view(orig.take(0)) =~= Seq::<ExprView>::empty());
                assert(hlocals_view(inner.locals@) =~= Seq::<HLocalView>::empty());
            }
            broadcast use vstd::std_specs::vec::axiom_spec_into_iter;
            for x in it: exprs.into_iter()
                invariant
                    it.seq() == orig,
                    orig == ex@,
                    decreases_to!(expr => orig),
                    inner.id == id0,
                    universe.wf(),
                    universe@.len() == st.items.len(),
                    gen_discard(st_in, exprs_view(orig)) is Some,
                    gen_discard(st_in, exprs_view(orig.take(it.index()))) == Some(
                        gen_state(inner, *blockctx, universe@),
                    ),
            {
                let ghost i = it.index();
                proof {
                    assert(decreases_to!(orig => orig[i]));
                    assert(orig.take(i + 1) =~= orig.take(i).push(orig[i]));
                    lemma_exprs_view_push(orig.take(i), orig[i]);
                    assert(exprs_view(orig.take(i + 1)).drop_last() =~= exprs_view(orig.take(i)));
                    lemma_exprs_view(orig);
                    lemma_exprs_view(orig.take(i + 1));
                    assert(exprs_view(orig.take(i + 1)) =~= exprs_view(orig).take(i + 1));
                    lemma_gen_discard_prefix(st_in, exprs_view(orig), i + 1);
                }
                let _ = push_expr_to_block_mostly(x, universe, &mut inner, blockctx);
            }
            proof {
                assert(orig.take(orig.len() as int) =~= orig);
            }
            let terminal = match last {
                None => None,
                Some(t) => {
                    let ghost b0 = blockbuilder.locals@;
                    match push_expr_to_block_mostly(*t, universe, &mut inner, blockctx) {
                        BlockLocal::Void(v) => {
                            blockbuilder.push_void_local(v);
                            proof {
                                lemma_hlocals_push(b0, BlockLocal::Void(v));
                            }
                            None
                        },
                        BlockLocal::Valued(x) => Some(x),
                    }
                },
            };
            let blk = inner.finish(terminal);
            let res = BlockLocal::Valued(BlockLocalExpr::Block(Box::new(blk)));
            assert(gen_expr(st, ev) == Some((gen_state(*blockbuilder, *blockctx, universe@), hlocal_view(res))));
            res
        },
    }
}

/// Generates `expr`, which must stand for a value, and pushes that value.
fn push_valued(
    expr: Expr,
    universe: &mut Universe<NamespaceItemIILGeneration>,
    blockbuilder: &mut BlockBuilder<OpVoid, BlockLocalExpr>,
    blockctx: &mut Ctx,
) -> (r: BlockLocalRef)
    requires
        old(universe).wf(),
        gen_valued(gen_state(*old(blockbuilder), *old(blockctx), old(universe)@), expr@) is Some,
    ensures
        final(universe).wf(),
        final(universe)@.len() == old(universe)@.len(),
        final(blockbuilder).id == old(blockbuilder).id,
        gen_valued(gen_state(*old(blockbuilder), *old(blockctx), old(universe)@), expr@) == Some(
            (gen_state(*final(blockbuilder), *final(blockctx), final(universe)@), r),
        ),
    decreases expr, 2int,
{
    let local = push_expr_to_block_mostly(expr, universe, blockbuilder, blockctx);
    match local {
        BlockLocal::Valued(x) => {
            let ghost b0 = blockbuilder.locals@;
            let r = blockbuilder.push_valued_local(x);
            proof {
                lemma_hlocals_push(b0, BlockLocal::Valued(x));
                lemma_hlocals_view(b0);
            }
            r
        },
        BlockLocal::Void(_) => {
            assert(false);
            BlockLocalRef { block: BlockId(0), local: 0 }
        },
    }
}


// ---------------------------------------------------------------------------
// Functions.
// ---------------------------------------------------------------------------

/// A function of intermediate code: its type and its body.
#[derive(Debug)]
pub struct IilFunction {
    pub ty: types::Function,
    pub body: Block<OpVoid, BlockLocalExpr, Option<BlockLocalExpr>>,
}

pub struct IilFunctionView {
    pub args: Seq<TypeView>,
    pub result: TypeView,
    pub body: HBlockView,
}

pub open spec fn iil_function_view(f: IilFunction) -> IilFunctionView {
    IilFunctionView { args: types::types_view(f.ty.args@), result: (*f.ty.result)@, body: hblock_view(f.body) }
}

/// Declaring the arguments as parameters, in order, each held by its
/// parameter's local.
pub open spec fn gen_args(st: GenState, s: nat, args: Seq<ArgView>) -> Option<GenState>
    decreases args.len(),
{
    if args.len() == 0 {
        Some(st)
    } else {
        match gen_args(st, s, args.drop_last()) {
            Some(st1) => {
                let a = args.last();
                match lookup_view(st1.items, s, a.name) {
                    Some(item) => if item.block_ref is Some {
                        None
                    } else {
                        let r = next_ref(st1);
                        let st2 = push_local(
                            st1,
                            HLocalView::Valued(
                                HExprView::Op(
                                    OpExprView::FunctionParameter(
                                        TypeView::Pointer(StorageClass::Function, Box::new(a.ty)),
                                    ),
                                ),
                            ),
                        );
                        Some(
                            GenState {
                                cur: st2.cur,
                                cur_id: st2.cur_id,
                                next_id: st2.next_id,
                                items: set_block_ref(st2.items, s, a.name, r),
                            },
                        )
                    },
                    None => None,
                }
            },
            None => None,
        }
    }
}

/// Generating a function from block id `next_id` on, with the names' items
/// `items`: the next block id and the items after, and the function.
pub open spec fn gen_function(next_id: nat, items: Seq<ScopeView<IILItemView>>, f: FunctionView) -> Option<
    (nat, Seq<ScopeView<IILItemView>>, IilFunctionView),
> {
    if next_id >= u64::MAX {
        None
    } else {
        let s = match f.sidecar {
            Some(s) => s,
            None => 0,
        };
        let st0 = GenState { cur: Seq::empty(), cur_id: BlockId(next_id as u64), next_id: next_id + 1, items };
        match gen_args(st0, s, f.args) {
            Some(st1) => {
                let st2 = push_local(st1, HLocalView::Valued(HExprView::OpUntyped(crate::iil::OpUntypedView::Label)));
                match gen_expr(st2, f.body) {
                    Some((st3, HLocalView::Void(v))) => Some(
                        (
                            st3.next_id,
                            st3.items,
                            IilFunctionView {
                                args: f.args.map_values(|a: ArgView| a.ty),
                                result: f.return_type,
                                body: HBlockView { id: st0.cur_id, locals: st3.cur.push(HLocalView::Void(v)), terminal: None },
                            },
                        ),
                    ),
                    Some((st3, HLocalView::Valued(x))) => Some(
                        (
                            st3.next_id,
                            st3.items,
                            IilFunctionView {
                                args: f.args.map_values(|a: ArgView| a.ty),
                                result: f.return_type,
                                body: HBlockView { id: st0.cur_id, locals: st3.cur, terminal: Some(x) },
                            },
                        ),
                    ),
                    None => None,
                }
            },
            None => None,
        }
    }
}

/// Generates the intermediate code of one function.
pub fn process_function(
    function: Function,
    universe: &mut Universe<NamespaceItemIILGeneration>,
    blockctx: &mut Ctx,
) -> (r: IilFunction)
    requires
        old(universe).wf(),
        gen_function(old(blockctx).next_id as nat, iil_items(old(universe)@), function@) is Some,
    ensures
        final(universe).wf(),
        final(universe)@.len() == old(universe)@.len(),
        gen_function(old(blockctx).next_id as nat, iil_items(old(universe)@), function@) == Some(
            (final(blockctx).next_id as nat, iil_items(final(universe)@), iil_function_view(r)),
        ),
{
    let ghost f0 = function@;
    let Function { data, sidecar } = function;
    let FunctionData { name: _, return_type, args, body } = data;
    let mut arg_types: Vec<Type> = Vec::new();
    let mut k: usize = 0;
    while k < args.len()
        invariant
            k <= args@.len(),
            arg_types@.len() == k,
            forall|j: int| 0 <= j < k ==> (#[trigger] arg_types@[j])@ == args@[j].ty.inner@,
        decreases args@.len() - k,
    {
        arg_types.push(type_copy(&args[k].ty.inner));
        k += 1;
    }
    proof {
        types::lemma_types_view(arg_types@);
        assert(types::types_view(arg_types@) =~= f0.args.map_values(|a: ArgView| a.ty));
    }
    let ty = types::Function { args: arg_types, result: Box::new(return_type.inner) };
    let s = scope_or_root(sidecar, universe);
    let mut b: BlockBuilder<OpVoid, BlockLocalExpr> = blockctx.start_block();
    let ghost st0 = gen_state(b, *blockctx, universe@);
    let ghost id0 = b.id;
    proof {
        assert(hlocals_view(b.locals@) =~= Seq::<HLocalView>::empty());
    }
    let mut i: usize = 0;
    assert(args_view(args@).take(0) =~= Seq::<ArgView>::empty());
    while i < args.len()
        invariant
            i <= args@.len(),
            universe.wf(),
            universe@.len() == st0.items.len(),
            b.id == id0,
            s.idx() == match f0.sidecar {
                Some(x) => x,
                None => 0,
            },
            f0.args == args_view(args@),
            gen_args(st0, s.idx(), f0.args) is Some,
            gen_args(st0, s.idx(), args_view(args@).take(i as int)) == Some(gen_state(b, *blockctx, universe@)),
        decreases args@.len() - i,
    {
        proof {
            assert(args_view(args@).take(i + 1).drop_last() =~= args_view(args@).take(i as int));
            assert(args_view(args@).take(i + 1).last() == arg_view(args@[i as int]));
            lemma_gen_args_prefix(st0, s.idx(), args_view(args@), i + 1);
        }
        let ghost u0 = universe@;
        let ghost b0 = b.locals@;
        let ghost stb = gen_state(b, *blockctx, universe@);
        proof {
            lemma_map_scopes_lookup(u0, iil_item_fn(), s.idx(), args@[i as int].name.inner@);
            lemma_defining_scope(u0, s.idx(), args@[i as int].name.inner@);
        }
        if !universe.contains_scope(s) {
            assert(false);
            i += 1;
            continue;
        }
        let r = b.push_valued_local(
            BlockLocalExpr::Op(
                OpExpr::FunctionParameter {
                    ret_type: types::pointer(StorageClass::Function, type_copy(&args[i].ty.inner)),
                },
            ),
        );
        proof {
            lemma_hlocals_push(b0, b.locals@.last());
            lemma_hlocals_view(b0);
            assert(b.locals@ =~= b0.push(b.locals@.last()));
            assert(r == next_ref(stb));
        }
        let f = move |info: &NamespaceItemIILGeneration| -> (nr: NamespaceItemIILGeneration)
            ensures
                nr.ty@ == info.ty@,
                nr.block_ref == Some(r),
            { NamespaceItemIILGeneration { ty: type_copy(&info.ty), block_ref: Some(r) } };
        let _ = universe.scope_lookup_and_modify(s, args[i].name.inner.as_str(), f);
        proof {
            let key = args@[i as int].name.inner@;
            match defining_scope(u0, s.idx(), key) {
                Some(d) => {
                    let nv = choose|nv: NamespaceItemIILGeneration|
                        {
                            &&& f.ensures((&u0[d as int].items[key],), nv)
                            &&& universe@ == u0.update(
                                d as int,
                                ScopeView { parent: u0[d as int].parent, items: u0[d as int].items.insert(key, nv) },
                            )
                        };
                    lemma_map_scopes_insert(u0, iil_item_fn(), d, key, nv);
                },
                None => {},
            }
        }
        i += 1;
    }
    proof {
        assert(args_view(args@).take(args@.len() as int) =~= args_view(args@));
    }
    let ghost b1 = b.locals@;
    b.push_valued_local(BlockLocalExpr::OpUntyped(OpExprUntyped::Label));
    proof {
        lemma_hlocals_push(b1, b.locals@.last());
        assert(b.locals@ =~= b1.push(b.locals@.last()));
    }
    let x = push_expr_to_block_mostly(body, universe, &mut b, blockctx);
    let terminal = match x {
        BlockLocal::Void(v) => {
            let ghost b2 = b.locals@;
            b.push_void_local(v);
            proof {
                lemma_hlocals_push(b2, BlockLocal::Void(v));
            }
            None
        },
        BlockLocal::Valued(v) => Some(v),
    };
    let body = b.finish(terminal);
    IilFunction { ty, body }
}

proof fn lemma_gen_args_prefix(st: GenState, s: nat, args: Seq<ArgView>, k: int)
    requires
        gen_args(st, s, args) is Some,
        0 <= k <= args.len(),
    ensures
        gen_args(st, s, args.take(k)) is Some,
    decreases args.len(),
{
    if k == args.len() {
        assert(args.take(k) =~= args);
    } else {
        lemma_gen_args_prefix(st, s, args.drop_last(), k);
        assert(args.drop_last().take(k) =~= args.take(k));
    }
}


// ---------------------------------------------------------------------------
// Flattening: nested blocks become runs of locals of one block.
// ---------------------------------------------------------------------------

/// A valued local that is not a block, as a flat one.
pub open spec fn to_flat(e: HExprView) -> FlatExprView {
    match e {
        HExprView::Op(o) => FlatExprView::Op(o),
        HExprView::OpUntyped(o) => FlatExprView::OpUntyped(o),
        HExprView::Constant(c) => FlatExprView::Constant(c),
        HExprView::Ref(r) => FlatExprView::Ref(r),
        HExprView::Block(_) => FlatExprView::Ref(BlockLocalRef { block: BlockId(0), local: 0 }),
    }
}

pub proof fn lemma_hsize_locals_elem(s: Seq<HLocalView>, i: int)
    requires
        0 <= i < s.len(),
    ensures
        hsize_local(s[i]) <= hsize_locals(s),
        hsize_locals(s.take(i)) + hsize_local(s[i]) <= hsize_locals(s),
    decreases s.len(),
{
    if i < s.len() - 1 {
        lemma_hsize_locals_elem(s.drop_last(), i);
        assert(s.drop_last().take(i) =~= s.take(i));
    } else {
        assert(s.take(i) =~= s.drop_last());
    }
}

/// Flattening block `b` into the locals `out` of block `out_id`: the locals
/// after, and what stands for `b`'s terminal.
pub open spec fn flatten_block(b: HBlockView, out: Seq<FlatLocalView>, out_id: BlockId) -> (
    Seq<FlatLocalView>,
    Option<FlatExprView>,
)
    decreases hsize_block(b), 1int,
{
    let (out1, rens) = flatten_locals(b.id, b.locals, out, out_id);
    match b.terminal {
        None => (out1, None),
        Some(t) => {
            let t2 = ren_all_hexpr(t, rens);
            proof {
                lemma_ren_all_size_expr(t, rens);
            }
            match t2 {
                HExprView::Block(bb) => flatten_block(*bb, out1, out_id),
                _ => (out1, Some(to_flat(t2))),
            }
        },
    }
}

/// Flattening the locals of block `id` in order, each after the
/// renumberings of the locals before it: the locals after, and the
/// renumberings, from each moved local to where it now is.
pub open spec fn flatten_locals(id: BlockId, locals: Seq<HLocalView>, out: Seq<FlatLocalView>, out_id: BlockId) -> (
    Seq<FlatLocalView>,
    Seq<(BlockLocalRef, BlockLocalRef)>,
)
    decreases hsize_locals(locals), 0int,
{
    if locals.len() == 0 {
        (out, Seq::empty())
    } else {
        proof {
            assert(hsize_locals(locals) == hsize_locals(locals.drop_last()) + hsize_local(locals.last()));
            assert(hsize_local(locals.last()) >= 1);
        }
        let (out1, rens) = flatten_locals(id, locals.drop_last(), out, out_id);
        let n = BlockLocalRef { block: id, local: (locals.len() - 1) as usize };
        let l = ren_all_hlocal(locals.last(), rens);
        proof {
            lemma_ren_all_size_local(locals.last(), rens);
            if let HLocalView::Valued(HExprView::Block(bb)) = l {
                assert(hsize_local(l) == 2 + hsize_block(*bb));
            }
        }
        match l {
            HLocalView::Void(v) => (out1.push(FlatLocalView::Void(v)), rens),
            HLocalView::Valued(HExprView::Block(bb)) => {
                let (out2, t) = flatten_block(*bb, out1, out_id);
                match t {
                    Some(t) => (
                        out2.push(FlatLocalView::Valued(t)),
                        rens.push((n, BlockLocalRef { block: out_id, local: out2.len() as usize })),
                    ),
                    None => (out2, rens),
                }
            },
            HLocalView::Valued(e) => (
                out1.push(FlatLocalView::Valued(to_flat(e))),
                rens.push((n, BlockLocalRef { block: out_id, local: out1.len() as usize })),
            ),
        }
    }
}

pub(crate) fn renumber_ref(r: BlockLocalRef, from: BlockLocalRef, to: BlockLocalRef) -> (res: BlockLocalRef)
    ensures
        res == ren_ref(r, from, to),
{
    if r == from {
        to
    } else {
        r
    }
}

pub(crate) fn renumber_op(o: OpExpr, from: BlockLocalRef, to: BlockLocalRef) -> (r: OpExpr)
    ensures
        op_view(r) == ren_op(op_view(o), from, to),
{
    match o {
        OpExpr::Binary { op, ret_type, op0, op1 } => OpExpr::Binary {
            op,
            ret_type,
            op0: renumber_ref(op0, from, to),
            op1: renumber_ref(op1, from, to),
        },
        _ => o,
    }
}

pub(crate) fn renumber_untyped(o: OpExprUntyped, from: BlockLocalRef, to: BlockLocalRef) -> (r: OpExprUntyped)
    ensures
        untyped_view(r) == ren_untyped(untyped_view(o), from, to),
{
    match o {
        OpExprUntyped::TypeVector { component, count } => OpExprUntyped::TypeVector {
            component: renumber_ref(component, from, to),
            count,
        },
        OpExprUntyped::TypeMatrix { column, count } => OpExprUntyped::TypeMatrix {
            column: renumber_ref(column, from, to),
            count,
        },
        OpExprUntyped::TypeFunction { ret, params } => {
            let mut ps: Vec<BlockLocalRef> = Vec::new();
            let mut i: usize = 0;
            while i < params.len()
                invariant
                    i <= params@.len(),
                    ps@.len() == i,
                    forall|j: int| 0 <= j < i ==> #[trigger] ps@[j] == ren_ref(params@[j], from, to),
                decreases params@.len() - i,
            {
                ps.push(renumber_ref(params[i], from, to));
                i += 1;
            }
            assert(ps@ =~= params@.map_values(|p: BlockLocalRef| ren_ref(p, from, to)));
            OpExprUntyped::TypeFunction { ret: renumber_ref(ret, from, to), params: ps }
        },
        OpExprUntyped::TypePointer { storage_class, pointee } => OpExprUntyped::TypePointer {
            storage_class,
            pointee: renumber_ref(pointee, from, to),
        },
        _ => o,
    }
}

pub(crate) fn renumber_void(v: OpVoid, from: BlockLocalRef, to: BlockLocalRef) -> (r: OpVoid)
    ensures
        r == ren_void(v, from, to),
{
    match v {
        OpVoid::Store { pointer, object } => OpVoid::Store {
            pointer: renumber_ref(pointer, from, to),
            object: renumber_ref(object, from, to),
        },
        OpVoid::ReturnValue { value } => OpVoid::ReturnValue { value: renumber_ref(value, from, to) },
        _ => v,
    }
}

fn renumber_hexpr(e: BlockLocalExpr, from: BlockLocalRef, to: BlockLocalRef) -> (r: BlockLocalExpr)
    ensures
        hexpr_view(r) == ren_hexpr(hexpr_view(e), from, to),
    decreases e,
{
    match e {
        BlockLocalExpr::Op(o) => BlockLocalExpr::Op(renumber_op(o, from, to)),
        BlockLocalExpr::OpUntyped(o) => BlockLocalExpr::OpUntyped(renumber_untyped(o, from, to)),
        BlockLocalExpr::Block(b) => BlockLocalExpr::Block(Box::new(renumber_hblock(*b, from, to))),
        BlockLocalExpr::Constant(c) => BlockLocalExpr::Constant(c),
        BlockLocalExpr::Ref(r) => BlockLocalExpr::Ref(renumber_ref(r, from, to)),
    }
}

fn renumber_hlocal(l: BlockLocal<OpVoid, BlockLocalExpr>, from: BlockLocalRef, to: BlockLocalRef) -> (r: BlockLocal<
    OpVoid,
    BlockLocalExpr,
>)
    ensures
        hlocal_view(r) == ren_hlocal(hlocal_view(l), from, to),
    decreases l,
{
    match l {
        BlockLocal::Void(v) => BlockLocal::Void(renumber_void(v, from, to)),
        BlockLocal::Valued(e) => BlockLocal::Valued(renumber_hexpr(e, from, to)),
    }
}

fn renumber_hblock(
    b: Block<OpVoid, BlockLocalExpr, Option<BlockLocalExpr>>,
    from: BlockLocalRef,
    to: BlockLocalRef,
) -> (r: Block<OpVoid, BlockLocalExpr, Option<BlockLocalExpr>>)
    ensures
        hblock_view(r) == ren_hblock(hblock_view(b), from, to),
    decreases b,
{
    broadcast use vstd::std_specs::vec::axiom_spec_into_iter;

    let ghost bg = b;
    let Block { id, locals, terminal } = b;
    let ghost orig = locals@;
    let mut out: Vec<BlockLocal<OpVoid, BlockLocalExpr>> = Vec::new();
    proof {
        assert(decreases_to!(b => b.locals));
        assert(decreases_to!(b.locals => b.locals@));
        assert(orig.take(0) =~= Seq::<BlockLocal<OpVoid, BlockLocalExpr>>::empty());
        assert(hlocals_view(out@) =~= Seq::<HLocalView>::empty());
        assert(ren_hlocals(hlocals_view(orig.take(0)), from, to) =~= Seq::<HLocalView>::empty());
    }
    for x in it: locals.into_iter()
        invariant
            it.seq() == orig,
            orig == bg.locals@,
            bg == b,
            decreases_to!(b => orig),
            hlocals_view(out@) == ren_hlocals(hlocals_view(orig.take(it.index())), from, to),
    {
        let ghost i = it.index();
        proof {
            assert(decreases_to!(orig => orig[i]));
            assert(decreases_to!(b => orig[i]));
            assert(orig.take(i + 1).drop_last() =~= orig.take(i));
            lemma_hlocals_push(orig.take(i), orig[i]);
            assert(orig.take(i + 1) =~= orig.take(i).push(orig[i]));
            let hv = hlocals_view(orig.take(i)).push(hlocal_view(orig[i]));
            assert(hv.drop_last() =~= hlocals_view(orig.take(i)));
        }
        let y = renumber_hlocal(x, from, to);
        proof {
            lemma_hlocals_push(out@, y);
        }
        out.push(y);
    }
    proof {
        assert(orig.take(orig.len() as int) =~= orig);
    }
    let terminal2 = match terminal {
        Some(t) => Some(renumber_hexpr(t, from, to)),
        None => None,
    };
    Block { id, locals: out, terminal: terminal2 }
}

fn ren_all_local(
    l: BlockLocal<OpVoid, BlockLocalExpr>,
    rens: &Vec<(BlockLocalRef, BlockLocalRef)>,
) -> (r: BlockLocal<OpVoid, BlockLocalExpr>)
    ensures
        hlocal_view(r) == ren_all_hlocal(hlocal_view(l), rens@),
{
    let ghost l0 = hlocal_view(l);
    let mut cur = l;
    let mut i: usize = 0;
    assert(rens@.take(0) =~= Seq::<(BlockLocalRef, BlockLocalRef)>::empty());
    while i < rens.len()
        invariant
            i <= rens@.len(),
            hlocal_view(cur) == ren_all_hlocal(l0, rens@.take(i as int)),
        decreases rens@.len() - i,
    {
        assert(rens@.take(i + 1).drop_last() =~= rens@.take(i as int));
        let (from, to) = rens[i];
        cur = renumber_hlocal(cur, from, to);
        i += 1;
    }
    assert(rens@.take(rens@.len() as int) =~= rens@);
    cur
}

fn ren_all_expr(e: BlockLocalExpr, rens: &Vec<(BlockLocalRef, BlockLocalRef)>) -> (r: BlockLocalExpr)
    ensures
        hexpr_view(r) == ren_all_hexpr(hexpr_view(e), rens@),
{
    let ghost e0 = hexpr_view(e);
    let mut cur = e;
    let mut i: usize = 0;
    assert(rens@.take(0) =~= Seq::<(BlockLocalRef, BlockLocalRef)>::empty());
    while i < rens.len()
        invariant
            i <= rens@.len(),
            hexpr_view(cur) == ren_all_hexpr(e0, rens@.take(i as int)),
        decreases rens@.len() - i,
    {
        assert(rens@.take(i + 1).drop_last() =~= rens@.take(i as int));
        let (from, to) = rens[i];
        cur = renumber_hexpr(cur, from, to);
        i += 1;
    }
    assert(rens@.take(rens@.len() as int) =~= rens@);
    cur
}

/// The optional view of an optional flat local.
pub open spec fn opt_flat(o: Option<FlatBlockLocalExpr>) -> Option<FlatExprView> {
    match o {
        Some(e) => Some(flat_view(e)),
        None => None,
    }
}

/// Pushes the locals of `block`, its nested blocks flattened, into
/// `blockbuilder`; returns what stands for its terminal.
pub fn flatten_into(
    block: Block<OpVoid, BlockLocalExpr, Option<BlockLocalExpr>>,
    blockbuilder: &mut BlockBuilder<OpVoid, FlatBlockLocalExpr>,
) -> (r: Option<FlatBlockLocalExpr>)
    ensures
        final(blockbuilder).id == old(blockbuilder).id,
        flatten_block(hblock_view(block), flat_locals_view(old(blockbuilder).locals@), old(blockbuilder).id) == (
            flat_locals_view(final(blockbuilder).locals@),
            opt_flat(r),
        ),
    decreases hsize_block(hblock_view(block)),
{
    broadcast use vstd::std_specs::vec::axiom_spec_into_iter;

    let ghost bv = hblock_view(block);
    let ghost out0 = flat_locals_view(blockbuilder.locals@);
    let ghost out_id = blockbuilder.id;
    let id = block.id;
    let (locals, terminal) = block.into_parts();
    let ghost orig = locals@;
    let mut renumbers: Vec<(BlockLocalRef, BlockLocalRef)> = Vec::new();
    proof {
        lemma_hlocals_view(orig);
        assert(bv.locals == hlocals_view(orig));
        assert(hlocals_view(orig).take(0) =~= Seq::<HLocalView>::empty());
    }
    let mut i: usize = 0;
    let total = locals.len();
    for local in it: locals.into_iter()
        invariant
            it.seq() == orig,
            orig.len() == total,
            i == it.index(),
            bv == hblock_view(block),
            bv.locals == hlocals_view(orig),
            hlocals_view(orig).len() == orig.len(),
            forall|k: int| 0 <= k < orig.len() ==> #[trigger] hlocals_view(orig)[k] == hlocal_view(orig[k]),
            bv.id == id,
            blockbuilder.id == out_id,
            flatten_locals(id, hlocals_view(orig).take(i as int), out0, out_id) == (
                flat_locals_view(blockbuilder.locals@),
                renumbers@,
            ),
    {
        let ghost lv = hlocals_view(orig);
        proof {
            assert(lv.take(i + 1).drop_last() =~= lv.take(i as int));
            assert(lv.take(i + 1).last() == lv[i as int]);
            lemma_hsize_locals_elem(lv, i as int);
            lemma_ren_all_size_local(lv[i as int], renumbers@);
        }
        let n = BlockLocalRef { block: id, local: i };
        let local = ren_all_local(local, &renumbers);
        let ghost lg = local;
        proof {
            assert(hsize_local(hlocal_view(lg)) <= hsize_locals(lv));
            assert(hsize_locals(lv) < hsize_block(bv));
            if let BlockLocal::Valued(BlockLocalExpr::Block(bb)) = lg {
                assert(hsize_local(hlocal_view(lg)) == 2 + hsize_block(hblock_view(*bb)));
            }
        }
        let ghost b0 = blockbuilder.locals@;
        match local {
            BlockLocal::Void(v) => {
                blockbuilder.push_void_local(v);
                assert(flat_locals_view(blockbuilder.locals@) =~= flat_locals_view(b0).push(FlatLocalView::Void(v)));
            },
            BlockLocal::Valued(valued) => {
                match valued {
                    BlockLocalExpr::Block(b) => {
                        let t = flatten_into(*b, blockbuilder);
                        match t {
                            Some(t) => {
                                let ghost b1 = blockbuilder.locals@;
                                let r = blockbuilder.push_valued_local(t);
                                assert(flat_locals_view(blockbuilder.locals@) =~= flat_locals_view(b1).push(
                                    FlatLocalView::Valued(flat_view(t)),
                                ));
                                renumbers.push((n, r));
                            },
                            None => {},
                        }
                    },
                    BlockLocalExpr::Op(o) => {
                        let r = blockbuilder.push_valued_local(FlatBlockLocalExpr::Op(o));
                        assert(flat_locals_view(blockbuilder.locals@) =~= flat_locals_view(b0).push(
                            FlatLocalView::Valued(flat_view(FlatBlockLocalExpr::Op(o))),
                        ));
                        renumbers.push((n, r));
                    },
                    BlockLocalExpr::OpUntyped(o) => {
                        let r = blockbuilder.push_valued_local(FlatBlockLocalExpr::OpUntyped(o));
                        assert(flat_locals_view(blockbuilder.locals@) =~= flat_locals_view(b0).push(
                            FlatLocalView::Valued(flat_view(FlatBlockLocalExpr::OpUntyped(o))),
                        ));
                        renumbers.push((n, r));
                    },
                    BlockLocalExpr::Constant(c) => {
                        let r = blockbuilder.push_valued_local(FlatBlockLocalExpr::Constant(c));
                        assert(flat_locals_view(blockbuilder.locals@) =~= flat_locals_view(b0).push(
                            FlatLocalView::Valued(flat_view(FlatBlockLocalExpr::Constant(c))),
                        ));
                        renumbers.push((n, r));
                    },
                    BlockLocalExpr::Ref(x) => {
                        let r = blockbuilder.push_valued_local(FlatBlockLocalExpr::Ref(x));
                        assert(flat_locals_view(blockbuilder.locals@) =~= flat_locals_view(b0).push(
                            FlatLocalView::Valued(flat_view(FlatBlockLocalExpr::Ref(x))),
                        ));
                        renumbers.push((n, r));
                    },
                }
            },
        }
        i += 1;
    }
    proof {
        assert(hlocals_view(orig).take(orig.len() as int) =~= hlocals_view(orig));
    }
    match terminal {
        None => None,
        Some(t) => {
            proof {
                lemma_ren_all_size_expr(hexpr_view(t), renumbers@);
            }
            let t = ren_all_expr(t, &renumbers);
            match t {
                BlockLocalExpr::Block(b) => flatten_into(*b, blockbuilder),
                BlockLocalExpr::Op(o) => Some(FlatBlockLocalExpr::Op(o)),
                BlockLocalExpr::OpUntyped(o) => Some(FlatBlockLocalExpr::OpUntyped(o)),
                BlockLocalExpr::Constant(c) => Some(FlatBlockLocalExpr::Constant(c)),
                BlockLocalExpr::Ref(r) => Some(FlatBlockLocalExpr::Ref(r)),
            }
        },
    }
}

/// A hierarchical block as one flat block with a fresh id.
pub fn flatten(block: Block<OpVoid, BlockLocalExpr, Option<BlockLocalExpr>>, blockctx: &mut Ctx) -> (r: Block<
    OpVoid,
    FlatBlockLocalExpr,
    Option<FlatBlockLocalExpr>,
>)
    requires
        old(blockctx).next_id < u64::MAX,
    ensures
        final(blockctx).next_id == old(blockctx).next_id + 1,
        r.id == BlockId(old(blockctx).next_id),
        flatten_block(hblock_view(block), Seq::empty(), r.id) == (flat_locals_view(r.locals@), opt_flat(r.terminal)),
{
    let mut b: BlockBuilder<OpVoid, FlatBlockLocalExpr> = blockctx.start_block();
    assert(flat_locals_view(b.locals@) =~= Seq::<FlatLocalView>::empty());
    let t = flatten_into(block, &mut b);
    b.finish(t)
}


// ---------------------------------------------------------------------------
// Constants.
// ---------------------------------------------------------------------------

/// The instruction that makes constant `c`.
pub open spec fn constant_op(c: ConstantView) -> OpExprView {
    match c {
        ConstantView::Int(t, _, _) => OpExprView::Constant(types::number_type(NumberKind::Integer(t)), c),
        ConstantView::Float(f, _) => OpExprView::Constant(types::number_type(NumberKind::Float(f)), c),
        ConstantView::Bool(true) => OpExprView::ConstantTrue(crate::typing::bool_view()),
        ConstantView::Bool(false) => OpExprView::ConstantFalse(crate::typing::bool_view()),
    }
}

fn constant_op_exec(c: Constant) -> (r: OpExpr)
    ensures
        op_view(r) == constant_op(constant_view(c)),
{
    match c {
        Constant::Int { ty, value } => OpExpr::Constant {
            ret_type: types::number(NumberKind::Integer(ty)),
            value: Constant::Int { ty, value },
        },
        Constant::Float { ty, value } => OpExpr::Constant {
            ret_type: types::number(NumberKind::Float(ty)),
            value: Constant::Float { ty, value },
        },
        Constant::Bool { value } => if value {
            OpExpr::ConstantTrue { ret_type: types::bool_type() }
        } else {
            OpExpr::ConstantFalse { ret_type: types::bool_type() }
        },
    }
}

/// A block making each of `constants` in order, and which local holds which
/// constant.
pub fn constants_to_asm(constants: Vec<Constant>, blockctx: &mut Ctx) -> (r: (
    Block<OpVoid, OpExpr, ()>,
    Vec<(Constant, BlockLocalRef)>,
))
    requires
        old(blockctx).next_id < u64::MAX,
    ensures
        final(blockctx).next_id == old(blockctx).next_id + 1,
        r.0.id == BlockId(old(blockctx).next_id),
        r.0.locals@.len() == constants@.len(),
        r.1@.len() == constants@.len(),
        forall|i: int|
            0 <= i < constants@.len() ==> ((#[trigger] r.0.locals@[i]) matches BlockLocal::Valued(o) && op_view(o)
                == constant_op(constant_view(constants@[i]))),
        forall|i: int|
            0 <= i < constants@.len() ==> constant_view((#[trigger] r.1@[i]).0) == constant_view(constants@[i])
                && r.1@[i].1 == (BlockLocalRef { block: r.0.id, local: i as usize }),
{
    broadcast use vstd::std_specs::vec::axiom_spec_into_iter;

    let ghost orig = constants@;
    let mut b: BlockBuilder<OpVoid, OpExpr> = blockctx.start_block();
    let ghost id0 = b.id;
    let mut map: Vec<(Constant, BlockLocalRef)> = Vec::new();
    for c in it: constants.into_iter()
        invariant
            it.seq() == orig,
            b.id == id0,
            b.locals@.len() == it.index(),
            map@.len() == it.index(),
            forall|i: int|
                0 <= i < it.index() ==> ((#[trigger] b.locals@[i]) matches BlockLocal::Valued(o) && op_view(o)
                    == constant_op(constant_view(orig[i]))),
            forall|i: int|
                0 <= i < it.index() ==> constant_view((#[trigger] map@[i]).0) == constant_view(orig[i]) && map@[i].1
                    == (BlockLocalRef { block: b.id, local: i as usize }),
    {
        let key = copy_constant(&c);
        let r = b.push_valued_local(constant_op_exec(c));
        map.push((key, r));
    }
    (b.finish(()), map)
}


// ---------------------------------------------------------------------------
// Types.
// ---------------------------------------------------------------------------

/// The types the instruction declaring `t` refers to.
pub open spec fn prerequisites(t: TypeView) -> Seq<TypeView> {
    match t {
        TypeView::Concrete(Concrete::Matrix(m)) => seq![types::vector_type(m.column_type)],
        TypeView::Concrete(Concrete::Vector(v)) => seq![types::number_type(v.component_type)],
        TypeView::Function(args, res) => seq![*res] + args,
        TypeView::Pointer(_, target) => seq![*target],
        _ => Seq::empty(),
    }
}

/// Whether `x` is `t` or, within `k` steps, a prerequisite of a
/// prerequisite ... of `t`.
pub open spec fn derives(t: TypeView, x: TypeView, k: nat) -> bool
    decreases k,
{
    t == x || (k > 0 && exists|i: int|
        0 <= i < prerequisites(t).len() && derives(#[trigger] prerequisites(t)[i], x, (k - 1) as nat))
}

/// Whether declaring `t` needs `x` declared.
pub open spec fn needs(t: TypeView, x: TypeView) -> bool {
    exists|k: nat| derives(t, x, k)
}

/// No type occurs twice.
pub open spec fn unique_types(s: Seq<TypeView>) -> bool {
    forall|i: int, j: int| 0 <= i < j < s.len() ==> s[i] != s[j]
}

/// Where `x` occurs in `s`.
pub open spec fn position(s: Seq<TypeView>, x: TypeView) -> int {
    choose|i: int| 0 <= i < s.len() && s[i] == x
}

pub open spec fn ref_of(s: Seq<TypeView>, x: TypeView, id: BlockId) -> BlockLocalRef {
    BlockLocalRef { block: id, local: position(s, x) as usize }
}

/// The instruction declaring `t`, where the types of `s` are declared by the
/// locals of block `id` in order.
pub open spec fn type_instr(t: TypeView, s: Seq<TypeView>, id: BlockId) -> OpUntypedView {
    match t {
        TypeView::Concrete(Concrete::Number(NumberKind::Integer(Integer::Signed(w)))) => OpUntypedView::TypeInt(w, true),
        TypeView::Concrete(Concrete::Number(NumberKind::Integer(Integer::Unsigned(w)))) => OpUntypedView::TypeInt(
            w,
            false,
        ),
        TypeView::Concrete(Concrete::Number(NumberKind::Float(f))) => OpUntypedView::TypeFloat(f.width),
        TypeView::Concrete(Concrete::Vector(v)) => OpUntypedView::TypeVector(
            ref_of(s, types::number_type(v.component_type), id),
            v.component_count,
        ),
        TypeView::Concrete(Concrete::Matrix(m)) => OpUntypedView::TypeMatrix(
            ref_of(s, types::vector_type(m.column_type), id),
            m.column_count,
        ),
        TypeView::Abstract(Abstract::Void(_)) => OpUntypedView::TypeVoid,
        TypeView::Abstract(Abstract::Bool(_)) => OpUntypedView::TypeBool,
        TypeView::Function(args, res) => OpUntypedView::TypeFunction(
            ref_of(s, *res, id),
            args.map_values(|a: TypeView| ref_of(s, a, id)),
        ),
        TypeView::Pointer(sc, target) => OpUntypedView::TypePointer(sc, ref_of(s, *target, id)),
    }
}

/// The types declared so far.
pub open spec fn emitted(out: Seq<(Type, BlockLocalRef)>) -> Seq<TypeView> {
    out.map_values(|p: (Type, BlockLocalRef)| p.0@)
}

/// The declared types and the locals declaring them agree: each type once,
/// after everything it refers to, declared by the local at its position.
pub open spec fn emit_wf(out: Seq<(Type, BlockLocalRef)>, locals: Seq<BlockLocal<OpVoid, OpExprUntyped>>, id: BlockId) -> bool {
    let s = emitted(out);
    &&& out.len() == locals.len()
    &&& unique_types(s)
    &&& forall|i: int| 0 <= i < out.len() ==> (#[trigger] out[i]).1 == (BlockLocalRef { block: id, local: i as usize })
    &&& forall|i: int|
        0 <= i < s.len() ==> ((#[trigger] locals[i]) matches BlockLocal::Valued(x) && untyped_view(x) == type_instr(
            s[i],
            s,
            id,
        ))
    &&& forall|i: int, j: int|
        0 <= i < s.len() && 0 <= j < prerequisites(s[i]).len() ==> declared_before(s, i, #[trigger] prerequisites(s[i])[j])
}

/// Whether `x` is declared before position `i`.
pub open spec fn declared_before(s: Seq<TypeView>, i: int, x: TypeView) -> bool {
    exists|k: int| 0 <= k < i && s[k] == x
}

proof fn lemma_position(s: Seq<TypeView>, x: TypeView, i: int)
    requires
        unique_types(s),
        0 <= i < s.len(),
        s[i] == x,
    ensures
        position(s, x) == i,
{
}

proof fn lemma_type_instr_stable(s: Seq<TypeView>, s2: Seq<TypeView>, t: TypeView, id: BlockId)
    requires
        unique_types(s2),
        s.len() <= s2.len(),
        forall|i: int| 0 <= i < s.len() ==> s2[i] == s[i],
        forall|j: int| 0 <= j < prerequisites(t).len() ==> s.contains(#[trigger] prerequisites(t)[j]),
    ensures
        type_instr(t, s2, id) == type_instr(t, s, id),
{
    assert forall|x: TypeView| s.contains(x) implies position(s2, x) == position(s, x) by {
        let i = choose|i: int| 0 <= i < s.len() && s[i] == x;
        assert(unique_types(s)) by {
            assert forall|a: int, b: int| 0 <= a < b < s.len() implies s[a] != s[b] by {
                assert(s2[a] == s[a] && s2[b] == s[b]);
            }
        }
        lemma_position(s, x, i);
        lemma_position(s2, x, i);
    }
    match t {
        TypeView::Concrete(Concrete::Vector(v)) => {
            assert(prerequisites(t)[0] == types::number_type(v.component_type));
        },
        TypeView::Concrete(Concrete::Matrix(m)) => {
            assert(prerequisites(t)[0] == types::vector_type(m.column_type));
        },
        TypeView::Pointer(_, target) => {
            assert(prerequisites(t)[0] == *target);
        },
        TypeView::Function(args, res) => {
            assert(prerequisites(t)[0] == *res);
            assert forall|j: int| 0 <= j < args.len() implies s.contains(args[j]) by {
                assert(prerequisites(t)[j + 1] == args[j]);
            }
            assert(args.map_values(|a: TypeView| ref_of(s2, a, id)) =~= args.map_values(
                |a: TypeView| ref_of(s, a, id),
            ));
        },
        _ => {},
    }
}

fn find_type(out: &Vec<(Type, BlockLocalRef)>, t: &Type) -> (r: Option<usize>)
    ensures
        match r {
            Some(k) => k < out@.len() && emitted(out@)[k as int] == t@,
            None => !emitted(out@).contains(t@),
        },
{
    let mut i: usize = 0;
    while i < out.len()
        invariant
            i <= out@.len(),
            forall|k: int| 0 <= k < i ==> emitted(out@)[k] != t@,
        decreases out@.len() - i,
    {
        if type_eq(&out[i].0, t) {
            return Some(i);
        }
        i += 1;
    }
    None
}

/// The depth of a type: how many type constructors nest in it.
pub open spec fn type_depth(t: TypeView) -> nat
    decreases t,
{
    match t {
        TypeView::Concrete(Concrete::Vector(_)) => 1,
        TypeView::Concrete(Concrete::Matrix(_)) => 2,
        TypeView::Function(args, res) => 1 + type_depth(*res) + args_depth(args),
        TypeView::Pointer(_, target) => 1 + type_depth(*target),
        _ => 0,
    }
}

pub open spec fn args_depth(args: Seq<TypeView>) -> nat
    decreases args,
{
    if args.len() == 0 {
        0
    } else {
        proof {
            assert(decreases_to!(args => args.drop_last()));
            assert(decreases_to!(args => args[args.len() - 1]));
        }
        args_depth(args.drop_last()) + type_depth(args.last())
    }
}

proof fn lemma_args_depth(args: Seq<TypeView>, i: int)
    requires
        0 <= i < args.len(),
    ensures
        type_depth(args[i]) <= args_depth(args),
    decreases args.len(),
{
    if i < args.len() - 1 {
        lemma_args_depth(args.drop_last(), i);
    }
}

proof fn lemma_prerequisites_shallower(t: TypeView, j: int)
    requires
        0 <= j < prerequisites(t).len(),
    ensures
        type_depth(prerequisites(t)[j]) < type_depth(t),
{
    match t {
        TypeView::Function(args, res) => {
            if j > 0 {
                assert(prerequisites(t)[j] == args[j - 1]);
                lemma_args_depth(args, j - 1);
            }
        },
        _ => {},
    }
}

proof fn lemma_derives_depth(a: TypeView, x: TypeView, k: nat)
    requires
        derives(a, x, k),
    ensures
        type_depth(x) <= type_depth(a),
    decreases k,
{
    if a != x {
        let i = choose|i: int| 0 <= i < prerequisites(a).len() && derives(#[trigger] prerequisites(a)[i], x, (k - 1) as nat);
        lemma_derives_depth(prerequisites(a)[i], x, (k - 1) as nat);
        lemma_prerequisites_shallower(a, i);
    }
}

/// After declaring prerequisite `j` of `t`: what was declared stays, the new
/// declarations are needed by `t` and shallower than it.
proof fn lemma_after_prerequisite(
    before: Seq<(Type, BlockLocalRef)>,
    after: Seq<(Type, BlockLocalRef)>,
    out0: Seq<(Type, BlockLocalRef)>,
    t: TypeView,
    j: int,
)
    requires
        0 <= j < prerequisites(t).len(),
        out0.len() <= before.len() <= after.len(),
        forall|k: int| 0 <= k < before.len() ==> after[k] == before[k],
        forall|k: int|
            out0.len() <= k < before.len() ==> type_depth(#[trigger] emitted(before)[k]) < type_depth(t) && needs(
                t,
                emitted(before)[k],
            ),
        forall|k: int| before.len() <= k < after.len() ==> needs(prerequisites(t)[j], #[trigger] emitted(after)[k]),
    ensures
        forall|k: int|
            out0.len() <= k < after.len() ==> type_depth(#[trigger] emitted(after)[k]) < type_depth(t) && needs(
                t,
                emitted(after)[k],
            ),
{
    assert forall|k: int| out0.len() <= k < after.len() implies type_depth(#[trigger] emitted(after)[k]) < type_depth(t)
        && needs(t, emitted(after)[k]) by {
        if k >= before.len() {
            let y = emitted(after)[k];
            let n = choose|n: nat| derives(prerequisites(t)[j], y, n);
            lemma_derives_depth(prerequisites(t)[j], y, n);
            lemma_prerequisites_shallower(t, j);
            assert(derives(t, y, n + 1));
        } else {
            assert(emitted(after)[k] == emitted(before)[k]);
        }
    }
}

/// Declaring `t` last keeps the declarations in agreement.
proof fn lemma_emit_push(
    out: Seq<(Type, BlockLocalRef)>,
    locals: Seq<BlockLocal<OpVoid, OpExprUntyped>>,
    id: BlockId,
    tnew: Type,
    x: OpExprUntyped,
)
    requires
        emit_wf(out, locals, id),
        !emitted(out).contains(tnew@),
        forall|j: int| 0 <= j < prerequisites(tnew@).len() ==> emitted(out).contains(#[trigger] prerequisites(tnew@)[j]),
        untyped_view(x) == type_instr(tnew@, emitted(out), id),
    ensures
        emit_wf(
            out.push((tnew, BlockLocalRef { block: id, local: out.len() as usize })),
            locals.push(BlockLocal::Valued(x)),
            id,
        ),
{
    let out2 = out.push((tnew, BlockLocalRef { block: id, local: out.len() as usize }));
    let locals2 = locals.push(BlockLocal::Valued(x));
    let s = emitted(out);
    let s2 = emitted(out2);
    assert(s2 =~= s.push(tnew@));
    assert(out2.len() == locals2.len());
    assert(unique_types(s2)) by {
        assert forall|a: int, b: int| 0 <= a < b < s2.len() implies s2[a] != s2[b] by {
            if b == s.len() {
                assert(s2[a] == s[a]);
                assert(s.contains(s[a]));
            } else {
                assert(s2[a] == s[a] && s2[b] == s[b]);
            }
        }
    }
    assert forall|i: int| 0 <= i < out2.len() implies (#[trigger] out2[i]).1 == (BlockLocalRef {
        block: id,
        local: i as usize,
    }) by {
        if i < out.len() {
            assert(out2[i] == out[i]);
        }
    }
    assert forall|i: int| 0 <= i < s2.len() implies ((#[trigger] locals2[i]) matches BlockLocal::Valued(y)
        && untyped_view(y) == type_instr(s2[i], s2, id)) by {
        if i < s.len() {
            assert(locals2[i] == locals[i]);
            assert(s2[i] == s[i]);
            assert forall|j: int| 0 <= j < prerequisites(s[i]).len() implies s.contains(#[trigger] prerequisites(s[i])[j]) by {
                let k = choose|k: int| 0 <= k < i && s[k] == prerequisites(s[i])[j];
            }
            lemma_type_instr_stable(s, s2, s[i], id);
        } else {
            assert(locals2[i] == BlockLocal::<OpVoid, OpExprUntyped>::Valued(x));
            assert(s2[i] == tnew@);
            lemma_type_instr_stable(s, s2, tnew@, id);
        }
    }
    assert forall|i: int, j: int|
        0 <= i < s2.len() && 0 <= j < prerequisites(s2[i]).len() implies declared_before(s2, i, #[trigger] prerequisites(s2[i])[j]) by {
        if i == s.len() {
            assert(s2[i] == tnew@);
            let k = choose|k: int| 0 <= k < s.len() && s[k] == prerequisites(tnew@)[j];
            assert(s2[k] == s[k]);
        } else {
            assert(s2[i] == s[i]);
            let k = choose|k: int| 0 <= k < i && s[k] == prerequisites(s[i])[j];
            assert(s2[k] == s[k]);
        }
    }
    assert(emitted(out2) == s2);
    assert(forall|i: int|
        0 <= i < s2.len() ==> ((#[trigger] locals2[i]) matches BlockLocal::Valued(y) && untyped_view(y) == type_instr(
            s2[i],
            s2,
            id,
        )));
    assert(forall|i: int| 0 <= i < out2.len() ==> (#[trigger] out2[i]).1 == (BlockLocalRef { block: id, local: i as usize }));
}

/// A declared type keeps its position as more are declared.
proof fn lemma_ref_stable(before: Seq<(Type, BlockLocalRef)>, after: Seq<(Type, BlockLocalRef)>, x: TypeView, id: BlockId)
    requires
        unique_types(emitted(after)),
        before.len() <= after.len(),
        forall|k: int| 0 <= k < before.len() ==> after[k] == before[k],
        emitted(before).contains(x),
    ensures
        emitted(after).contains(x),
        ref_of(emitted(after), x, id) == ref_of(emitted(before), x, id),
{
    let w = choose|w: int| 0 <= w < emitted(before).len() && emitted(before)[w] == x;
    assert(emitted(after)[w] == x);
    assert(unique_types(emitted(before))) by {
        assert forall|a: int, b: int| 0 <= a < b < emitted(before).len() implies emitted(before)[a] != emitted(
            before,
        )[b] by {
            assert(emitted(after)[a] == emitted(before)[a]);
            assert(emitted(after)[b] == emitted(before)[b]);
        }
    }
    lemma_position(emitted(before), x, w);
    lemma_position(emitted(after), x, w);
}

/// Declares `t` (after what it refers to) unless it is declared already;
/// returns the local declaring it.
fn emit_type(t: &Type, out: &mut Vec<(Type, BlockLocalRef)>, b: &mut BlockBuilder<OpVoid, OpExprUntyped>) -> (r: BlockLocalRef)
    requires
        emit_wf(old(out)@, old(b).locals@, old(b).id),
    ensures
        final(b).id == old(b).id,
        emit_wf(final(out)@, final(b).locals@, final(b).id),
        old(out)@.len() <= final(out)@.len(),
        forall|i: int| 0 <= i < old(out)@.len() ==> final(out)@[i] == old(out)@[i],
        emitted(final(out)@).contains(t@),
        r == ref_of(emitted(final(out)@), t@, final(b).id),
        forall|i: int| old(out)@.len() <= i < final(out)@.len() ==> needs(t@, #[trigger] emitted(final(out)@)[i]),
    decreases type_depth(t@),
{
    match find_type(out, t) {
        Some(k) => {
            proof {
                lemma_position(emitted(out@), t@, k as int);
            }
            return out[k].1;
        },
        None => {},
    }
    let ghost out0 = out@;
    let ghost id = b.id;
    let instr: OpExprUntyped = match t {
        Type::Concrete(Concrete::Number(NumberKind::Integer(Integer::Signed(w)))) => OpExprUntyped::TypeInt {
            width: *w,
            signed: true,
        },
        Type::Concrete(Concrete::Number(NumberKind::Integer(Integer::Unsigned(w)))) => OpExprUntyped::TypeInt {
            width: *w,
            signed: false,
        },
        Type::Concrete(Concrete::Number(NumberKind::Float(f))) => OpExprUntyped::TypeFloat { width: f.width },
        Type::Concrete(Concrete::Vector(v)) => {
            let c = types::number(v.component_type);
            proof {
                assert(prerequisites(t@)[0] == c@);
                lemma_prerequisites_shallower(t@, 0);
            }
            let r = emit_type(&c, out, b);
            proof {
                lemma_after_prerequisite(out0, out@, out0, t@, 0);
            }
            OpExprUntyped::TypeVector { component: r, count: v.component_count }
        },
        Type::Concrete(Concrete::Matrix(m)) => {
            let c = types::vector(m.column_type);
            proof {
                assert(prerequisites(t@)[0] == c@);
                lemma_prerequisites_shallower(t@, 0);
            }
            let r = emit_type(&c, out, b);
            proof {
                lemma_after_prerequisite(out0, out@, out0, t@, 0);
            }
            OpExprUntyped::TypeMatrix { column: r, count: m.column_count }
        },
        Type::Abstract(Abstract::Void(_)) => OpExprUntyped::TypeVoid,
        Type::Abstract(Abstract::Bool(_)) => OpExprUntyped::TypeBool,
        Type::Pointer(p) => {
            proof {
                assert(prerequisites(t@)[0] == (*p.target)@);
                lemma_prerequisites_shallower(t@, 0);
            }
            let r = emit_type(&p.target, out, b);
            proof {
                lemma_after_prerequisite(out0, out@, out0, t@, 0);
            }
            OpExprUntyped::TypePointer { storage_class: p.storage_class, pointee: r }
        },
        Type::Function(f) => {
            proof {
                assert(prerequisites(t@)[0] == (*f.result)@);
                lemma_prerequisites_shallower(t@, 0);
            }
            let ret = emit_type(&f.result, out, b);
            proof {
                lemma_after_prerequisite(out0, out@, out0, t@, 0);
            }
            let mut params: Vec<BlockLocalRef> = Vec::new();
            let mut i: usize = 0;
            proof {
                types::lemma_types_view(f.args@);
            }
            while i < f.args.len()
                invariant
                    *t == Type::Function(*f),
                    i <= f.args@.len(),
                    b.id == id,
                    emit_wf(out@, b.locals@, b.id),
                    out0.len() <= out@.len(),
                    forall|k: int| 0 <= k < out0.len() ==> out@[k] == out0[k],
                    forall|k: int|
                        out0.len() <= k < out@.len() ==> type_depth(#[trigger] emitted(out@)[k]) < type_depth(t@)
                            && needs(t@, emitted(out@)[k]),
                    emitted(out@).contains((*f.result)@),
                    ret == ref_of(emitted(out@), (*f.result)@, id),
                    types::types_view(f.args@).len() == f.args@.len(),
                    forall|k: int| 0 <= k < f.args@.len() ==> #[trigger] types::types_view(f.args@)[k] == f.args@[k]@,
                    params@.len() == i,
                    forall|k: int| 0 <= k < i ==> emitted(out@).contains(#[trigger] types::types_view(f.args@)[k]),
                    forall|k: int|
                        0 <= k < i ==> #[trigger] params@[k] == ref_of(emitted(out@), types::types_view(f.args@)[k], id),
                decreases f.args@.len() - i,
            {
                proof {
                    assert(prerequisites(t@)[i + 1] == types::types_view(f.args@)[i as int]);
                    lemma_prerequisites_shallower(t@, i + 1);
                }
                let ghost before = out@;
                let r = emit_type(&f.args[i], out, b);
                proof {
                    lemma_after_prerequisite(before, out@, out0, t@, i + 1);
                    assert forall|k: int| 0 <= k < i implies emitted(out@).contains(
                        #[trigger] types::types_view(f.args@)[k],
                    ) && ref_of(emitted(out@), types::types_view(f.args@)[k], id) == ref_of(
                        emitted(before),
                        types::types_view(f.args@)[k],
                        id,
                    ) by {
                        lemma_ref_stable(before, out@, types::types_view(f.args@)[k], id);
                    }
                    lemma_ref_stable(before, out@, (*f.result)@, id);
                }
                params.push(r);
                i += 1;
            }
            proof {
                let args = types::types_view(f.args@);
                assert(params@ =~= args.map_values(|a: TypeView| ref_of(emitted(out@), a, id)));
            }
            OpExprUntyped::TypeFunction { ret, params }
        },
    };
    proof {
        assert(!emitted(out@).contains(t@)) by {
            if emitted(out@).contains(t@) {
                let k = choose|k: int| 0 <= k < emitted(out@).len() && emitted(out@)[k] == t@;
                if k < out0.len() {
                    assert(emitted(out0)[k] == t@);
                }
            }
        }
        assert forall|j: int| 0 <= j < prerequisites(t@).len() implies emitted(out@).contains(
            #[trigger] prerequisites(t@)[j],
        ) by {
            match t@ {
                TypeView::Function(args, res) => {
                    if j > 0 {
                        assert(prerequisites(t@)[j] == args[j - 1]);
                    }
                },
                _ => {},
            }
        }
    }
    let ghost bl = b.locals@;
    let r = b.push_valued_local(instr);
    let tc = type_copy(t);
    proof {
        lemma_emit_push(out@, bl, id, tc, instr);
    }
    let ghost before_push = out@;
    out.push((tc, r));
    proof {
        assert(emitted(out@) =~= emitted(before_push).push(t@));
        lemma_position(emitted(out@), t@, before_push.len() as int);
        assert(derives(t@, t@, 0));
        assert forall|i: int| out0.len() <= i < out@.len() implies needs(t@, #[trigger] emitted(out@)[i]) by {
            if i < before_push.len() {
                assert(emitted(out@)[i] == emitted(before_push)[i]);
            } else {
                assert(emitted(out@)[i] == t@);
                assert(derives(t@, t@, 0));
            }
        }
    }
    r
}


/// Whether one of the first `n` of `ts` needs `x` declared.
pub open spec fn needed_by(ts: Seq<Type>, n: int, x: TypeView) -> bool {
    exists|j: int| 0 <= j < n && needs(ts[j]@, x)
}

/// A block declaring each of `types_to_build` and every type they refer to,
/// each once and after what it refers to, nothing else; and which local
/// declares which type.
pub fn types_to_asm(types_to_build: Vec<Type>, blockctx: &mut Ctx) -> (r: (
    Block<OpVoid, OpExprUntyped, ()>,
    Vec<(Type, BlockLocalRef)>,
))
    requires
        old(blockctx).next_id < u64::MAX,
    ensures
        final(blockctx).next_id == old(blockctx).next_id + 1,
        r.0.id == BlockId(old(blockctx).next_id),
        emit_wf(r.1@, r.0.locals@, r.0.id),
        forall|i: int| 0 <= i < types_to_build@.len() ==> emitted(r.1@).contains(#[trigger] types_to_build@[i]@),
        forall|k: int| 0 <= k < r.1@.len() ==> needed_by(types_to_build@, types_to_build@.len() as int, #[trigger] emitted(r.1@)[k]),
{
    let mut b: BlockBuilder<OpVoid, OpExprUntyped> = blockctx.start_block();
    let mut out: Vec<(Type, BlockLocalRef)> = Vec::new();
    let ghost id = b.id;
    assert(emitted(out@) =~= Seq::<TypeView>::empty());
    let mut i: usize = 0;
    while i < types_to_build.len()
        invariant
            i <= types_to_build@.len(),
            b.id == id,
            emit_wf(out@, b.locals@, id),
            forall|k: int| 0 <= k < i ==> emitted(out@).contains(#[trigger] types_to_build@[k]@),
            forall|k: int| 0 <= k < out@.len() ==> needed_by(types_to_build@, i as int, #[trigger] emitted(out@)[k]),
        decreases types_to_build@.len() - i,
    {
        let ghost before = out@;
        emit_type(&types_to_build[i], &mut out, &mut b);
        proof {
            assert forall|k: int| 0 <= k < i implies emitted(out@).contains(#[trigger] types_to_build@[k]@) by {
                lemma_ref_stable(before, out@, types_to_build@[k]@, id);
            }
            assert forall|k: int| 0 <= k < out@.len() implies needed_by(types_to_build@, i + 1, #[trigger] emitted(out@)[k]) by {
                if k < before.len() {
                    assert(emitted(out@)[k] == emitted(before)[k]);
                    assert(needed_by(types_to_build@, i as int, emitted(before)[k]));
                    let j = choose|j: int| 0 <= j < i && needs(types_to_build@[j]@, emitted(before)[k]);
                } else {
                    assert(needs(types_to_build@[i as int]@, emitted(out@)[k]));
                }
            }
        }
        i += 1;
    }
    (b.finish(()), out)
}

} // verus!
