//! Deciding beforehand whether intermediate code generation handles a file.
//!
//! Generation succeeds or fails on the shape of the file, its types, which
//! names already have a local (a name gets one when its argument or its
//! declaration is generated, and a name is declared once) and how many block
//! ids are left.  Planning follows generation step by step, keeping only a
//! mark per name and the next block id.
use vstd::prelude::*;
use crate::ast::{ArgView, Expr, ExprData, ExprView, ExprDataView, Function, FunctionView, File};
use crate::block::BlockLocalRef;
use crate::compiler::{NamespaceItemFullyTyped, initial_items};
use crate::iil::{HLocalView, HExprView, OpExprView};
use crate::iilgen::{
    GenState, IILItemView, binary_op, gen_expr, gen_valued, gen_discard, gen_args, gen_function, push_local,
    next_ref, set_block_ref,
};
use crate::module::{gen_functions, file_functions, file_gen_ok};
use crate::scope::{
    Universe, ScopeId, ScopeView, insert_item, lookup_view, defining_scope, lemma_defining_scope, map_scopes,
    lemma_map_scopes_lookup, lemma_map_scopes_insert,
};
use crate::typing::scope_of;

verus! {

/// Whether a name already has a local.
pub open spec fn bound_fn() -> spec_fn(IILItemView) -> bool {
    |it: IILItemView| it.block_ref is Some
}

/// The names of `items`, each marked with whether it has a local.
pub open spec fn marks_of(items: Seq<ScopeView<IILItemView>>) -> Seq<ScopeView<bool>> {
    map_scopes(items, bound_fn())
}

/// What planning keeps of generation: the next block id and the marks.
pub struct Plan {
    pub next_id: nat,
    pub marks: Seq<ScopeView<bool>>,
}

/// What planning keeps of a generation state.
pub open spec fn abs(st: GenState) -> Plan {
    Plan { next_id: st.next_id, marks: marks_of(st.items) }
}

/// `m` with the name `name`, as found from scope `s`, marked.
pub open spec fn set_mark(m: Seq<ScopeView<bool>>, s: nat, name: Seq<char>) -> Seq<ScopeView<bool>> {
    match defining_scope(m, s, name) {
        Some(d) => insert_item(m, d, name, true),
        None => m,
    }
}

/// Planning `e` from `cs`: the state after, or `None` where generation
/// fails.
pub open spec fn plan_expr(cs: Plan, e: ExprView) -> Option<Plan>
    decreases e, 1int,
{
    match e.data {
        ExprDataView::InfixOp(l, op, _, r) => if l.data is Declaration || r.data is Declaration {
            None
        } else {
            match plan_expr(cs, *l) {
                Some(c1) => match plan_expr(c1, *r) {
                    Some(c2) => if binary_op(op, e.sidecar.ty) is Some {
                        Some(c2)
                    } else {
                        None
                    },
                    None => None,
                },
                None => None,
            }
        },
        ExprDataView::Var(name, _) => if lookup_view(cs.marks, scope_of(e), name) == Some(true) {
            Some(cs)
        } else {
            None
        },
        ExprDataView::Declaration(name, _, v) => if lookup_view(cs.marks, scope_of(e), name) == Some(false)
            && !(v.data is Declaration) {
            plan_expr(Plan { next_id: cs.next_id, marks: set_mark(cs.marks, scope_of(e), name) }, *v)
        } else {
            None
        },
        ExprDataView::Block(es, last, _) => if cs.next_id >= u64::MAX {
            None
        } else {
            match plan_list(Plan { next_id: cs.next_id + 1, marks: cs.marks }, es) {
                Some(c1) => match last {
                    None => Some(c1),
                    Some(t) => plan_expr(c1, *t),
                },
                None => None,
            }
        },
        _ => Some(cs),
    }
}

/// Planning expressions in order.
pub open spec fn plan_list(cs: Plan, es: Seq<ExprView>) -> Option<Plan>
    decreases es, 0int,
{
    if es.len() == 0 {
        Some(cs)
    } else {
        proof {
            assert(decreases_to!(es => es.drop_last()));
            assert(decreases_to!(es => es[es.len() - 1]));
        }
        match plan_list(cs, es.drop_last()) {
            Some(c1) => plan_expr(c1, es.last()),
            None => None,
        }
    }
}

proof fn lemma_marks_set(items: Seq<ScopeView<IILItemView>>, s: nat, name: Seq<char>, r: BlockLocalRef)
    ensures
        marks_of(set_block_ref(items, s, name, r)) == set_mark(marks_of(items), s, name),
{
    lemma_map_scopes_lookup(items, bound_fn(), s, name);
    lemma_defining_scope(items, s, name);
    match defining_scope(items, s, name) {
        Some(d) => {
            let it = IILItemView { ty: items[d as int].items[name].ty, block_ref: Some(r) };
            lemma_map_scopes_insert(items, bound_fn(), d, name, it);
        },
        None => {},
    }
}

/// Planning follows generation: it succeeds exactly where generation does,
/// in the state generation leaves (as far as it keeps it), and a
/// declaration is the only expression that stands for no value.
pub proof fn lemma_plan_expr(st: GenState, e: ExprView)
    ensures
        (gen_expr(st, e) is Some) == (plan_expr(abs(st), e) is Some),
        gen_expr(st, e) matches Some((st2, l)) ==> plan_expr(abs(st), e) == Some(abs(st2)) && (l is Valued
            <==> !(e.data is Declaration)),
    decreases e, 1int,
{
    match e.data {
        ExprDataView::InfixOp(l, op, _, r) => {
            lemma_plan_expr(st, *l);
            match gen_expr(st, *l) {
                Some((st1, lv)) => {
                    let st1p = push_local(st1, lv);
                    assert(abs(st1p) == abs(st1));
                    lemma_plan_expr(st1p, *r);
                    if let HLocalView::Valued(x) = lv {
                        assert(gen_valued(st, *l) == Some((st1p, next_ref(st1))));
                        match gen_expr(st1p, *r) {
                            Some((st2, rv)) => {
                                let st2p = push_local(st2, rv);
                                assert(abs(st2p) == abs(st2));
                                if let HLocalView::Valued(y) = rv {
                                    assert(gen_valued(st1p, *r) == Some((st2p, next_ref(st2))));
                                    assert(!(l.data is Declaration));
                                    assert(!(r.data is Declaration));
                                    assert(plan_expr(abs(st), *l) == Some(abs(st1)));
                                    assert(plan_expr(abs(st1), *r) == Some(abs(st2)));
                                    if binary_op(op, e.sidecar.ty) is Some {
                                        assert(plan_expr(abs(st), e) == Some(abs(st2)));
                                        assert(gen_expr(st, e) is Some);
                                    } else {
                                        assert(plan_expr(abs(st), e) is None);
                                        assert(gen_expr(st, e) is None);
                                    }
                                } else {
                                    assert(gen_valued(st1p, *r) is None);
                                    assert(r.data is Declaration);
                                    assert(gen_expr(st, e) is None);
                                    assert(plan_expr(abs(st), e) is None);
                                }
                            },
                            None => {
                                assert(gen_valued(st1p, *r) is None);
                                assert(gen_expr(st, e) is None);
                                assert(plan_expr(abs(st), e) is None);
                            },
                        }
                    } else {
                        assert(gen_valued(st, *l) is None);
                        assert(gen_expr(st, e) is None);
                        assert(plan_expr(abs(st), e) is None);
                    }
                },
                None => {
                    assert(gen_valued(st, *l) is None);
                    assert(gen_expr(st, e) is None);
                    assert(plan_expr(abs(st), e) is None);
                },
            }
        },
        ExprDataView::Var(name, _) => {
            lemma_map_scopes_lookup(st.items, bound_fn(), scope_of(e), name);
            assert((gen_expr(st, e) is Some) == (plan_expr(abs(st), e) is Some));
        },
        ExprDataView::Declaration(name, _, v) => {
            let s = scope_of(e);
            lemma_map_scopes_lookup(st.items, bound_fn(), s, name);
            match lookup_view(st.items, s, name) {
                Some(item) => if item.block_ref is None {
                    let var_ref = next_ref(st);
                    let st0 = push_local(
                        st,
                        HLocalView::Valued(HExprView::Op(OpExprView::Variable(item.ty, crate::types::StorageClass::Function))),
                    );
                    let st1 = GenState {
                        cur: st0.cur,
                        cur_id: st0.cur_id,
                        next_id: st0.next_id,
                        items: set_block_ref(st0.items, s, name, var_ref),
                    };
                    lemma_marks_set(st0.items, s, name, var_ref);
                    assert(abs(st1) == Plan { next_id: st.next_id, marks: set_mark(abs(st).marks, s, name) });
                    lemma_plan_expr(st1, *v);
                    assert(lookup_view(abs(st).marks, s, name) == Some(false));
                    match gen_expr(st1, *v) {
                        Some((st2, vv)) => {
                            if let HLocalView::Valued(x) = vv {
                                let st2p = push_local(st2, vv);
                                assert(gen_valued(st1, *v) == Some((st2p, next_ref(st2))));
                                let st3 = push_local(
                                    st2p,
                                    HLocalView::Void(crate::iil::OpVoid::Store { pointer: var_ref, object: next_ref(st2) }),
                                );
                                assert(abs(st3) == abs(st2));
                                assert(gen_expr(st, e) == Some((st3, HLocalView::Void(crate::iil::OpVoid::Nop))));
                            } else {
                                assert(gen_valued(st1, *v) is None);
                            }
                        },
                        None => {
                            assert(gen_valued(st1, *v) is None);
                        },
                    }
                    assert((gen_expr(st, e) is Some) == (plan_expr(abs(st), e) is Some));
                } else {
                    assert((gen_expr(st, e) is Some) == (plan_expr(abs(st), e) is Some));
                },
                None => {
                    assert((gen_expr(st, e) is Some) == (plan_expr(abs(st), e) is Some));
                },
            }
        },
        ExprDataView::Block(es, last, _) => {
            if st.next_id < u64::MAX {
                let inner = GenState {
                    cur: Seq::empty(),
                    cur_id: crate::block::BlockId(st.next_id as u64),
                    next_id: st.next_id + 1,
                    items: st.items,
                };
                lemma_plan_list(inner, es);
                match gen_discard(inner, es) {
                    Some(in1) => {
                        if let Some(t) = last {
                            lemma_plan_expr(in1, *t);
                        }
                        assert((gen_expr(st, e) is Some) == (plan_expr(abs(st), e) is Some));
                    },
                    None => {
                        assert((gen_expr(st, e) is Some) == (plan_expr(abs(st), e) is Some));
                    },
                }
            }
        },
        _ => {},
    }
}

/// Planning a sequence follows discarding generation.
pub proof fn lemma_plan_list(st: GenState, es: Seq<ExprView>)
    ensures
        (gen_discard(st, es) is Some) == (plan_list(abs(st), es) is Some),
        gen_discard(st, es) matches Some(st2) ==> plan_list(abs(st), es) == Some(abs(st2)),
    decreases es, 0int,
{
    if es.len() > 0 {
        lemma_plan_list(st, es.drop_last());
        match gen_discard(st, es.drop_last()) {
            Some(st1) => lemma_plan_expr(st1, es.last()),
            None => {},
        }
    }
}

/// Planning arguments: each name must have no local yet, and gets marked.
pub open spec fn plan_args(cs: Plan, s: nat, args: Seq<ArgView>) -> Option<Plan>
    decreases args.len(),
{
    if args.len() == 0 {
        Some(cs)
    } else {
        match plan_args(cs, s, args.drop_last()) {
            Some(c1) => if lookup_view(c1.marks, s, args.last().name) == Some(false) {
                Some(Plan { next_id: c1.next_id, marks: set_mark(c1.marks, s, args.last().name) })
            } else {
                None
            },
            None => None,
        }
    }
}

/// Planning a function from block id `next_id` on: the next block id and
/// the marks after.
pub open spec fn plan_function(next_id: nat, marks: Seq<ScopeView<bool>>, f: FunctionView) -> Option<
    (nat, Seq<ScopeView<bool>>),
> {
    if next_id >= u64::MAX {
        None
    } else {
        let s = match f.sidecar {
            Some(s) => s,
            None => 0,
        };
        match plan_args(Plan { next_id: next_id + 1, marks }, s, f.args) {
            Some(c1) => match plan_expr(c1, f.body) {
                Some(c2) => Some((c2.next_id, c2.marks)),
                None => None,
            },
            None => None,
        }
    }
}

/// Planning functions in order.
pub open spec fn plan_functions(next_id: nat, marks: Seq<ScopeView<bool>>, fs: Seq<FunctionView>) -> Option<
    (nat, Seq<ScopeView<bool>>),
>
    decreases fs.len(),
{
    if fs.len() == 0 {
        Some((next_id, marks))
    } else {
        match plan_functions(next_id, marks, fs.drop_last()) {
            Some((n1, m1)) => plan_function(n1, m1, fs.last()),
            None => None,
        }
    }
}

proof fn lemma_plan_args(st: GenState, s: nat, args: Seq<ArgView>)
    ensures
        (gen_args(st, s, args) is Some) == (plan_args(abs(st), s, args) is Some),
        gen_args(st, s, args) matches Some(st2) ==> plan_args(abs(st), s, args) == Some(abs(st2)),
    decreases args.len(),
{
    if args.len() > 0 {
        lemma_plan_args(st, s, args.drop_last());
        match gen_args(st, s, args.drop_last()) {
            Some(st1) => {
                let a = args.last();
                lemma_map_scopes_lookup(st1.items, bound_fn(), s, a.name);
                match lookup_view(st1.items, s, a.name) {
                    Some(item) => if item.block_ref is None {
                        let r = next_ref(st1);
                        let st2 = push_local(
                            st1,
                            HLocalView::Valued(
                                HExprView::Op(
                                    OpExprView::FunctionParameter(
                                        crate::types::TypeView::Pointer(crate::types::StorageClass::Function, Box::new(a.ty)),
                                    ),
                                ),
                            ),
                        );
                        lemma_marks_set(st2.items, s, a.name, r);
                    },
                    None => {},
                }
            },
            None => {},
        }
    }
}

proof fn lemma_plan_function(next_id: nat, items: Seq<ScopeView<IILItemView>>, f: FunctionView)
    ensures
        (gen_function(next_id, items, f) is Some) == (plan_function(next_id, marks_of(items), f) is Some),
        gen_function(next_id, items, f) matches Some((n2, it2, _)) ==> plan_function(next_id, marks_of(items), f)
            == Some((n2, marks_of(it2))),
{
    if next_id < u64::MAX {
        let s = match f.sidecar {
            Some(s) => s,
            None => 0,
        };
        let st0 = GenState { cur: Seq::empty(), cur_id: crate::block::BlockId(next_id as u64), next_id: next_id + 1, items };
        lemma_plan_args(st0, s, f.args);
        match gen_args(st0, s, f.args) {
            Some(st1) => {
                let st2 = push_local(st1, HLocalView::Valued(HExprView::OpUntyped(crate::iil::OpUntypedView::Label)));
                assert(abs(st2) == abs(st1));
                lemma_plan_expr(st2, f.body);
            },
            None => {},
        }
    }
}

proof fn lemma_plan_functions(next_id: nat, items: Seq<ScopeView<IILItemView>>, fs: Seq<FunctionView>)
    ensures
        (gen_functions(next_id, items, fs) is Some) == (plan_functions(next_id, marks_of(items), fs) is Some),
        gen_functions(next_id, items, fs) matches Some((n2, it2, hs)) ==> plan_functions(next_id, marks_of(items), fs)
            == Some((n2, marks_of(it2))) && hs.len() == fs.len(),
    decreases fs.len(),
{
    if fs.len() > 0 {
        lemma_plan_functions(next_id, items, fs.drop_last());
        match gen_functions(next_id, items, fs.drop_last()) {
            Some((n1, it1, done)) => lemma_plan_function(n1, it1, fs.last()),
            None => {},
        }
    }
}

proof fn lemma_plan_functions_concat(next_id: nat, marks: Seq<ScopeView<bool>>, a: Seq<FunctionView>, b: Seq<FunctionView>)
    ensures
        plan_functions(next_id, marks, a + b) == match plan_functions(next_id, marks, a) {
            Some((n1, m1)) => plan_functions(n1, m1, b),
            None => None,
        },
    decreases b.len(),
{
    if b.len() == 0 {
        assert(a + b == a);
    } else {
        lemma_plan_functions_concat(next_id, marks, a, b.drop_last());
        assert((a + b).drop_last() == a + b.drop_last());
        assert((a + b).last() == b.last());
    }
}

/// Generation handles the file: as `file_gen_ok` says, decided on the marks.
pub open spec fn plan_file(marks: Seq<ScopeView<bool>>, gs: Seq<(Seq<char>, Seq<FunctionView>)>) -> bool {
    match plan_functions(1, marks, file_functions(gs)) {
        Some((n1, _)) => n1 + file_functions(gs).len() + 3 < u64::MAX,
        None => false,
    }
}

proof fn lemma_plan_file(items: Seq<ScopeView<IILItemView>>, gs: Seq<(Seq<char>, Seq<FunctionView>)>)
    ensures
        file_gen_ok(0, items, gs) == plan_file(marks_of(items), gs),
{
    lemma_plan_functions(1, items, file_functions(gs));
}

// ---------------------------------------------------------------------------
// Planning, executable.
// ---------------------------------------------------------------------------

fn scope_id_of(scope: Option<ScopeId>, marks: &Universe<bool>) -> (r: ScopeId)
    requires
        marks.wf(),
    ensures
        r.idx() == match scope {
            Some(s) => s.idx(),
            None => 0,
        },
{
    proof {
        marks.lemma_wf();
    }
    match scope {
        Some(s) => s,
        None => marks.root_scope_id(),
    }
}

fn mark_of(marks: &Universe<bool>, id: ScopeId, name: &String) -> (r: Option<bool>)
    requires
        marks.wf(),
    ensures
        r == lookup_view(marks@, id.idx(), name@),
{
    if !marks.contains_scope(id) {
        return None;
    }
    match marks.scope_lookup(id, name.as_str()) {
        Some(b) => Some(*b),
        None => None,
    }
}

fn set_mark_exec(marks: &mut Universe<bool>, id: ScopeId, name: &String)
    requires
        old(marks).wf(),
        lookup_view(old(marks)@, id.idx(), name@) is Some,
    ensures
        final(marks).wf(),
        final(marks)@ == set_mark(old(marks)@, id.idx(), name@),
{
    proof {
        lemma_defining_scope(marks@, id.idx(), name@);
    }
    let f = |_b: &bool| -> (r: bool)
        ensures
            r,
        { true };
    let _ = marks.scope_lookup_and_modify(id, name.as_str(), f);
}

proof fn lemma_plan_list_prefix(cs: Plan, es: Seq<ExprView>, k: int)
    requires
        0 <= k <= es.len(),
        plan_list(cs, es.take(k)) is None,
    ensures
        plan_list(cs, es) is None,
    decreases es.len() - k,
{
    if k < es.len() {
        assert(es.take(k + 1).drop_last() == es.take(k));
        lemma_plan_list_prefix(cs, es, k + 1);
    } else {
        assert(es.take(k) == es);
    }
}

fn plan_expr_exec(e: &Expr, marks: &mut Universe<bool>, next_id: &mut u64) -> (ok: bool)
    requires
        old(marks).wf(),
    ensures
        final(marks).wf(),
        ok == (plan_expr(Plan { next_id: *old(next_id) as nat, marks: old(marks)@ }, e@) is Some),
        ok ==> plan_expr(Plan { next_id: *old(next_id) as nat, marks: old(marks)@ }, e@) == Some(
            Plan { next_id: *final(next_id) as nat, marks: final(marks)@ },
        ),
    decreases e,
{
    let ghost cs = Plan { next_id: *next_id as nat, marks: marks@ };
    match &e.data {
        ExprData::InfixOp(l, op, r) => {
            proof {
                assert(e@.data == ExprDataView::InfixOp(Box::new(l@), op.inner, op.span, Box::new(r@)));
            }
            if matches!(l.data, ExprData::Declaration { .. }) || matches!(r.data, ExprData::Declaration { .. }) {
                return false;
            }
            if !plan_expr_exec(l, marks, next_id) {
                return false;
            }
            if !plan_expr_exec(r, marks, next_id) {
                return false;
            }
            crate::iilgen::binary_op_exec(op.inner, &e.sidecar.ty).is_some()
        },
        ExprData::Var(v) => {
            let id = scope_id_of(e.sidecar.scope, marks);
            match mark_of(marks, id, &v.inner) {
                Some(b) => b,
                None => false,
            }
        },
        ExprData::Declaration { name, value } => {
            proof {
                assert(e@.data == ExprDataView::Declaration(name.inner@, name.span, Box::new(value@)));
            }
            if matches!(value.data, ExprData::Declaration { .. }) {
                return false;
            }
            let id = scope_id_of(e.sidecar.scope, marks);
            match mark_of(marks, id, &name.inner) {
                Some(false) => {},
                _ => return false,
            }
            set_mark_exec(marks, id, &name.inner);
            plan_expr_exec(value, marks, next_id)
        },
        ExprData::Block(b) => {
            if *next_id == u64::MAX {
                return false;
            }
            *next_id = *next_id + 1;
            let ghost cs0 = Plan { next_id: *next_id as nat, marks: marks@ };
            let ghost es = crate::ast::exprs_view(b.inner.exprs@);
            proof {
                assert(e@.data == ExprDataView::Block(es, match b.inner.last {
                    Some(t) => Some(Box::new(crate::ast::expr_view(*t))),
                    None => None,
                }, b.span));
                crate::ast::lemma_exprs_view(b.inner.exprs@);
                assert(es.take(0) =~= Seq::<ExprView>::empty());
                assert(decreases_to!(*e => e.data));
                assert(decreases_to!(e.data => *b));
                assert(decreases_to!(*b => b.inner));
                assert(decreases_to!(b.inner => b.inner.exprs));
                assert(decreases_to!(b.inner.exprs => b.inner.exprs@));
                assert(decreases_to!(*e => b.inner.exprs@));
            }
            let mut i: usize = 0;
            while i < b.inner.exprs.len()
                invariant
                    e.data == ExprData::Block(*b),
                    decreases_to!(*e => b.inner.exprs@),
                    i <= b.inner.exprs@.len(),
                    es == crate::ast::exprs_view(b.inner.exprs@),
                    es.len() == b.inner.exprs@.len(),
                    forall|k: int| 0 <= k < es.len() ==> #[trigger] es[k] == b.inner.exprs@[k]@,
                    marks.wf(),
                    cs0 == (Plan { next_id: *old(next_id) as nat + 1, marks: old(marks)@ }),
                    *old(next_id) < u64::MAX,
                    e@.data == ExprDataView::Block(es, match b.inner.last {
                        Some(t) => Some(Box::new(crate::ast::expr_view(*t))),
                        None => None,
                    }, b.span),
                    plan_list(cs0, es.take(i as int)) == Some(Plan { next_id: *next_id as nat, marks: marks@ }),
                decreases b.inner.exprs@.len() - i,
            {
                proof {
                    assert(decreases_to!(b.inner.exprs@ => b.inner.exprs@[i as int]));
                    assert(es.take(i + 1).drop_last() == es.take(i as int));
                    assert(es.take(i + 1).last() == es[i as int]);
                }
                if !plan_expr_exec(&b.inner.exprs[i], marks, next_id) {
                    proof {
                        lemma_plan_list_prefix(cs0, es, i + 1);
                    }
                    return false;
                }
                i = i + 1;
            }
            proof {
                assert(es.take(es.len() as int) == es);
            }
            match &b.inner.last {
                Some(t) => plan_expr_exec(t, marks, next_id),
                None => true,
            }
        },
        _ => true,
    }
}

fn plan_args_exec(args: &Vec<crate::ast::FunctionArg>, scope: Option<ScopeId>, marks: &mut Universe<bool>, Ghost(
    next_id,
): Ghost<nat>) -> (ok: bool)
    requires
        old(marks).wf(),
    ensures
        final(marks).wf(),
        ok == (plan_args(
            Plan { next_id, marks: old(marks)@ },
            match scope {
                Some(s) => s.idx(),
                None => 0,
            },
            crate::ast::args_view(args@),
        ) is Some),
        ok ==> plan_args(
            Plan { next_id, marks: old(marks)@ },
            match scope {
                Some(s) => s.idx(),
                None => 0,
            },
            crate::ast::args_view(args@),
        ) == Some(Plan { next_id, marks: final(marks)@ }),
{
    let id = scope_id_of(scope, marks);
    let ghost s = id.idx();
    let ghost av = crate::ast::args_view(args@);
    let ghost cs = Plan { next_id, marks: marks@ };
    proof {
        assert(av.take(0) =~= Seq::<ArgView>::empty());
    }
    let mut i: usize = 0;
    while i < args.len()
        invariant
            i <= args@.len(),
            av == crate::ast::args_view(args@),
            av.len() == args@.len(),
            s == id.idx(),
            s == match scope {
                Some(s) => s.idx(),
                None => 0,
            },
            cs == (Plan { next_id, marks: old(marks)@ }),
            marks.wf(),
            plan_args(cs, s, av.take(i as int)) == Some(Plan { next_id, marks: marks@ }),
        decreases args@.len() - i,
    {
        proof {
            assert(av.take(i + 1).drop_last() == av.take(i as int));
            assert(av.take(i + 1).last() == av[i as int]);
            assert(av[i as int].name == args@[i as int].name.inner@);
        }
        match mark_of(marks, id, &args[i].name.inner) {
            Some(false) => {},
            _ => {
                proof {
                    assert(plan_args(cs, s, av.take(i + 1)) is None);
                    lemma_plan_args_prefix(cs, s, av, i + 1);
                    assert(plan_args(cs, s, av) is None);
                }
                return false;
            },
        }
        set_mark_exec(marks, id, &args[i].name.inner);
        i = i + 1;
    }
    proof {
        assert(av.take(av.len() as int) == av);
    }
    true
}

proof fn lemma_plan_args_prefix(cs: Plan, s: nat, args: Seq<ArgView>, k: int)
    requires
        0 <= k <= args.len(),
        plan_args(cs, s, args.take(k)) is None,
    ensures
        plan_args(cs, s, args) is None,
    decreases args.len() - k,
{
    if k < args.len() {
        assert(args.take(k + 1).drop_last() == args.take(k));
        lemma_plan_args_prefix(cs, s, args, k + 1);
    } else {
        assert(args.take(k) == args);
    }
}

fn plan_function_exec(f: &Function, marks: &mut Universe<bool>, next_id: &mut u64) -> (ok: bool)
    requires
        old(marks).wf(),
    ensures
        final(marks).wf(),
        ok == (plan_function(*old(next_id) as nat, old(marks)@, f@) is Some),
        ok ==> plan_function(*old(next_id) as nat, old(marks)@, f@) == Some((*final(next_id) as nat, final(marks)@)),
{
    if *next_id == u64::MAX {
        return false;
    }
    *next_id = *next_id + 1;
    if !plan_args_exec(&f.data.args, f.sidecar, marks, Ghost(*next_id as nat)) {
        return false;
    }
    plan_expr_exec(&f.data.body, marks, next_id)
}

proof fn lemma_plan_functions_prefix(n: nat, m: Seq<ScopeView<bool>>, fs: Seq<FunctionView>, k: int)
    requires
        0 <= k <= fs.len(),
        plan_functions(n, m, fs.take(k)) is None,
    ensures
        plan_functions(n, m, fs) is None,
    decreases fs.len() - k,
{
    if k < fs.len() {
        assert(fs.take(k + 1).drop_last() == fs.take(k));
        lemma_plan_functions_prefix(n, m, fs, k + 1);
    } else {
        assert(fs.take(k) == fs);
    }
}

fn plan_group_exec(fs: &Vec<Function>, marks: &mut Universe<bool>, next_id: &mut u64) -> (ok: bool)
    requires
        old(marks).wf(),
    ensures
        final(marks).wf(),
        ok == (plan_functions(*old(next_id) as nat, old(marks)@, crate::ast::functions_view(fs@)) is Some),
        ok ==> plan_functions(*old(next_id) as nat, old(marks)@, crate::ast::functions_view(fs@)) == Some(
            (*final(next_id) as nat, final(marks)@),
        ),
{
    let ghost fv = crate::ast::functions_view(fs@);
    let ghost n0 = *next_id as nat;
    let ghost m0 = marks@;
    proof {
        assert(fv.take(0) =~= Seq::<FunctionView>::empty());
    }
    let mut i: usize = 0;
    while i < fs.len()
        invariant
            i <= fs@.len(),
            fv == crate::ast::functions_view(fs@),
            n0 == *old(next_id) as nat,
            m0 == old(marks)@,
            marks.wf(),
            plan_functions(n0, m0, fv.take(i as int)) == Some((*next_id as nat, marks@)),
        decreases fs@.len() - i,
    {
        proof {
            assert(fv.take(i + 1).drop_last() == fv.take(i as int));
            assert(fv.take(i + 1).last() == fs@[i as int]@);
        }
        if !plan_function_exec(&fs[i], marks, next_id) {
            proof {
                lemma_plan_functions_prefix(n0, m0, fv, i + 1);
            }
            return false;
        }
        i = i + 1;
    }
    proof {
        assert(fv.take(fs@.len() as int) == fv);
    }
    true
}

proof fn lemma_initial_marks(u: Seq<ScopeView<NamespaceItemFullyTyped>>)
    ensures
        marks_of(initial_items(u)) == map_scopes(u, |it: NamespaceItemFullyTyped| false),
{
    let a = marks_of(initial_items(u));
    let b = map_scopes(u, |it: NamespaceItemFullyTyped| false);
    assert forall|i: int| 0 <= i < u.len() implies #[trigger] a[i] == b[i] by {
        assert(a[i].items =~= b[i].items);
    }
    assert(a =~= b);
}

/// Whether intermediate code generation handles the compiled file: exactly
/// the condition [`crate::compiler::foobar`] needs.
pub fn can_generate(file: &File, universe: &Universe<NamespaceItemFullyTyped>) -> (r: bool)
    requires
        universe.wf(),
    ensures
        r == file_gen_ok(0, initial_items(universe@), file@),
{
    let mut marks = universe.unmarked();
    proof {
        lemma_initial_marks(universe@);
        lemma_plan_file(initial_items(universe@), file@);
    }
    let ghost m0 = marks@;
    let ghost gs = file@;
    let mut next_id: u64 = 1;
    let mut count: u64 = 0;
    proof {
        assert(gs.take(0) =~= Seq::<(Seq<char>, Seq<FunctionView>)>::empty());
    }
    let mut i: usize = 0;
    while i < file.functions.len()
        invariant
            i <= file.functions@.len(),
            gs == file@,
            gs.len() == file.functions@.len(),
            m0 == marks_of(initial_items(universe@)),
            file_gen_ok(0, initial_items(universe@), gs) == plan_file(m0, gs),
            marks.wf(),
            plan_functions(1, m0, file_functions(gs.take(i as int))) == Some((next_id as nat, marks@)),
            count as nat == file_functions(gs.take(i as int)).len(),
            count <= next_id,
        decreases file.functions@.len() - i,
    {
        let ghost before = file_functions(gs.take(i as int));
        proof {
            assert(gs.take(i + 1).drop_last() == gs.take(i as int));
            assert(gs.take(i + 1).last() == gs[i as int]);
            assert(gs[i as int] == crate::ast::group_view(file.functions@[i as int]));
            lemma_plan_functions_concat(1, m0, before, gs[i as int].1);
        }
        let ghost n_before = next_id;
        let ghost m_before = marks@;
        if !plan_group_exec(&file.functions[i].1, &mut marks, &mut next_id) {
            proof {
                assert(file_functions(gs.take(i + 1)) == before + gs[i as int].1);
                lemma_file_functions_prefix_none(m0, gs, i as int + 1);
            }
            return false;
        }
        proof {
            lemma_plan_functions_count(n_before as nat, m_before, gs[i as int].1);
            assert(file_functions(gs.take(i + 1)) == before + gs[i as int].1);
        }
        count = count + file.functions[i].1.len() as u64;
        i = i + 1;
    }
    proof {
        assert(gs.take(gs.len() as int) == gs);
    }
    (next_id as u128) + (count as u128) + 3 < u64::MAX as u128
}

proof fn lemma_file_functions_prefix_none(m0: Seq<ScopeView<bool>>, gs: Seq<(Seq<char>, Seq<FunctionView>)>, k: int)
    requires
        0 <= k <= gs.len(),
        plan_functions(1, m0, file_functions(gs.take(k))) is None,
    ensures
        plan_functions(1, m0, file_functions(gs)) is None,
    decreases gs.len() - k,
{
    if k < gs.len() {
        assert(gs.take(k + 1).drop_last() == gs.take(k));
        assert(gs.take(k + 1).last() == gs[k]);
        lemma_plan_functions_concat(1, m0, file_functions(gs.take(k)), gs[k].1);
        lemma_file_functions_prefix_none(m0, gs, k + 1);
    } else {
        assert(gs.take(k) == gs);
    }
}

proof fn lemma_plan_expr_grows(cs: Plan, e: ExprView)
    ensures
        plan_expr(cs, e) matches Some(c2) ==> c2.next_id >= cs.next_id,
    decreases e, 1int,
{
    match e.data {
        ExprDataView::InfixOp(l, _, _, r) => {
            lemma_plan_expr_grows(cs, *l);
            if let Some(c1) = plan_expr(cs, *l) {
                lemma_plan_expr_grows(c1, *r);
            }
        },
        ExprDataView::Declaration(name, _, v) => {
            lemma_plan_expr_grows(Plan { next_id: cs.next_id, marks: set_mark(cs.marks, scope_of(e), name) }, *v);
        },
        ExprDataView::Block(es, last, _) => {
            if cs.next_id < u64::MAX {
                let inner = Plan { next_id: cs.next_id + 1, marks: cs.marks };
                lemma_plan_list_grows(inner, es);
                if let Some(c1) = plan_list(inner, es) {
                    if let Some(t) = last {
                        lemma_plan_expr_grows(c1, *t);
                    }
                }
            }
        },
        _ => {},
    }
}

proof fn lemma_plan_list_grows(cs: Plan, es: Seq<ExprView>)
    ensures
        plan_list(cs, es) matches Some(c2) ==> c2.next_id >= cs.next_id,
    decreases es, 0int,
{
    if es.len() > 0 {
        lemma_plan_list_grows(cs, es.drop_last());
        if let Some(c1) = plan_list(cs, es.drop_last()) {
            lemma_plan_expr_grows(c1, es.last());
        }
    }
}

proof fn lemma_plan_args_keeps(cs: Plan, s: nat, args: Seq<ArgView>)
    ensures
        plan_args(cs, s, args) matches Some(c2) ==> c2.next_id == cs.next_id,
    decreases args.len(),
{
    if args.len() > 0 {
        lemma_plan_args_keeps(cs, s, args.drop_last());
    }
}

proof fn lemma_plan_functions_count(n: nat, m: Seq<ScopeView<bool>>, fs: Seq<FunctionView>)
    ensures
        plan_functions(n, m, fs) matches Some((n2, _)) ==> n2 >= n + fs.len(),
    decreases fs.len(),
{
    if fs.len() > 0 {
        lemma_plan_functions_count(n, m, fs.drop_last());
        if let Some((n1, m1)) = plan_functions(n, m, fs.drop_last()) {
            let f = fs.last();
            if n1 < u64::MAX {
                let s = match f.sidecar {
                    Some(s) => s,
                    None => 0,
                };
                let c0 = Plan { next_id: n1 + 1, marks: m1 };
                lemma_plan_args_keeps(c0, s, f.args);
                if let Some(c1) = plan_args(c0, s, f.args) {
                    lemma_plan_expr_grows(c1, f.body);
                }
            }
        }
    }
}

} // verus!
