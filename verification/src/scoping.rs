//! The scoping pass: gives every expression and every function the scope it
//! is evaluated in.
//!
//! A function gets a new child of the root scope, in which its arguments are
//! declared.  An expression starts from the scope of the sibling evaluated
//! just before it (or, when it is the first child, the scope of its parent);
//! a block opens a new child scope there, and a declaration opens a new child
//! scope in which its name is declared.  The scope an expression leaves
//! behind for its next sibling is that of its last descendant.
use vstd::prelude::*;
use crate::ast::{
    Expr, ExprData, ExprSidecar, ExprView, ExprDataView, SidecarView, Block, Function, FunctionData,
    FunctionView, ArgView, File, expr_view, exprs_view, lemma_exprs_view, lemma_exprs_view_push,
    opt_idx, args_view, functions_view, group_view,
};
use crate::lexer::Spanned;
use crate::scope::{Universe, ScopeId, ScopeView, insert_item, add_scope, lookup_view};

verus! {

/// The scope an expression of shape `d` is evaluated in when it starts from
/// `sup`, and the universe after opening it.
pub open spec fn node_scope(u: Seq<ScopeView<()>>, d: ExprDataView, sup: nat) -> (Seq<ScopeView<()>>, nat) {
    match d {
        ExprDataView::Block(..) => (add_scope(u, sup), u.len()),
        ExprDataView::Declaration(name, _, _) => (insert_item(add_scope(u, sup), u.len(), name, ()), u.len()),
        _ => (u, sup),
    }
}

/// `e` with data `d` and scope `s`, its type unchanged.
pub open spec fn with_scope(e: ExprView, d: ExprDataView, s: nat) -> ExprView {
    ExprView { data: d, sidecar: SidecarView { scope: Some(s), ty: e.sidecar.ty } }
}

/// Scoping `e` whose parent is evaluated in `parent` and whose previous
/// sibling left `prior`: the universe after, the scoped expression, and the
/// scope it leaves behind.
pub open spec fn scope_expr(u: Seq<ScopeView<()>>, e: ExprView, parent: nat, prior: Option<nat>) -> (
    Seq<ScopeView<()>>,
    ExprView,
    nat,
)
    decreases e,
{
    let sup = match prior {
        Some(p) => p,
        None => parent,
    };
    let (u1, here) = node_scope(u, e.data, sup);
    match e.data {
        ExprDataView::InfixOp(l, op, sp, r) => {
            let (u2, l2, c1) = scope_expr(u1, *l, here, None);
            let (u3, r2, c2) = scope_expr(u2, *r, here, Some(c1));
            (u3, with_scope(e, ExprDataView::InfixOp(Box::new(l2), op, sp, Box::new(r2)), here), c2)
        },
        ExprDataView::Declaration(n, sp, v) => {
            let (u2, v2, c) = scope_expr(u1, *v, here, None);
            (u2, with_scope(e, ExprDataView::Declaration(n, sp, Box::new(v2)), here), c)
        },
        ExprDataView::Block(es, last, sp) => {
            let (u2, es2, c) = scope_exprs(u1, es, here, None);
            match last {
                None => (
                    u2,
                    with_scope(e, ExprDataView::Block(es2, None, sp), here),
                    match c {
                        Some(x) => x,
                        None => here,
                    },
                ),
                Some(l) => {
                    let (u3, l2, c2) = scope_expr(u2, *l, here, c);
                    (u3, with_scope(e, ExprDataView::Block(es2, Some(Box::new(l2)), sp), here), c2)
                },
            }
        },
        _ => (u1, with_scope(e, e.data, here), here),
    }
}

/// Scoping a sequence of siblings, in order.
pub open spec fn scope_exprs(u: Seq<ScopeView<()>>, es: Seq<ExprView>, parent: nat, prior: Option<nat>) -> (
    Seq<ScopeView<()>>,
    Seq<ExprView>,
    Option<nat>,
)
    decreases es,
{
    if es.len() == 0 {
        (u, Seq::empty(), prior)
    } else {
        proof {
            assert(decreases_to!(es => es.drop_last()));
            assert(decreases_to!(es => es[es.len() - 1]));
        }
        let (u1, done, c) = scope_exprs(u, es.drop_last(), parent, prior);
        let (u2, e, c2) = scope_expr(u1, es.last(), parent, c);
        (u2, done.push(e), Some(c2))
    }
}

/// `u` with the arguments' names declared in scope `s`, in order.
pub open spec fn insert_args(u: Seq<ScopeView<()>>, s: nat, args: Seq<ArgView>) -> Seq<ScopeView<()>>
    decreases args.len(),
{
    if args.len() == 0 {
        u
    } else {
        insert_item(insert_args(u, s, args.drop_last()), s, args.last().name, ())
    }
}

/// Scoping a function: a new child of the root holds its arguments, and its
/// body is evaluated there.
pub open spec fn scope_function(u: Seq<ScopeView<()>>, f: FunctionView) -> (Seq<ScopeView<()>>, FunctionView) {
    let s = u.len();
    let u1 = insert_args(add_scope(u, 0), s, f.args);
    let (u2, body, _) = scope_expr(u1, f.body, s, None);
    (
        u2,
        FunctionView {
            name: f.name,
            name_span: f.name_span,
            return_type: f.return_type,
            return_span: f.return_span,
            args: f.args,
            body,
            sidecar: Some(s),
        },
    )
}

/// Scoping functions in order.
pub open spec fn scope_functions(u: Seq<ScopeView<()>>, fs: Seq<FunctionView>) -> (
    Seq<ScopeView<()>>,
    Seq<FunctionView>,
)
    decreases fs.len(),
{
    if fs.len() == 0 {
        (u, Seq::empty())
    } else {
        let (u1, done) = scope_functions(u, fs.drop_last());
        let (u2, f) = scope_function(u1, fs.last());
        (u2, done.push(f))
    }
}

/// Scoping the groups of a file in order.
pub open spec fn scope_groups(u: Seq<ScopeView<()>>, gs: Seq<(Seq<char>, Seq<FunctionView>)>) -> (
    Seq<ScopeView<()>>,
    Seq<(Seq<char>, Seq<FunctionView>)>,
)
    decreases gs.len(),
{
    if gs.len() == 0 {
        (u, Seq::empty())
    } else {
        let (u1, done) = scope_groups(u, gs.drop_last());
        let (u2, fs) = scope_functions(u1, gs.last().1);
        (u2, done.push((gs.last().0, fs)))
    }
}

fn scope_expr_exec(u: &mut Universe<()>, e: Expr, parent: ScopeId, prior: Option<ScopeId>) -> (r: (Expr, ScopeId))
    requires
        old(u).wf(),
        old(u).valid(parent),
        prior matches Some(p) ==> old(u).valid(p),
    ensures
        final(u).wf(),
        final(u)@.len() >= old(u)@.len(),
        final(u).valid(r.1),
        scope_expr(old(u)@, e@, parent.idx(), opt_idx(prior)) == (final(u)@, r.0@, r.1.idx()),
    decreases e,
{
    let sup = match prior {
        Some(p) => p,
        None => parent,
    };
    let ghost ev = e@;
    let Expr { data, sidecar } = e;
    let ExprSidecar { scope: _, ty } = sidecar;
    match data {
        ExprData::LiteralInt(l) => (Expr { data: ExprData::LiteralInt(l), sidecar: ExprSidecar { scope: Some(sup), ty } }, sup),
        ExprData::LiteralFloat(l) => (
            Expr { data: ExprData::LiteralFloat(l), sidecar: ExprSidecar { scope: Some(sup), ty } },
            sup,
        ),
        ExprData::LiteralBool(l) => (
            Expr { data: ExprData::LiteralBool(l), sidecar: ExprSidecar { scope: Some(sup), ty } },
            sup,
        ),
        ExprData::Var(v) => (Expr { data: ExprData::Var(v), sidecar: ExprSidecar { scope: Some(sup), ty } }, sup),
        ExprData::InfixOp(l, op, r) => {
            let (l2, c1) = scope_expr_exec(u, *l, sup, None);
            let (r2, c2) = scope_expr_exec(u, *r, sup, Some(c1));
            (
                Expr {
                    data: ExprData::InfixOp(Box::new(l2), op, Box::new(r2)),
                    sidecar: ExprSidecar { scope: Some(sup), ty },
                },
                c2,
            )
        },
        ExprData::Declaration { name, value } => {
            let here = u.get_scope_mut(sup).new_subscope();
            u.get_scope_mut(here).insert(name.inner.clone(), ());
            let (v2, c) = scope_expr_exec(u, *value, here, None);
            (
                Expr {
                    data: ExprData::Declaration { name, value: Box::new(v2) },
                    sidecar: ExprSidecar { scope: Some(here), ty },
                },
                c,
            )
        },
        ExprData::Block(b) => {
            let here = u.get_scope_mut(sup).new_subscope();
            let Spanned { inner: Block { exprs, last }, span } = b;
            let (es2, c) = scope_exprs_exec(u, exprs, here, None);
            match last {
                None => {
                    let fin = match c {
                        Some(x) => x,
                        None => here,
                    };
                    (
                        Expr {
                            data: ExprData::Block(Spanned { inner: Block { exprs: es2, last: None }, span }),
                            sidecar: ExprSidecar { scope: Some(here), ty },
                        },
                        fin,
                    )
                },
                Some(l) => {
                    let (l2, c2) = scope_expr_exec(u, *l, here, c);
                    (
                        Expr {
                            data: ExprData::Block(
                                Spanned { inner: Block { exprs: es2, last: Some(Box::new(l2)) }, span },
                            ),
                            sidecar: ExprSidecar { scope: Some(here), ty },
                        },
                        c2,
                    )
                },
            }
        },
    }
}

fn scope_exprs_exec(u: &mut Universe<()>, es: Vec<Expr>, parent: ScopeId, prior: Option<ScopeId>) -> (r: (
    Vec<Expr>,
    Option<ScopeId>,
))
    requires
        old(u).wf(),
        old(u).valid(parent),
        prior matches Some(p) ==> old(u).valid(p),
    ensures
        final(u).wf(),
        final(u)@.len() >= old(u)@.len(),
        r.1 matches Some(p) ==> final(u).valid(p),
        scope_exprs(old(u)@, exprs_view(es@), parent.idx(), opt_idx(prior)) == (
            final(u)@,
            exprs_view(r.0@),
            opt_idx(r.1),
        ),
    decreases es,
{
    broadcast use vstd::std_specs::vec::axiom_spec_into_iter;

    let ghost u0 = u@;
    let ghost orig = es@;
    let mut out: Vec<Expr> = Vec::new();
    let mut cur = prior;
    proof {
        assert(orig.take(0) =~= Seq::<Expr>::empty());
        assert(exprs_view(orig.take(0)) =~= Seq::<ExprView>::empty()) by {
            lemma_exprs_view(orig.take(0));
        }
        assert(exprs_view(out@) =~= Seq::<ExprView>::empty()) by {
            lemma_exprs_view(out@);
        }
    }
    for x in it: es.into_iter()
        invariant
            it.seq() == orig,
            orig == es@,
            u.wf(),
            u@.len() >= u0.len(),
            u.valid(parent),
            cur matches Some(p) ==> u.valid(p),
            scope_exprs(u0, exprs_view(orig.take(it.index())), parent.idx(), opt_idx(prior)) == (
                u@,
                exprs_view(out@),
                opt_idx(cur),
            ),
    {
        let ghost i = it.index();
        proof {
            assert(decreases_to!(es => es@));
            assert(decreases_to!(es@ => es@[i]));
            assert(orig.take(i + 1) =~= orig.take(i).push(orig[i]));
            lemma_exprs_view_push(orig.take(i), orig[i]);
            assert(exprs_view(orig.take(i + 1)).drop_last() =~= exprs_view(orig.take(i)));
        }
        let (e2, c) = scope_expr_exec(u, x, parent, cur);
        proof {
            lemma_exprs_view_push(out@, e2);
        }
        out.push(e2);
        cur = Some(c);
    }
    proof {
        assert(orig.take(orig.len() as int) =~= orig);
    }
    (out, cur)
}

/// Scopes one function; its scope is a new child of the root.
fn scope_function_exec(u: &mut Universe<()>, f: Function) -> (r: Function)
    requires
        old(u).wf(),
    ensures
        final(u).wf(),
        final(u)@.len() >= old(u)@.len(),
        scope_function(old(u)@, f@) == (final(u)@, r@),
{
    let ghost u0 = u@;
    proof {
        u.lemma_wf();
    }
    let Function { data, sidecar: _ } = f;
    let FunctionData { name, return_type, args, body } = data;
    let s = u.root_scope_mut().new_subscope();
    let mut i: usize = 0;
    assert(args_view(args@).take(0) =~= Seq::<ArgView>::empty());
    while i < args.len()
        invariant
            i <= args@.len(),
            u.wf(),
            u.valid(s),
            s.idx() == u0.len(),
            u@ == insert_args(add_scope(u0, 0), s.idx(), args_view(args@).take(i as int)),
        decreases args@.len() - i,
    {
        let key = args[i].name.inner.clone();
        u.get_scope_mut(s).insert(key, ());
        proof {
            assert(args_view(args@).take(i + 1).drop_last() =~= args_view(args@).take(i as int));
        }
        i += 1;
    }
    assert(args_view(args@).take(args@.len() as int) =~= args_view(args@));
    let (body2, _) = scope_expr_exec(u, body, s, None);
    Function { data: FunctionData { name, return_type, args, body: body2 }, sidecar: Some(s) }
}

fn scope_functions_exec(u: &mut Universe<()>, fs: Vec<Function>) -> (r: Vec<Function>)
    requires
        old(u).wf(),
    ensures
        final(u).wf(),
        scope_functions(old(u)@, functions_view(fs@)) == (final(u)@, functions_view(r@)),
{
    broadcast use vstd::std_specs::vec::axiom_spec_into_iter;

    let ghost u0 = u@;
    let ghost orig = fs@;
    let mut out: Vec<Function> = Vec::new();
    assert(functions_view(orig.take(0)) =~= Seq::<FunctionView>::empty());
    assert(functions_view(out@) =~= Seq::<FunctionView>::empty());
    for x in it: fs.into_iter()
        invariant
            it.seq() == orig,
            u.wf(),
            scope_functions(u0, functions_view(orig.take(it.index()))) == (u@, functions_view(out@)),
    {
        let ghost i = it.index();
        proof {
            assert(functions_view(orig.take(i + 1)).drop_last() =~= functions_view(orig.take(i)));
            assert(functions_view(orig.take(i + 1)).last() == orig[i]@);
        }
        let f2 = scope_function_exec(u, x);
        proof {
            assert(functions_view(out@.push(f2)) =~= functions_view(out@).push(f2@));
        }
        out.push(f2);
    }
    assert(orig.take(orig.len() as int) =~= orig);
    out
}

/// The scoping pass over a file: every function and every expression gets
/// its scope.  It never fails.
pub fn populate_scopes(file: File, universe: Universe<()>) -> (r: Result<(File, Universe<()>), Vec<crate::compiler::CompileError>>)
    requires
        universe.wf(),
    ensures
        r matches Ok((f, u)) && u.wf() && scope_groups(universe@, file@) == (u@, f@),
{
    broadcast use vstd::std_specs::vec::axiom_spec_into_iter;

    let mut u = universe;
    let ghost u0 = u@;
    let ghost orig = file.functions@;
    let ghost gv = file@;
    let mut out: Vec<(String, Vec<Function>)> = Vec::new();
    let File { functions } = file;
    assert(orig.map_values(|g: (String, Vec<Function>)| group_view(g)).take(0) =~= Seq::<
        (Seq<char>, Seq<FunctionView>),
    >::empty());
    assert(out@.map_values(|g: (String, Vec<Function>)| group_view(g)) =~= Seq::<(Seq<char>, Seq<FunctionView>)>::empty());
    for g in it: functions.into_iter()
        invariant
            it.seq() == orig,
            gv == orig.map_values(|g: (String, Vec<Function>)| group_view(g)),
            u.wf(),
            scope_groups(u0, gv.take(it.index())) == (
                u@,
                out@.map_values(|g: (String, Vec<Function>)| group_view(g)),
            ),
    {
        let ghost i = it.index();
        proof {
            assert(gv.take(i + 1).drop_last() =~= gv.take(i));
            assert(gv.take(i + 1).last() == group_view(orig[i]));
        }
        let (name, fs) = g;
        let fs2 = scope_functions_exec(&mut u, fs);
        let item = (name, fs2);
        proof {
            assert(out@.push(item).map_values(|g: (String, Vec<Function>)| group_view(g)) =~= out@.map_values(
                |g: (String, Vec<Function>)| group_view(g),
            ).push(group_view(item)));
        }
        out.push(item);
    }
    assert(gv.take(gv.len() as int) =~= gv);
    Ok((File { functions: out }, u))
}

// ---------------------------------------------------------------------------
// What scoping guarantees.
// ---------------------------------------------------------------------------

/// `big` keeps every scope of `small` as it was, and may add more.
pub open spec fn extends<Item>(small: Seq<ScopeView<Item>>, big: Seq<ScopeView<Item>>) -> bool {
    &&& small.len() <= big.len()
    &&& forall|i: int| 0 <= i < small.len() ==> #[trigger] big[i] == small[i]
}

/// The node has a scope of `u`, and a declaration's name is visible from
/// the scope it opens.
pub open spec fn node_scoped(e: ExprView, u: Seq<ScopeView<()>>) -> bool {
    match e.sidecar.scope {
        Some(s) => s < u.len() && match e.data {
            ExprDataView::Declaration(name, _, _) => lookup_view(u, s, name) == Some(()),
            _ => true,
        },
        None => false,
    }
}

/// Every node of `e` is scoped in `u`.
pub open spec fn all_scoped(e: ExprView, u: Seq<ScopeView<()>>) -> bool
    decreases e, 1int,
{
    node_scoped(e, u) && match e.data {
        ExprDataView::InfixOp(l, _, _, r) => all_scoped(*l, u) && all_scoped(*r, u),
        ExprDataView::Declaration(_, _, v) => all_scoped(*v, u),
        ExprDataView::Block(es, last, _) => all_scoped_list(es, u) && match last {
            Some(l) => all_scoped(*l, u),
            None => true,
        },
        _ => true,
    }
}

/// Every node of every expression is scoped in `u`.
pub open spec fn all_scoped_list(es: Seq<ExprView>, u: Seq<ScopeView<()>>) -> bool
    decreases es, 0int,
{
    if es.len() == 0 {
        true
    } else {
        proof {
            assert(decreases_to!(es => es.drop_last()));
            assert(decreases_to!(es => es[es.len() - 1]));
        }
        all_scoped_list(es.drop_last(), u) && all_scoped(es.last(), u)
    }
}

/// `e` with every scope forgotten: its shape, spans and types.
pub open spec fn erase_scopes(e: ExprView) -> ExprView
    decreases e, 1int,
{
    let d = match e.data {
        ExprDataView::InfixOp(l, op, sp, r) => ExprDataView::InfixOp(
            Box::new(erase_scopes(*l)),
            op,
            sp,
            Box::new(erase_scopes(*r)),
        ),
        ExprDataView::Declaration(n, sp, v) => ExprDataView::Declaration(n, sp, Box::new(erase_scopes(*v))),
        ExprDataView::Block(es, last, sp) => ExprDataView::Block(
            erase_scopes_list(es),
            match last {
                Some(l) => Some(Box::new(erase_scopes(*l))),
                None => None,
            },
            sp,
        ),
        _ => e.data,
    };
    ExprView { data: d, sidecar: SidecarView { scope: None, ty: e.sidecar.ty } }
}

/// Each expression with every scope forgotten.
pub open spec fn erase_scopes_list(es: Seq<ExprView>) -> Seq<ExprView>
    decreases es, 0int,
{
    if es.len() == 0 {
        Seq::empty()
    } else {
        proof {
            assert(decreases_to!(es => es.drop_last()));
            assert(decreases_to!(es => es[es.len() - 1]));
        }
        erase_scopes_list(es.drop_last()).push(erase_scopes(es.last()))
    }
}

proof fn lemma_extends_trans<Item>(a: Seq<ScopeView<Item>>, b: Seq<ScopeView<Item>>, c: Seq<ScopeView<Item>>)
    requires
        extends(a, b),
        extends(b, c),
    ensures
        extends(a, c),
{
}

proof fn lemma_lookup_extends(u: Seq<ScopeView<()>>, u2: Seq<ScopeView<()>>, s: nat, key: Seq<char>)
    requires
        extends(u, u2),
        s < u.len(),
    ensures
        lookup_view(u2, s, key) == lookup_view(u, s, key),
    decreases s,
{
    assert(u2[s as int] == u[s as int]);
    match u[s as int].parent {
        Some(p) => if p < s {
            lemma_lookup_extends(u, u2, p, key);
        },
        None => {},
    }
}

proof fn lemma_all_scoped_extends(e: ExprView, u: Seq<ScopeView<()>>, u2: Seq<ScopeView<()>>)
    requires
        all_scoped(e, u),
        extends(u, u2),
    ensures
        all_scoped(e, u2),
    decreases e, 1int,
{
    let s = e.sidecar.scope->0;
    if let ExprDataView::Declaration(name, _, _) = e.data {
        lemma_lookup_extends(u, u2, s, name);
    }
    match e.data {
        ExprDataView::InfixOp(l, _, _, r) => {
            lemma_all_scoped_extends(*l, u, u2);
            lemma_all_scoped_extends(*r, u, u2);
        },
        ExprDataView::Declaration(_, _, v) => {
            lemma_all_scoped_extends(*v, u, u2);
        },
        ExprDataView::Block(es, last, _) => {
            lemma_all_scoped_list_extends(es, u, u2);
            if let Some(l) = last {
                lemma_all_scoped_extends(*l, u, u2);
            }
        },
        _ => {},
    }
}

proof fn lemma_all_scoped_list_extends(es: Seq<ExprView>, u: Seq<ScopeView<()>>, u2: Seq<ScopeView<()>>)
    requires
        all_scoped_list(es, u),
        extends(u, u2),
    ensures
        all_scoped_list(es, u2),
    decreases es, 0int,
{
    if es.len() > 0 {
        lemma_all_scoped_list_extends(es.drop_last(), u, u2);
        lemma_all_scoped_extends(es.last(), u, u2);
    }
}

/// Scoping an expression: the universe only grows (no scope that was there
/// changes), every node gets a scope of the new universe, a declaration's
/// name is visible from the scope it opens, the scope left behind is a
/// scope of the new universe, and nothing but scopes changes.
pub proof fn law_scope_expr(u: Seq<ScopeView<()>>, e: ExprView, parent: nat, prior: Option<nat>)
    requires
        parent < u.len(),
        prior matches Some(p) ==> p < u.len(),
    ensures
        extends(u, scope_expr(u, e, parent, prior).0),
        all_scoped(scope_expr(u, e, parent, prior).1, scope_expr(u, e, parent, prior).0),
        scope_expr(u, e, parent, prior).2 < scope_expr(u, e, parent, prior).0.len(),
        erase_scopes(scope_expr(u, e, parent, prior).1) == erase_scopes(e),
    decreases e, 1int,
{
    let sup = match prior {
        Some(p) => p,
        None => parent,
    };
    let (u1, here) = node_scope(u, e.data, sup);
    assert(extends(u, u1));
    assert(here < u1.len());
    if let ExprDataView::Declaration(name, _, _) = e.data {
        crate::scope::law_lookup_after_insert(add_scope(u, sup), u.len(), name, ());
        assert(lookup_view(u1, here, name) == Some(()));
    }
    let r = scope_expr(u, e, parent, prior);
    match e.data {
        ExprDataView::InfixOp(l, op, sp, rr) => {
            law_scope_expr(u1, *l, here, None);
            let (u2, l2, c1) = scope_expr(u1, *l, here, None);
            law_scope_expr(u2, *rr, here, Some(c1));
            let (u3, r2, c2) = scope_expr(u2, *rr, here, Some(c1));
            lemma_extends_trans(u1, u2, u3);
            lemma_extends_trans(u, u1, u3);
            lemma_all_scoped_extends(l2, u2, u3);
            assert(r == (u3, with_scope(e, ExprDataView::InfixOp(Box::new(l2), op, sp, Box::new(r2)), here), c2));
            assert(erase_scopes(r.1) =~= erase_scopes(e));
        },
        ExprDataView::Declaration(n, sp, v) => {
            law_scope_expr(u1, *v, here, None);
            let (u2, v2, c) = scope_expr(u1, *v, here, None);
            lemma_extends_trans(u, u1, u2);
            lemma_lookup_extends(u1, u2, here, n);
            assert(r == (u2, with_scope(e, ExprDataView::Declaration(n, sp, Box::new(v2)), here), c));
            assert(erase_scopes(r.1) =~= erase_scopes(e));
        },
        ExprDataView::Block(es, last, sp) => {
            law_scope_exprs(u1, es, here, None);
            let (u2, es2, c) = scope_exprs(u1, es, here, None);
            lemma_extends_trans(u, u1, u2);
            match last {
                None => {
                    assert(erase_scopes(r.1) =~= erase_scopes(e));
                },
                Some(l) => {
                    law_scope_expr(u2, *l, here, c);
                    let (u3, l2, c2) = scope_expr(u2, *l, here, c);
                    lemma_extends_trans(u, u2, u3);
                    lemma_all_scoped_list_extends(es2, u2, u3);
                    assert(r == (u3, with_scope(e, ExprDataView::Block(es2, Some(Box::new(l2)), sp), here), c2));
                    assert(erase_scopes(r.1) =~= erase_scopes(e));
                },
            }
        },
        _ => {
            assert(erase_scopes(r.1) =~= erase_scopes(e));
        },
    }
}

/// Scoping siblings: as for one expression, for each of them.
pub proof fn law_scope_exprs(u: Seq<ScopeView<()>>, es: Seq<ExprView>, parent: nat, prior: Option<nat>)
    requires
        parent < u.len(),
        prior matches Some(p) ==> p < u.len(),
    ensures
        extends(u, scope_exprs(u, es, parent, prior).0),
        all_scoped_list(scope_exprs(u, es, parent, prior).1, scope_exprs(u, es, parent, prior).0),
        scope_exprs(u, es, parent, prior).2 matches Some(c) ==> c < scope_exprs(u, es, parent, prior).0.len(),
        erase_scopes_list(scope_exprs(u, es, parent, prior).1) == erase_scopes_list(es),
    decreases es, 0int,
{
    if es.len() > 0 {
        law_scope_exprs(u, es.drop_last(), parent, prior);
        let (u1, done, c) = scope_exprs(u, es.drop_last(), parent, prior);
        law_scope_expr(u1, es.last(), parent, c);
        let (u2, e, c2) = scope_expr(u1, es.last(), parent, c);
        lemma_extends_trans(u, u1, u2);
        lemma_all_scoped_list_extends(done, u1, u2);
        assert(done.push(e).drop_last() == done);
        assert(done.push(e).last() == e);
        assert(erase_scopes_list(done.push(e)) == erase_scopes_list(done).push(erase_scopes(e)));
    }
}

/// The function has a scope of `u` of its own, a child of the root in
/// which every argument is visible and which declares exactly the
/// arguments, and its body is scoped in `u`.
pub open spec fn function_scoped(f: FunctionView, u: Seq<ScopeView<()>>) -> bool {
    match f.sidecar {
        Some(s) => {
            &&& s < u.len()
            &&& u[s as int].parent == Some(0nat)
            &&& forall|n: Seq<char>| #[trigger] u[s as int].items.contains_key(n) <==> is_arg_name(f.args, n)
            &&& forall|k: int| 0 <= k < f.args.len() ==> lookup_view(u, s, #[trigger] f.args[k].name) == Some(())
            &&& all_scoped(f.body, u)
        },
        None => false,
    }
}

/// The function with every scope forgotten.
pub open spec fn erase_function(f: FunctionView) -> FunctionView {
    FunctionView { body: erase_scopes(f.body), sidecar: None, ..f }
}

/// `n` names one of `args`.
pub open spec fn is_arg_name(args: Seq<ArgView>, n: Seq<char>) -> bool {
    exists|k: int| 0 <= k < args.len() && #[trigger] args[k].name == n
}

proof fn lemma_insert_args(u: Seq<ScopeView<()>>, s: nat, args: Seq<ArgView>)
    requires
        s < u.len(),
    ensures
        forall|n: Seq<char>|
            #[trigger] insert_args(u, s, args)[s as int].items.contains_key(n) <==> (u[s as int].items.contains_key(n)
                || is_arg_name(args, n)),
        insert_args(u, s, args).len() == u.len(),
        forall|i: int| 0 <= i < u.len() && i != s ==> #[trigger] insert_args(u, s, args)[i] == u[i],
        insert_args(u, s, args)[s as int].parent == u[s as int].parent,
        forall|k: int| 0 <= k < args.len() ==> insert_args(u, s, args)[s as int].items.contains_key(
            #[trigger] args[k].name,
        ),
    decreases args.len(),
{
    if args.len() > 0 {
        lemma_insert_args(u, s, args.drop_last());
        assert forall|n: Seq<char>|
            #[trigger] insert_args(u, s, args)[s as int].items.contains_key(n) <==> (u[s as int].items.contains_key(n)
                || is_arg_name(args, n)) by {
            if is_arg_name(args, n) && n != args.last().name {
                let k = choose|k: int| 0 <= k < args.len() && #[trigger] args[k].name == n;
                assert(args.drop_last()[k] == args[k]);
            }
            if is_arg_name(args.drop_last(), n) {
                let k = choose|k: int| 0 <= k < args.drop_last().len() && #[trigger] args.drop_last()[k].name == n;
                assert(args[k] == args.drop_last()[k]);
            }
            if n == args.last().name {
                assert(args[args.len() - 1].name == n);
            }
        }
        assert forall|k: int| 0 <= k < args.len() implies insert_args(u, s, args)[s as int].items.contains_key(
            #[trigger] args[k].name,
        ) by {
            if k < args.len() - 1 {
                assert(args.drop_last()[k] == args[k]);
            }
        }
    }
}

proof fn lemma_function_scoped_extends(f: FunctionView, u: Seq<ScopeView<()>>, u2: Seq<ScopeView<()>>)
    requires
        function_scoped(f, u),
        extends(u, u2),
    ensures
        function_scoped(f, u2),
{
    let s = f.sidecar->0;
    assert forall|k: int| 0 <= k < f.args.len() implies lookup_view(u2, s, #[trigger] f.args[k].name) == Some(()) by {
        lemma_lookup_extends(u, u2, s, f.args[k].name);
    }
    lemma_all_scoped_extends(f.body, u, u2);
}

/// Scoping a function: the universe only grows, the function gets a scope
/// of its own under the root declaring exactly its arguments, its body is
/// scoped, and nothing but scopes changes.
pub proof fn law_scope_function(u: Seq<ScopeView<()>>, f: FunctionView)
    ensures
        extends(u, scope_function(u, f).0),
        function_scoped(scope_function(u, f).1, scope_function(u, f).0),
        erase_function(scope_function(u, f).1) == erase_function(f),
{
    let s = u.len();
    let u0 = add_scope(u, 0);
    let u1 = insert_args(u0, s, f.args);
    lemma_insert_args(u0, s, f.args);
    assert(extends(u, u1));
    assert forall|k: int| 0 <= k < f.args.len() implies lookup_view(u1, s, #[trigger] f.args[k].name) == Some(()) by {
        assert(u1[s as int].items.contains_key(f.args[k].name));
    }
    law_scope_expr(u1, f.body, s, None);
    let (u2, body, _) = scope_expr(u1, f.body, s, None);
    lemma_extends_trans(u, u1, u2);
    assert(u2[s as int] == u1[s as int]);
    assert forall|k: int| 0 <= k < f.args.len() implies lookup_view(u2, s, #[trigger] f.args[k].name) == Some(()) by {
        lemma_lookup_extends(u1, u2, s, f.args[k].name);
    }
    assert(erase_function(scope_function(u, f).1) =~= erase_function(f));
}

/// Scoping functions in order: as for one function, for each of them, all
/// in the final universe.
pub proof fn law_scope_functions(u: Seq<ScopeView<()>>, fs: Seq<FunctionView>)
    ensures
        extends(u, scope_functions(u, fs).0),
        scope_functions(u, fs).1.len() == fs.len(),
        forall|k: int| 0 <= k < fs.len() ==> function_scoped(#[trigger] scope_functions(u, fs).1[k], scope_functions(u, fs).0),
        forall|k: int| 0 <= k < fs.len() ==> erase_function(#[trigger] scope_functions(u, fs).1[k]) == erase_function(fs[k]),
    decreases fs.len(),
{
    if fs.len() > 0 {
        law_scope_functions(u, fs.drop_last());
        let (u1, done) = scope_functions(u, fs.drop_last());
        law_scope_function(u1, fs.last());
        let (u2, f) = scope_function(u1, fs.last());
        lemma_extends_trans(u, u1, u2);
        assert forall|k: int| 0 <= k < fs.len() implies function_scoped(#[trigger] done.push(f)[k], u2) by {
            if k < fs.len() - 1 {
                lemma_function_scoped_extends(done[k], u1, u2);
            }
        }
        assert forall|k: int| 0 <= k < fs.len() implies erase_function(#[trigger] done.push(f)[k]) == erase_function(fs[k]) by {
            if k < fs.len() - 1 {
                assert(fs.drop_last()[k] == fs[k]);
            }
        }
    }
}

/// The scoping pass over a file, as [`populate_scopes`] runs it: the
/// universe only grows; every function, in its group and in its place, has
/// a scope of its own under the root declaring exactly its arguments; every
/// expression has a scope, and a declaration's name is visible from the
/// scope it opens; names, shapes, spans and types are unchanged.
pub proof fn law_scope_groups(u: Seq<ScopeView<()>>, gs: Seq<(Seq<char>, Seq<FunctionView>)>)
    ensures
        extends(u, scope_groups(u, gs).0),
        scope_groups(u, gs).1.len() == gs.len(),
        forall|i: int| 0 <= i < gs.len() ==> (#[trigger] scope_groups(u, gs).1[i]).0 == gs[i].0,
        forall|i: int| 0 <= i < gs.len() ==> (#[trigger] scope_groups(u, gs).1[i]).1.len() == gs[i].1.len(),
        forall|i: int, k: int|
            0 <= i < gs.len() && 0 <= k < gs[i].1.len() ==> function_scoped(
                #[trigger] scope_groups(u, gs).1[i].1[k],
                scope_groups(u, gs).0,
            ),
        forall|i: int, k: int|
            0 <= i < gs.len() && 0 <= k < gs[i].1.len() ==> erase_function(#[trigger] scope_groups(u, gs).1[i].1[k])
                == erase_function(gs[i].1[k]),
    decreases gs.len(),
{
    if gs.len() > 0 {
        law_scope_groups(u, gs.drop_last());
        let (u1, done) = scope_groups(u, gs.drop_last());
        law_scope_functions(u1, gs.last().1);
        let (u2, fs) = scope_functions(u1, gs.last().1);
        lemma_extends_trans(u, u1, u2);
        let r = done.push((gs.last().0, fs));
        assert forall|i: int| 0 <= i < gs.len() implies (#[trigger] r[i]).0 == gs[i].0 && r[i].1.len() == gs[i].1.len() by {
            if i < gs.len() - 1 {
                assert(gs.drop_last()[i] == gs[i]);
            }
        }
        assert forall|i: int, k: int| 0 <= i < gs.len() && 0 <= k < gs[i].1.len() implies function_scoped(
            #[trigger] r[i].1[k],
            u2,
        ) && erase_function(r[i].1[k]) == erase_function(gs[i].1[k]) by {
            if i < gs.len() - 1 {
                assert(gs.drop_last()[i] == gs[i]);
                lemma_function_scoped_extends(done[i].1[k], u1, u2);
            }
        }
    }
}

proof fn lemma_all_scoped_clear(e: ExprView, u: Seq<ScopeView<()>>)
    ensures
        all_scoped(crate::typing::clear_type(e), u) == all_scoped(e, u),
    decreases e, 1int,
{
    match e.data {
        ExprDataView::InfixOp(l, _, _, r) => {
            lemma_all_scoped_clear(*l, u);
            lemma_all_scoped_clear(*r, u);
        },
        ExprDataView::Declaration(_, _, v) => lemma_all_scoped_clear(*v, u),
        ExprDataView::Block(es, last, _) => {
            lemma_all_scoped_clear_list(es, u);
            if let Some(l) = last {
                lemma_all_scoped_clear(*l, u);
            }
        },
        _ => {},
    }
}

proof fn lemma_all_scoped_clear_list(es: Seq<ExprView>, u: Seq<ScopeView<()>>)
    ensures
        all_scoped_list(crate::typing::clear_types(es), u) == all_scoped_list(es, u),
    decreases es, 0int,
{
    if es.len() > 0 {
        lemma_all_scoped_clear_list(es.drop_last(), u);
        lemma_all_scoped_clear(es.last(), u);
        let c = crate::typing::clear_types(es);
        assert(c.drop_last() == crate::typing::clear_types(es.drop_last()));
        assert(c.last() == crate::typing::clear_type(es.last()));
    }
}

/// Whether a function is scoped depends on its scopes, not its types.
pub proof fn lemma_function_scoped_clear(a: FunctionView, b: FunctionView, u: Seq<ScopeView<()>>)
    requires
        crate::typing::clear_function(a) == crate::typing::clear_function(b),
    ensures
        function_scoped(a, u) == function_scoped(b, u),
{
    lemma_all_scoped_clear(a.body, u);
    lemma_all_scoped_clear(b.body, u);
}

} // verus!
