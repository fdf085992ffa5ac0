//! The typing pass: infers the type of every expression, and of every name
//! that the scopes declare.
//!
//! Inference is repeated over the whole file until a pass changes nothing.
//! Within a pass, a function first gives each of its arguments the type
//! "pointer to the argument's type" when it has none yet; an expression
//! first, if it declares a name whose value's type is known, gives the name
//! the type "pointer to that type", then infers its own type if it has none
//! yet (from the types its children had when it was reached), then its
//! children are visited in order.
use vstd::prelude::*;
use vstd::string::{StringExecFns, StrSliceExecFns};
use crate::ast::{
    Expr, ExprData, ExprSidecar, ExprView, ExprDataView, SidecarView, Block, Function, FunctionData,
    FunctionView, ArgView, File, InfixOp, expr_view, exprs_view, lemma_exprs_view, lemma_exprs_view_push,
    expr_data_view, args_view, functions_view, group_view, arg_view, expr_span,
};
use crate::compiler::{NamespaceItemPartiallyTyped, NamespaceItemFullyTyped, CompileError, item_type};
use crate::lexer::Span;
use crate::lexer::Spanned;
use crate::scope::{Universe, ScopeId, ScopeView, insert_item, lookup_view, defining_scope, lemma_defining_scope};
use crate::types::{
    self, Type, TypeView, Concrete, Abstract, NumberKind, Vector, Matrix, StorageClass, Bool, Void, Float,
    type_copy, type_eq, number_type,
};

verus! {

// ---------------------------------------------------------------------------
// Inference rules.
// ---------------------------------------------------------------------------

/// A scalar number type or a vector type.
pub open spec fn is_vector_or_scalar(t: TypeView) -> bool {
    t matches TypeView::Concrete(Concrete::Number(_)) || t matches TypeView::Concrete(Concrete::Vector(_))
}

pub open spec fn void_view() -> TypeView {
    TypeView::Abstract(Abstract::Void(Void))
}

pub open spec fn bool_view() -> TypeView {
    TypeView::Abstract(Abstract::Bool(Bool))
}

/// The type of `l op r` for operand types `l` and `r`.
pub open spec fn infer_infix(op: InfixOp, l: TypeView, r: TypeView) -> Option<TypeView> {
    match op {
        InfixOp::Add | InfixOp::Subtract | InfixOp::Multiply => if l == r && is_vector_or_scalar(l) {
            Some(l)
        } else {
            None
        },
        InfixOp::Divide => if l == r {
            match l {
                TypeView::Concrete(Concrete::Number(NumberKind::Float(_))) => Some(l),
                TypeView::Concrete(Concrete::Vector(v)) => if v.component_type is Float {
                    Some(l)
                } else {
                    None
                },
                _ => None,
            }
        } else {
            None
        },
        InfixOp::DotProduct => if l == r {
            match l {
                TypeView::Concrete(Concrete::Vector(v)) => Some(number_type(v.component_type)),
                _ => None,
            }
        } else {
            None
        },
        InfixOp::CrossProduct => if l == r {
            match l {
                TypeView::Concrete(Concrete::Vector(v)) => if v.component_count == 3 {
                    Some(l)
                } else {
                    None
                },
                _ => None,
            }
        } else {
            None
        },
        InfixOp::MatrixMultiply => match (l, r) {
            (TypeView::Concrete(Concrete::Matrix(lm)), TypeView::Concrete(Concrete::Matrix(rm))) => {
                let ct = lm.column_type.component_type;
                if ct is Float && ct == rm.column_type.component_type && rm.column_type.component_count
                    == lm.column_count {
                    Some(
                        TypeView::Concrete(
                            Concrete::Matrix(Matrix { column_type: lm.column_type, column_count: rm.column_count }),
                        ),
                    )
                } else {
                    None
                }
            },
            _ => None,
        },
    }
}

/// A number or vector with float components.
pub open spec fn float_valued(t: TypeView) -> bool {
    match t {
        TypeView::Concrete(Concrete::Number(NumberKind::Float(_))) => true,
        TypeView::Concrete(Concrete::Vector(v)) => v.component_type is Float,
        _ => false,
    }
}

/// What the operators' result types must be.  Apart from the matrix
/// product, operands of different types never combine.  Sums, differences,
/// products, quotients and cross products keep their operands' type; every
/// number or vector can be added, subtracted and multiplied, a quotient needs
/// float components, and a cross product vectors of three components.  The
/// dot product of two equal vectors is their component type, never a vector.
/// The matrix product of float matrices that fit (the left one has as many
/// columns as the right one has rows) has the left one's columns and the
/// right one's column count.
pub proof fn law_infix_result_types(op: InfixOp, l: TypeView, r: TypeView)
    ensures
        op != InfixOp::MatrixMultiply && l != r ==> infer_infix(op, l, r) is None,
        (op == InfixOp::Add || op == InfixOp::Subtract || op == InfixOp::Multiply) ==> (infer_infix(op, l, l)
            == if is_vector_or_scalar(l) {
            Some(l)
        } else {
            None
        }),
        op == InfixOp::Divide ==> (infer_infix(op, l, l) == if float_valued(l) {
            Some(l)
        } else {
            None
        }),
        op == InfixOp::CrossProduct ==> (infer_infix(op, l, l) == if l matches TypeView::Concrete(Concrete::Vector(v))
            && v.component_count == 3 {
            Some(l)
        } else {
            None
        }),
        op == InfixOp::DotProduct ==> (infer_infix(op, l, l) == match l {
            TypeView::Concrete(Concrete::Vector(v)) => Some(TypeView::Concrete(Concrete::Number(v.component_type))),
            _ => None,
        }),
        op == InfixOp::DotProduct ==> !(infer_infix(op, l, r) matches Some(TypeView::Concrete(Concrete::Vector(_)))),
        op == InfixOp::MatrixMultiply ==> match (l, r, infer_infix(op, l, r)) {
            (
                TypeView::Concrete(Concrete::Matrix(lm)),
                TypeView::Concrete(Concrete::Matrix(rm)),
                Some(t),
            ) => lm.column_type.component_type is Float && rm.column_type.component_type == lm.column_type.component_type
                && rm.column_type.component_count == lm.column_count && t == TypeView::Concrete(
                Concrete::Matrix(Matrix { column_type: lm.column_type, column_count: rm.column_count }),
            ),
            (_, _, Some(_)) => false,
            _ => true,
        },
{
}

/// The target of a pointer type.
pub open spec fn pointer_target(t: Option<TypeView>) -> Option<TypeView> {
    match t {
        Some(TypeView::Pointer(_, target)) => Some(*target),
        _ => None,
    }
}

/// The type of an expression of shape `d`, evaluated in `scope`, where `v`
/// gives the types the scopes' names are known to have.
pub open spec fn infer_expr(v: Seq<ScopeView<Option<TypeView>>>, scope: nat, d: ExprDataView) -> Option<TypeView> {
    match d {
        ExprDataView::LiteralInt(t, _, _, _) => Some(number_type(NumberKind::Integer(t))),
        ExprDataView::LiteralFloat(f, _, _) => Some(number_type(NumberKind::Float(f))),
        ExprDataView::LiteralBool(..) => Some(bool_view()),
        ExprDataView::InfixOp(l, op, _, r) => match (l.sidecar.ty, r.sidecar.ty) {
            (Some(lt), Some(rt)) => infer_infix(op, lt, rt),
            _ => None,
        },
        ExprDataView::Var(name, _) => match lookup_view(v, scope, name) {
            Some(t) => pointer_target(t),
            None => None,
        },
        ExprDataView::Declaration(..) => Some(void_view()),
        ExprDataView::Block(_, last, _) => match last {
            None => Some(void_view()),
            Some(t) => t.sidecar.ty,
        },
    }
}

/// The types the names of `u`'s scopes are known to have.
pub open spec fn typing_view(u: Seq<ScopeView<NamespaceItemPartiallyTyped>>) -> Seq<ScopeView<Option<TypeView>>> {
    Seq::new(
        u.len(),
        |i: int|
            ScopeView {
                parent: u[i].parent,
                items: u[i].items.map_values(|it: NamespaceItemPartiallyTyped| item_type(it)),
            },
    )
}

pub proof fn lemma_typing_view_lookup(u: Seq<ScopeView<NamespaceItemPartiallyTyped>>, s: nat, key: Seq<char>)
    ensures
        lookup_view(typing_view(u), s, key) == match lookup_view(u, s, key) {
            Some(it) => Some(item_type(it)),
            None => None,
        },
        defining_scope(typing_view(u), s, key) == defining_scope(u, s, key),
    decreases s,
{
    let v = typing_view(u);
    if s < u.len() {
        assert(v[s as int].items.contains_key(key) == u[s as int].items.contains_key(key));
        if !u[s as int].items.contains_key(key) {
            if let Some(p) = u[s as int].parent {
                if p < s {
                    lemma_typing_view_lookup(u, p, key);
                }
            }
        }
    }
}

pub proof fn lemma_typing_view_insert(
    u: Seq<ScopeView<NamespaceItemPartiallyTyped>>,
    d: nat,
    key: Seq<char>,
    item: NamespaceItemPartiallyTyped,
)
    requires
        d < u.len(),
    ensures
        typing_view(insert_item(u, d, key, item)) == insert_item(typing_view(u), d, key, item_type(item)),
{
    let a = typing_view(insert_item(u, d, key, item));
    let b = insert_item(typing_view(u), d, key, item_type(item));
    assert forall|i: int| 0 <= i < a.len() implies a[i] == b[i] by {
        if i == d {
            assert(a[i].items =~= b[i].items);
        }
    }
    assert(a =~= b);
}

/// `v` with `name`, as found from scope `s`, given the type "pointer to `t`".
pub open spec fn set_declared(v: Seq<ScopeView<Option<TypeView>>>, s: nat, name: Seq<char>, t: TypeView) -> Seq<
    ScopeView<Option<TypeView>>,
> {
    match defining_scope(v, s, name) {
        Some(d) => insert_item(v, d, name, Some(TypeView::Pointer(StorageClass::Function, Box::new(t)))),
        None => v,
    }
}

// ---------------------------------------------------------------------------
// Inference, executable.
// ---------------------------------------------------------------------------

fn is_vector_or_scalar_exec(t: &Type) -> (r: bool)
    ensures
        r == is_vector_or_scalar(t@),
{
    match t {
        Type::Concrete(Concrete::Number(_)) => true,
        Type::Concrete(Concrete::Vector(_)) => true,
        _ => false,
    }
}

/// The type of `l op r` for operand types `l` and `r`.
pub fn infer_infix_type(op: InfixOp, l: &Type, r: &Type) -> (res: Option<Type>)
    ensures
        match res {
            Some(t) => infer_infix(op, l@, r@) == Some(t@),
            None => infer_infix(op, l@, r@) is None,
        },
{
    match op {
        InfixOp::Add | InfixOp::Subtract | InfixOp::Multiply => if type_eq(l, r) && is_vector_or_scalar_exec(l) {
            Some(type_copy(l))
        } else {
            None
        },
        InfixOp::Divide => if type_eq(l, r) {
            match l {
                Type::Concrete(Concrete::Number(NumberKind::Float(_))) => Some(type_copy(l)),
                Type::Concrete(Concrete::Vector(v)) => match v.component_type {
                    NumberKind::Float(_) => Some(type_copy(l)),
                    _ => None,
                },
                _ => None,
            }
        } else {
            None
        },
        InfixOp::DotProduct => if type_eq(l, r) {
            match l {
                Type::Concrete(Concrete::Vector(v)) => Some(types::number(v.component_type)),
                _ => None,
            }
        } else {
            None
        },
        InfixOp::CrossProduct => if type_eq(l, r) {
            match l {
                Type::Concrete(Concrete::Vector(v)) => if v.component_count == 3 {
                    Some(type_copy(l))
                } else {
                    None
                },
                _ => None,
            }
        } else {
            None
        },
        InfixOp::MatrixMultiply => match (l, r) {
            (Type::Concrete(Concrete::Matrix(lm)), Type::Concrete(Concrete::Matrix(rm))) => {
                let ct = lm.column_type.component_type;
                let is_float = match ct {
                    NumberKind::Float(_) => true,
                    _ => false,
                };
                if is_float && ct == rm.column_type.component_type && rm.column_type.component_count
                    == lm.column_count {
                    Some(types::matrix(Matrix { column_type: lm.column_type, column_count: rm.column_count }))
                } else {
                    None
                }
            },
            _ => None,
        },
    }
}

/// The optional view of an optional type.
pub open spec fn opt_type_view(t: Option<Type>) -> Option<TypeView> {
    match t {
        Some(x) => Some(x@),
        None => None,
    }
}

fn copy_opt_type(t: &Option<Type>) -> (r: Option<Type>)
    ensures
        opt_type_view(r) == opt_type_view(*t),
{
    match t {
        Some(x) => Some(type_copy(x)),
        None => None,
    }
}

/// The type of an expression of shape `d` evaluated in `scope`.
pub fn infer_expr_type(d: &ExprData, scope: ScopeId, universe: &Universe<NamespaceItemPartiallyTyped>) -> (r: Option<
    Type,
>)
    requires
        universe.wf(),
        universe.valid(scope),
    ensures
        opt_type_view(r) == infer_expr(typing_view(universe@), scope.idx(), expr_data_view(*d)),
{
    match d {
        ExprData::LiteralInt(i) => Some(types::number(NumberKind::Integer(i.inner.ty))),
        ExprData::LiteralFloat(f) => Some(types::number(NumberKind::Float(f.inner.ty))),
        ExprData::LiteralBool(_) => Some(types::bool_type()),
        ExprData::InfixOp(lhs, op, rhs) => match (&lhs.sidecar.ty, &rhs.sidecar.ty) {
            (Some(lt), Some(rt)) => infer_infix_type(op.inner, lt, rt),
            _ => None,
        },
        ExprData::Var(v) => {
            proof {
                lemma_typing_view_lookup(universe@, scope.idx(), v.inner@);
            }
            match universe.get_scope(scope).lookup(v.inner.as_str()) {
                Some(item) => match &item.ty {
                    Some(Type::Pointer(p)) => Some(type_copy(&p.target)),
                    _ => None,
                },
                None => None,
            }
        },
        ExprData::Declaration { .. } => Some(types::void_type()),
        ExprData::Block(b) => match &b.inner.last {
            None => Some(types::void_type()),
            Some(terminal) => copy_opt_type(&terminal.sidecar.ty),
        },
    }
}


// ---------------------------------------------------------------------------
// One pass over a file.
// ---------------------------------------------------------------------------

/// The scope of an expression.
pub open spec fn scope_of(e: ExprView) -> nat {
    match e.sidecar.scope {
        Some(s) => s,
        None => 0,
    }
}

/// A declaration whose value's type is known gives its name that type.
pub open spec fn declare_value(v: Seq<ScopeView<Option<TypeView>>>, e: ExprView) -> Seq<ScopeView<Option<TypeView>>> {
    match e.data {
        ExprDataView::Declaration(n, _, val) => match val.sidecar.ty {
            Some(t) => set_declared(v, scope_of(e), n, t),
            None => v,
        },
        _ => v,
    }
}

/// An expression's type after it is reached, and whether it was inferred
/// just now.
pub open spec fn own_type(v: Seq<ScopeView<Option<TypeView>>>, e: ExprView) -> (Option<TypeView>, bool) {
    match e.sidecar.ty {
        Some(t) => (Some(t), false),
        None => match infer_expr(v, scope_of(e), e.data) {
            Some(t) => (Some(t), true),
            None => (None, false),
        },
    }
}

/// One pass over `e`: the names' types after it, `e` after it, and whether
/// it inferred anything.
pub open spec fn type_expr(v: Seq<ScopeView<Option<TypeView>>>, e: ExprView) -> (
    Seq<ScopeView<Option<TypeView>>>,
    ExprView,
    bool,
)
    decreases e, 1int,
{
    if !(e.sidecar.scope matches Some(s) && s < v.len()) {
        (v, e, false)
    } else {
        type_expr_scoped(v, e)
    }
}

/// One pass over `e`, whose scope is a scope of `v`.
pub open spec fn type_expr_scoped(v: Seq<ScopeView<Option<TypeView>>>, e: ExprView) -> (
    Seq<ScopeView<Option<TypeView>>>,
    ExprView,
    bool,
)
    decreases e, 0int,
{
    let v1 = declare_value(v, e);
    let (ty, c) = own_type(v1, e);
    let car = SidecarView { scope: e.sidecar.scope, ty };
    match e.data {
        ExprDataView::InfixOp(l, op, sp, r) => {
            let (v2, l2, c1) = type_expr(v1, *l);
            let (v3, r2, c2) = type_expr(v2, *r);
            (v3, ExprView { data: ExprDataView::InfixOp(Box::new(l2), op, sp, Box::new(r2)), sidecar: car }, c || c1 || c2)
        },
        ExprDataView::Declaration(n, sp, val) => {
            let (v2, val2, c1) = type_expr(v1, *val);
            (v2, ExprView { data: ExprDataView::Declaration(n, sp, Box::new(val2)), sidecar: car }, c || c1)
        },
        ExprDataView::Block(es, last, sp) => {
            let (v2, es2, c1) = type_exprs(v1, es);
            match last {
                None => (v2, ExprView { data: ExprDataView::Block(es2, None, sp), sidecar: car }, c || c1),
                Some(l) => {
                    let (v3, l2, c2) = type_expr(v2, *l);
                    (
                        v3,
                        ExprView { data: ExprDataView::Block(es2, Some(Box::new(l2)), sp), sidecar: car },
                        c || c1 || c2,
                    )
                },
            }
        },
        _ => (v1, ExprView { data: e.data, sidecar: car }, c),
    }
}

/// One pass over siblings, in order.
pub open spec fn type_exprs(v: Seq<ScopeView<Option<TypeView>>>, es: Seq<ExprView>) -> (
    Seq<ScopeView<Option<TypeView>>>,
    Seq<ExprView>,
    bool,
)
    decreases es, 0int,
{
    if es.len() == 0 {
        (v, Seq::empty(), false)
    } else {
        proof {
            assert(decreases_to!(es => es.drop_last()));
            assert(decreases_to!(es => es[es.len() - 1]));
        }
        let (v1, done, c) = type_exprs(v, es.drop_last());
        let (v2, e, c2) = type_expr(v1, es.last());
        (v2, done.push(e), c || c2)
    }
}

/// Gives each argument without a type "pointer to its type", in order.
pub open spec fn type_args(v: Seq<ScopeView<Option<TypeView>>>, s: nat, args: Seq<ArgView>) -> (
    Seq<ScopeView<Option<TypeView>>>,
    bool,
)
    decreases args.len(),
{
    if args.len() == 0 {
        (v, false)
    } else {
        let (v1, c) = type_args(v, s, args.drop_last());
        let a = args.last();
        if lookup_view(v1, s, a.name) == Some(None::<TypeView>) {
            (set_declared(v1, s, a.name, a.ty), true)
        } else {
            (v1, c)
        }
    }
}

/// One pass over a function.
pub open spec fn type_function(v: Seq<ScopeView<Option<TypeView>>>, f: FunctionView) -> (
    Seq<ScopeView<Option<TypeView>>>,
    FunctionView,
    bool,
) {
    match f.sidecar {
        Some(s) => if s < v.len() {
            let (v1, c1) = type_args(v, s, f.args);
            let (v2, body, c2) = type_expr(v1, f.body);
            (
                v2,
                FunctionView {
                    name: f.name,
                    name_span: f.name_span,
                    return_type: f.return_type,
                    return_span: f.return_span,
                    args: f.args,
                    body,
                    sidecar: f.sidecar,
                },
                c1 || c2,
            )
        } else {
            (v, f, false)
        },
        None => (v, f, false),
    }
}

pub open spec fn type_functions(v: Seq<ScopeView<Option<TypeView>>>, fs: Seq<FunctionView>) -> (
    Seq<ScopeView<Option<TypeView>>>,
    Seq<FunctionView>,
    bool,
)
    decreases fs.len(),
{
    if fs.len() == 0 {
        (v, Seq::empty(), false)
    } else {
        let (v1, done, c) = type_functions(v, fs.drop_last());
        let (v2, f, c2) = type_function(v1, fs.last());
        (v2, done.push(f), c || c2)
    }
}

/// One pass over the groups of a file.
pub open spec fn type_groups(v: Seq<ScopeView<Option<TypeView>>>, gs: Seq<(Seq<char>, Seq<FunctionView>)>) -> (
    Seq<ScopeView<Option<TypeView>>>,
    Seq<(Seq<char>, Seq<FunctionView>)>,
    bool,
)
    decreases gs.len(),
{
    if gs.len() == 0 {
        (v, Seq::empty(), false)
    } else {
        let (v1, done, c) = type_groups(v, gs.drop_last());
        let (v2, fs, c2) = type_functions(v1, gs.last().1);
        (v2, done.push((gs.last().0, fs)), c || c2)
    }
}


// ---------------------------------------------------------------------------
// One pass, executable.
// ---------------------------------------------------------------------------

/// Gives `name`, as found from scope `s`, the type "pointer to `t`".
fn declare_name(u: &mut Universe<NamespaceItemPartiallyTyped>, s: ScopeId, name: &String, t: Type)
    requires
        old(u).wf(),
        old(u).valid(s),
    ensures
        final(u).wf(),
        final(u)@.len() == old(u)@.len(),
        typing_view(final(u)@) == set_declared(typing_view(old(u)@), s.idx(), name@, t@),
{
    let ghost tv = t@;
    let ghost old_u = u@;
    let f = move |_it: &NamespaceItemPartiallyTyped| -> (r: NamespaceItemPartiallyTyped)
        ensures
            item_type(r) == Some(TypeView::Pointer(StorageClass::Function, Box::new(tv))),
        { NamespaceItemPartiallyTyped { ty: Some(types::pointer(StorageClass::Function, t)) } };
    proof {
        lemma_typing_view_lookup(old_u, s.idx(), name@);
        lemma_defining_scope(old_u, s.idx(), name@);
    }
    let _ = u.scope_lookup_and_modify(s, name.as_str(), f);
    proof {
        match defining_scope(old_u, s.idx(), name@) {
            Some(d) => {
                let v = choose|v: NamespaceItemPartiallyTyped|
                    {
                        &&& f.ensures((&old_u[d as int].items[name@],), v)
                        &&& u@ == old_u.update(
                            d as int,
                            ScopeView { parent: old_u[d as int].parent, items: old_u[d as int].items.insert(name@, v) },
                        )
                    };
                lemma_typing_view_insert(old_u, d, name@, v);
            },
            None => {},
        }
    }
}

fn declare_value_exec(u: &mut Universe<NamespaceItemPartiallyTyped>, e: &Expr)
    requires
        old(u).wf(),
        e@.sidecar.scope matches Some(s) && s < old(u)@.len(),
    ensures
        final(u).wf(),
        final(u)@.len() == old(u)@.len(),
        typing_view(final(u)@) == declare_value(typing_view(old(u)@), e@),
{
    if let ExprData::Declaration { name, value } = &e.data {
        if let Some(vt) = &value.sidecar.ty {
            if let Some(s) = e.sidecar.scope {
                assert(e@.data == ExprDataView::Declaration(name.inner@, name.span, Box::new(expr_view(**value))));
                assert(expr_view(**value).sidecar.ty == Some(vt@));
                assert(scope_of(e@) == s.idx());
                declare_name(u, s, &name.inner, type_copy(vt));
            }
        }
    }
}

fn type_expr_exec(u: &mut Universe<NamespaceItemPartiallyTyped>, e: Expr) -> (r: (Expr, bool))
    requires
        old(u).wf(),
    ensures
        final(u).wf(),
        final(u)@.len() == old(u)@.len(),
        type_expr(typing_view(old(u)@), e@) == (typing_view(final(u)@), r.0@, r.1),
    decreases e,
{
    let s = match e.sidecar.scope {
        Some(s) => s,
        None => {
            return (e, false);
        },
    };
    if !u.contains_scope(s) {
        return (e, false);
    }
    declare_value_exec(u, &e);
    let (ty, c) = match &e.sidecar.ty {
        Some(t) => (Some(type_copy(t)), false),
        None => match infer_expr_type(&e.data, s, u) {
            Some(t) => (Some(t), true),
            None => (None, false),
        },
    };
    let Expr { data, sidecar } = e;
    let car = ExprSidecar { scope: sidecar.scope, ty };
    match data {
        ExprData::InfixOp(l, op, r) => {
            let (l2, c1) = type_expr_exec(u, *l);
            let (r2, c2) = type_expr_exec(u, *r);
            (Expr { data: ExprData::InfixOp(Box::new(l2), op, Box::new(r2)), sidecar: car }, c || c1 || c2)
        },
        ExprData::Declaration { name, value } => {
            let (v2, c1) = type_expr_exec(u, *value);
            (Expr { data: ExprData::Declaration { name, value: Box::new(v2) }, sidecar: car }, c || c1)
        },
        ExprData::Block(b) => {
            let Spanned { inner: Block { exprs, last }, span } = b;
            let (es2, c1) = type_exprs_exec(u, exprs);
            match last {
                None => (
                    Expr {
                        data: ExprData::Block(Spanned { inner: Block { exprs: es2, last: None }, span }),
                        sidecar: car,
                    },
                    c || c1,
                ),
                Some(l) => {
                    let (l2, c2) = type_expr_exec(u, *l);
                    (
                        Expr {
                            data: ExprData::Block(Spanned { inner: Block { exprs: es2, last: Some(Box::new(l2)) }, span }),
                            sidecar: car,
                        },
                        c || c1 || c2,
                    )
                },
            }
        },
        ExprData::LiteralInt(x) => (Expr { data: ExprData::LiteralInt(x), sidecar: car }, c),
        ExprData::LiteralFloat(x) => (Expr { data: ExprData::LiteralFloat(x), sidecar: car }, c),
        ExprData::LiteralBool(x) => (Expr { data: ExprData::LiteralBool(x), sidecar: car }, c),
        ExprData::Var(x) => (Expr { data: ExprData::Var(x), sidecar: car }, c),
    }
}

fn type_exprs_exec(u: &mut Universe<NamespaceItemPartiallyTyped>, es: Vec<Expr>) -> (r: (Vec<Expr>, bool))
    requires
        old(u).wf(),
    ensures
        final(u).wf(),
        final(u)@.len() == old(u)@.len(),
        type_exprs(typing_view(old(u)@), exprs_view(es@)) == (typing_view(final(u)@), exprs_view(r.0@), r.1),
    decreases es,
{
    broadcast use vstd::std_specs::vec::axiom_spec_into_iter;

    let ghost u0 = u@;
    let ghost orig = es@;
    let mut out: Vec<Expr> = Vec::new();
    let mut changed = false;
    proof {
        assert(orig.take(0) =~= Seq::<Expr>::empty());
        lemma_exprs_view(orig.take(0));
        lemma_exprs_view(out@);
        assert(exprs_view(orig.take(0)) =~= Seq::<ExprView>::empty());
        assert(exprs_view(out@) =~= Seq::<ExprView>::empty());
    }
    for x in it: es.into_iter()
        invariant
            it.seq() == orig,
            orig == es@,
            u.wf(),
            u@.len() == u0.len(),
            type_exprs(typing_view(u0), exprs_view(orig.take(it.index()))) == (
                typing_view(u@),
                exprs_view(out@),
                changed,
            ),
    {
        let ghost i = it.index();
        proof {
            assert(decreases_to!(es => es@));
            assert(decreases_to!(es@ => es@[i]));
            assert(orig.take(i + 1) =~= orig.take(i).push(orig[i]));
            lemma_exprs_view_push(orig.take(i), orig[i]);
            assert(exprs_view(orig.take(i + 1)).drop_last() =~= exprs_view(orig.take(i)));
        }
        let (e2, c) = type_expr_exec(u, x);
        proof {
            lemma_exprs_view_push(out@, e2);
        }
        out.push(e2);
        changed = changed || c;
    }
    proof {
        assert(orig.take(orig.len() as int) =~= orig);
    }
    (out, changed)
}


fn type_function_exec(u: &mut Universe<NamespaceItemPartiallyTyped>, f: Function) -> (r: (Function, bool))
    requires
        old(u).wf(),
    ensures
        final(u).wf(),
        final(u)@.len() == old(u)@.len(),
        type_function(typing_view(old(u)@), f@) == (typing_view(final(u)@), r.0@, r.1),
{
    let s = match f.sidecar {
        Some(s) => s,
        None => {
            return (f, false);
        },
    };
    if !u.contains_scope(s) {
        return (f, false);
    }
    let ghost v0 = typing_view(u@);
    let Function { data, sidecar } = f;
    let FunctionData { name, return_type, args, body } = data;
    let mut changed = false;
    let mut i: usize = 0;
    assert(args_view(args@).take(0) =~= Seq::<ArgView>::empty());
    while i < args.len()
        invariant
            i <= args@.len(),
            u.wf(),
            u.valid(s),
            u@.len() == v0.len(),
            type_args(v0, s.idx(), args_view(args@).take(i as int)) == (typing_view(u@), changed),
        decreases args@.len() - i,
    {
        let ghost before = typing_view(u@);
        proof {
            assert(args_view(args@).take(i + 1).drop_last() =~= args_view(args@).take(i as int));
            assert(args_view(args@).take(i + 1).last() == arg_view(args@[i as int]));
            lemma_typing_view_lookup(u@, s.idx(), args@[i as int].name.inner@);
        }
        let untyped = match u.scope_lookup(s, args[i].name.inner.as_str()) {
            Some(item) => item.ty.is_none(),
            None => false,
        };
        if untyped {
            declare_name(u, s, &args[i].name.inner, type_copy(&args[i].ty.inner));
            changed = true;
        }
        i += 1;
    }
    assert(args_view(args@).take(args@.len() as int) =~= args_view(args@));
    let (body2, c2) = type_expr_exec(u, body);
    (Function { data: FunctionData { name, return_type, args, body: body2 }, sidecar }, changed || c2)
}

fn type_functions_exec(u: &mut Universe<NamespaceItemPartiallyTyped>, fs: Vec<Function>) -> (r: (Vec<Function>, bool))
    requires
        old(u).wf(),
    ensures
        final(u).wf(),
        final(u)@.len() == old(u)@.len(),
        type_functions(typing_view(old(u)@), functions_view(fs@)) == (typing_view(final(u)@), functions_view(r.0@), r.1),
{
    broadcast use vstd::std_specs::vec::axiom_spec_into_iter;

    let ghost u0 = u@;
    let ghost orig = fs@;
    let mut out: Vec<Function> = Vec::new();
    let mut changed = false;
    assert(functions_view(orig.take(0)) =~= Seq::<FunctionView>::empty());
    assert(functions_view(out@) =~= Seq::<FunctionView>::empty());
    for x in it: fs.into_iter()
        invariant
            it.seq() == orig,
            u.wf(),
            u@.len() == u0.len(),
            type_functions(typing_view(u0), functions_view(orig.take(it.index()))) == (
                typing_view(u@),
                functions_view(out@),
                changed,
            ),
    {
        let ghost i = it.index();
        proof {
            assert(functions_view(orig.take(i + 1)).drop_last() =~= functions_view(orig.take(i)));
            assert(functions_view(orig.take(i + 1)).last() == orig[i]@);
        }
        let (f2, c) = type_function_exec(u, x);
        proof {
            assert(functions_view(out@.push(f2)) =~= functions_view(out@).push(f2@));
        }
        out.push(f2);
        changed = changed || c;
    }
    assert(orig.take(orig.len() as int) =~= orig);
    (out, changed)
}

/// One typing pass over a whole file; says whether it inferred anything.
fn type_file_pass(u: &mut Universe<NamespaceItemPartiallyTyped>, file: File) -> (r: (File, bool))
    requires
        old(u).wf(),
    ensures
        final(u).wf(),
        final(u)@.len() == old(u)@.len(),
        type_groups(typing_view(old(u)@), file@) == (typing_view(final(u)@), r.0@, r.1),
{
    broadcast use vstd::std_specs::vec::axiom_spec_into_iter;

    let ghost u0 = u@;
    let ghost orig = file.functions@;
    let ghost gv = file@;
    let mut out: Vec<(String, Vec<Function>)> = Vec::new();
    let mut changed = false;
    let File { functions } = file;
    assert(gv.take(0) =~= Seq::<(Seq<char>, Seq<FunctionView>)>::empty());
    assert(out@.map_values(|g: (String, Vec<Function>)| group_view(g)) =~= Seq::<(Seq<char>, Seq<FunctionView>)>::empty());
    for g in it: functions.into_iter()
        invariant
            it.seq() == orig,
            gv == orig.map_values(|g: (String, Vec<Function>)| group_view(g)),
            u.wf(),
            u@.len() == u0.len(),
            type_groups(typing_view(u0), gv.take(it.index())) == (
                typing_view(u@),
                out@.map_values(|g: (String, Vec<Function>)| group_view(g)),
                changed,
            ),
    {
        let ghost i = it.index();
        proof {
            assert(gv.take(i + 1).drop_last() =~= gv.take(i));
            assert(gv.take(i + 1).last() == group_view(orig[i]));
        }
        let (name, fs) = g;
        let (fs2, c) = type_functions_exec(u, fs);
        let item = (name, fs2);
        proof {
            assert(out@.push(item).map_values(|g: (String, Vec<Function>)| group_view(g)) =~= out@.map_values(
                |g: (String, Vec<Function>)| group_view(g),
            ).push(group_view(item)));
        }
        out.push(item);
        changed = changed || c;
    }
    assert(gv.take(gv.len() as int) =~= gv);
    (File { functions: out }, changed)
}


// ---------------------------------------------------------------------------
// Starting afresh: every expression without a type.
// ---------------------------------------------------------------------------

/// `e` with every type forgotten.
pub open spec fn clear_type(e: ExprView) -> ExprView
    decreases e, 1int,
{
    let car = SidecarView { scope: e.sidecar.scope, ty: None };
    match e.data {
        ExprDataView::InfixOp(l, op, sp, r) => ExprView {
            data: ExprDataView::InfixOp(Box::new(clear_type(*l)), op, sp, Box::new(clear_type(*r))),
            sidecar: car,
        },
        ExprDataView::Declaration(n, sp, v) => ExprView {
            data: ExprDataView::Declaration(n, sp, Box::new(clear_type(*v))),
            sidecar: car,
        },
        ExprDataView::Block(es, last, sp) => ExprView {
            data: ExprDataView::Block(
                clear_types(es),
                match last {
                    Some(l) => Some(Box::new(clear_type(*l))),
                    None => None,
                },
                sp,
            ),
            sidecar: car,
        },
        _ => ExprView { data: e.data, sidecar: car },
    }
}

pub open spec fn clear_types(es: Seq<ExprView>) -> Seq<ExprView>
    decreases es, 0int,
{
    if es.len() == 0 {
        Seq::empty()
    } else {
        proof {
            assert(decreases_to!(es => es.drop_last()));
            assert(decreases_to!(es => es[es.len() - 1]));
        }
        clear_types(es.drop_last()).push(clear_type(es.last()))
    }
}

pub open spec fn clear_function(f: FunctionView) -> FunctionView {
    FunctionView {
        name: f.name,
        name_span: f.name_span,
        return_type: f.return_type,
        return_span: f.return_span,
        args: f.args,
        body: clear_type(f.body),
        sidecar: f.sidecar,
    }
}

pub open spec fn clear_groups(gs: Seq<(Seq<char>, Seq<FunctionView>)>) -> Seq<(Seq<char>, Seq<FunctionView>)> {
    gs.map_values(|g: (Seq<char>, Seq<FunctionView>)| (g.0, g.1.map_values(|f: FunctionView| clear_function(f))))
}

fn clear_type_exec(e: Expr) -> (r: Expr)
    ensures
        r@ == clear_type(e@),
    decreases e,
{
    let Expr { data, sidecar } = e;
    let car = ExprSidecar { scope: sidecar.scope, ty: None };
    match data {
        ExprData::InfixOp(l, op, r) => Expr {
            data: ExprData::InfixOp(Box::new(clear_type_exec(*l)), op, Box::new(clear_type_exec(*r))),
            sidecar: car,
        },
        ExprData::Declaration { name, value } => Expr {
            data: ExprData::Declaration { name, value: Box::new(clear_type_exec(*value)) },
            sidecar: car,
        },
        ExprData::Block(b) => {
            let Spanned { inner: Block { exprs, last }, span } = b;
            let exprs2 = clear_types_exec(exprs);
            let last2 = match last {
                Some(l) => Some(Box::new(clear_type_exec(*l))),
                None => None,
            };
            Expr { data: ExprData::Block(Spanned { inner: Block { exprs: exprs2, last: last2 }, span }), sidecar: car }
        },
        ExprData::LiteralInt(x) => Expr { data: ExprData::LiteralInt(x), sidecar: car },
        ExprData::LiteralFloat(x) => Expr { data: ExprData::LiteralFloat(x), sidecar: car },
        ExprData::LiteralBool(x) => Expr { data: ExprData::LiteralBool(x), sidecar: car },
        ExprData::Var(x) => Expr { data: ExprData::Var(x), sidecar: car },
    }
}

fn clear_types_exec(es: Vec<Expr>) -> (r: Vec<Expr>)
    ensures
        exprs_view(r@) == clear_types(exprs_view(es@)),
    decreases es,
{
    broadcast use vstd::std_specs::vec::axiom_spec_into_iter;

    let ghost orig = es@;
    let mut out: Vec<Expr> = Vec::new();
    proof {
        lemma_exprs_view(orig.take(0));
        lemma_exprs_view(out@);
        assert(exprs_view(orig.take(0)) =~= Seq::<ExprView>::empty());
        assert(exprs_view(out@) =~= Seq::<ExprView>::empty());
    }
    for x in it: es.into_iter()
        invariant
            it.seq() == orig,
            orig == es@,
            clear_types(exprs_view(orig.take(it.index()))) == exprs_view(out@),
    {
        let ghost i = it.index();
        proof {
            assert(decreases_to!(es => es@));
            assert(decreases_to!(es@ => es@[i]));
            assert(orig.take(i + 1) =~= orig.take(i).push(orig[i]));
            lemma_exprs_view_push(orig.take(i), orig[i]);
            assert(exprs_view(orig.take(i + 1)).drop_last() =~= exprs_view(orig.take(i)));
        }
        let e2 = clear_type_exec(x);
        proof {
            lemma_exprs_view_push(out@, e2);
        }
        out.push(e2);
    }
    proof {
        assert(orig.take(orig.len() as int) =~= orig);
    }
    out
}

fn clear_file(file: File) -> (r: File)
    ensures
        r@ == clear_groups(file@),
{
    broadcast use vstd::std_specs::vec::axiom_spec_into_iter;

    let ghost orig = file.functions@;
    let ghost gv = file@;
    let mut out: Vec<(String, Vec<Function>)> = Vec::new();
    let File { functions } = file;
    for g in it: functions.into_iter()
        invariant
            it.seq() == orig,
            gv == orig.map_values(|g: (String, Vec<Function>)| group_view(g)),
            out@.len() == it.index(),
            forall|k: int| 0 <= k < it.index() ==> group_view(#[trigger] out@[k]) == clear_groups(gv)[k],
    {
        let ghost i = it.index();
        let (name, fs) = g;
        let ghost fs0 = fs@;
        let mut fs2: Vec<Function> = Vec::new();
        for f in jt: fs.into_iter()
            invariant
                jt.seq() == fs0,
                fs2@.len() == jt.index(),
                forall|k: int| 0 <= k < jt.index() ==> (#[trigger] fs2@[k])@ == clear_function(fs0[k]@),
        {
            let Function { data, sidecar } = f;
            let FunctionData { name: fname, return_type, args, body } = data;
            let body2 = clear_type_exec(body);
            fs2.push(Function { data: FunctionData { name: fname, return_type, args, body: body2 }, sidecar });
        }
        let item = (name, fs2);
        proof {
            assert(functions_view(fs2@) =~= clear_groups(gv)[i as int].1);
        }
        out.push(item);
    }
    let r = File { functions: out };
    assert(r@ =~= clear_groups(gv));
    r
}

// ---------------------------------------------------------------------------
// Repeating passes.
// ---------------------------------------------------------------------------

/// The number of expressions of `e`.
pub open spec fn expr_size(e: ExprView) -> nat
    decreases e, 1int,
{
    1 + match e.data {
        ExprDataView::InfixOp(l, _, _, r) => expr_size(*l) + expr_size(*r),
        ExprDataView::Declaration(_, _, v) => expr_size(*v),
        ExprDataView::Block(es, last, _) => exprs_size(es) + match last {
            Some(l) => expr_size(*l),
            None => 0,
        },
        _ => 0,
    }
}

pub open spec fn exprs_size(es: Seq<ExprView>) -> nat
    decreases es, 0int,
{
    if es.len() == 0 {
        0
    } else {
        proof {
            assert(decreases_to!(es => es.drop_last()));
            assert(decreases_to!(es => es[es.len() - 1]));
        }
        exprs_size(es.drop_last()) + expr_size(es.last())
    }
}

pub open spec fn functions_size(fs: Seq<FunctionView>) -> nat
    decreases fs.len(),
{
    if fs.len() == 0 {
        0
    } else {
        functions_size(fs.drop_last()) + fs.last().args.len() + expr_size(fs.last().body)
    }
}

/// The number of expressions and arguments of a file.
pub open spec fn file_size(gs: Seq<(Seq<char>, Seq<FunctionView>)>) -> nat
    decreases gs.len(),
{
    if gs.len() == 0 {
        0
    } else {
        file_size(gs.drop_last()) + functions_size(gs.last().1)
    }
}

/// `n`, or the largest `u64` when `n` is larger.
pub open spec fn capped(n: nat) -> u64 {
    if n > u64::MAX {
        u64::MAX
    } else {
        n as u64
    }
}

/// How many passes inference is given: one more than a file has expressions
/// and arguments, each pass that infers something having given at least one
/// of them its type.
pub open spec fn pass_budget(gs: Seq<(Seq<char>, Seq<FunctionView>)>) -> u64 {
    capped(file_size(gs) + 1)
}

pub(crate) fn count_expr(e: &Expr) -> (r: u64)
    ensures
        r == capped(expr_size(e@)),
    decreases e,
{
    let inner: u64 = match &e.data {
        ExprData::InfixOp(l, _, r) => count_expr(l).saturating_add(count_expr(r)),
        ExprData::Declaration { name: _, value } => count_expr(value),
        ExprData::Block(b) => {
            let mut acc: u64 = 0;
            let mut i: usize = 0;
            proof {
                lemma_exprs_view(b.inner.exprs@);
                assert(exprs_view(b.inner.exprs@).take(0) =~= Seq::<ExprView>::empty());
            }
            while i < b.inner.exprs.len()
                invariant
                    e.data == ExprData::Block(*b),
                    i <= b.inner.exprs@.len(),
                    exprs_view(b.inner.exprs@).len() == b.inner.exprs@.len(),
                    forall|k: int| 0 <= k < b.inner.exprs@.len() ==> #[trigger] exprs_view(b.inner.exprs@)[k] == expr_view(b.inner.exprs@[k]),
                    acc == capped(exprs_size(exprs_view(b.inner.exprs@).take(i as int))),
                decreases b.inner.exprs@.len() - i,
            {
                proof {
                    assert(decreases_to!(e => e.data));
                    assert(decreases_to!(e.data => (e.data)->Block_0));
                    assert(decreases_to!((e.data)->Block_0 => (e.data)->Block_0.inner));
                    assert(decreases_to!((e.data)->Block_0.inner => (e.data)->Block_0.inner.exprs));
                    assert(decreases_to!((e.data)->Block_0.inner.exprs => (e.data)->Block_0.inner.exprs@));
                    assert(decreases_to!((e.data)->Block_0.inner.exprs@ => (e.data)->Block_0.inner.exprs@[i as int]));
                    assert(exprs_view(b.inner.exprs@).take(i + 1).drop_last() =~= exprs_view(b.inner.exprs@).take(i as int));
                }
                acc = acc.saturating_add(count_expr(&b.inner.exprs[i]));
                i += 1;
            }
            assert(exprs_view(b.inner.exprs@).take(b.inner.exprs@.len() as int) =~= exprs_view(b.inner.exprs@));
            match &b.inner.last {
                Some(l) => acc.saturating_add(count_expr(l)),
                None => acc,
            }
        },
        _ => 0,
    };
    inner.saturating_add(1)
}

fn count_file(file: &File) -> (r: u64)
    ensures
        r == capped(file_size(file@)),
{
    let mut acc: u64 = 0;
    let mut i: usize = 0;
    assert(file@.take(0) =~= Seq::<(Seq<char>, Seq<FunctionView>)>::empty());
    while i < file.functions.len()
        invariant
            i <= file.functions@.len(),
            file@.len() == file.functions@.len(),
            acc == capped(file_size(file@.take(i as int))),
        decreases file.functions@.len() - i,
    {
        let fs = &file.functions[i].1;
        let ghost fv = functions_view(fs@);
        let mut facc: u64 = 0;
        let mut j: usize = 0;
        assert(fv.take(0) =~= Seq::<FunctionView>::empty());
        while j < fs.len()
            invariant
                j <= fs@.len(),
                fv == functions_view(fs@),
                facc == capped(functions_size(fv.take(j as int))),
            decreases fs@.len() - j,
        {
            proof {
                assert(fv.take(j + 1).drop_last() =~= fv.take(j as int));
                assert(fv.take(j + 1).last() == fs@[j as int]@);
            }
            let n_args: u64 = if fs[j].data.args.len() as u64 as usize == fs[j].data.args.len() {
                fs[j].data.args.len() as u64
            } else {
                u64::MAX
            };
            facc = facc.saturating_add(n_args).saturating_add(count_expr(&fs[j].data.body));
            j += 1;
        }
        proof {
            assert(fv.take(fs@.len() as int) =~= fv);
            assert(file@.take(i + 1).drop_last() =~= file@.take(i as int));
            assert(file@.take(i + 1).last() == group_view(file.functions@[i as int]));
        }
        acc = acc.saturating_add(facc);
        i += 1;
    }
    assert(file@.take(file.functions@.len() as int) =~= file@);
    acc
}

/// Passes over `gs`, at most `fuel` of them, until one infers nothing.
pub open spec fn type_fix(v: Seq<ScopeView<Option<TypeView>>>, gs: Seq<(Seq<char>, Seq<FunctionView>)>, fuel: nat) -> (
    Seq<ScopeView<Option<TypeView>>>,
    Seq<(Seq<char>, Seq<FunctionView>)>,
)
    decreases fuel,
{
    if fuel == 0 {
        (v, gs)
    } else {
        let (v1, gs1, c) = type_groups(v, gs);
        if c {
            type_fix(v1, gs1, (fuel - 1) as nat)
        } else {
            (v1, gs1)
        }
    }
}


// ---------------------------------------------------------------------------
// Checking that every expression got a type.
// ---------------------------------------------------------------------------

/// The spans of the expressions of `e` without a type, `e` first, then its
/// children in order.
pub open spec fn untyped_spans(e: ExprView) -> Seq<Span>
    decreases e, 1int,
{
    let here: Seq<Span> = if e.sidecar.ty is None {
        seq![expr_span(e.data)]
    } else {
        Seq::empty()
    };
    here + match e.data {
        ExprDataView::InfixOp(l, _, _, r) => untyped_spans(*l) + untyped_spans(*r),
        ExprDataView::Declaration(_, _, v) => untyped_spans(*v),
        ExprDataView::Block(es, last, _) => untyped_spans_all(es) + match last {
            Some(l) => untyped_spans(*l),
            None => Seq::empty(),
        },
        _ => Seq::empty(),
    }
}

pub open spec fn untyped_spans_all(es: Seq<ExprView>) -> Seq<Span>
    decreases es, 0int,
{
    if es.len() == 0 {
        Seq::empty()
    } else {
        proof {
            assert(decreases_to!(es => es.drop_last()));
            assert(decreases_to!(es => es[es.len() - 1]));
        }
        untyped_spans_all(es.drop_last()) + untyped_spans(es.last())
    }
}

pub open spec fn untyped_spans_functions(fs: Seq<FunctionView>) -> Seq<Span>
    decreases fs.len(),
{
    if fs.len() == 0 {
        Seq::empty()
    } else {
        untyped_spans_functions(fs.drop_last()) + untyped_spans(fs.last().body)
    }
}

/// The spans of a file's expressions without a type, in order.
pub open spec fn untyped_spans_file(gs: Seq<(Seq<char>, Seq<FunctionView>)>) -> Seq<Span>
    decreases gs.len(),
{
    if gs.len() == 0 {
        Seq::empty()
    } else {
        untyped_spans_file(gs.drop_last()) + untyped_spans_functions(gs.last().1)
    }
}

/// The error for an expression whose type could not be inferred.
pub open spec fn is_type_error(e: CompileError) -> bool {
    &&& e.code == 3
    &&& e.message@ == "unable to infer type"@
    &&& e.label matches Some(l) && l@ == "at this expression"@
}

pub open spec fn error_spans(errs: Seq<CompileError>) -> Seq<Span> {
    errs.map_values(|e: CompileError| e.span)
}

fn untyped_error(span: Span) -> (r: CompileError)
    ensures
        is_type_error(r),
        r.span == span,
{
    CompileError {
        code: 3,
        message: String::from_str("unable to infer type"),
        span,
        label: Some(String::from_str("at this expression")),
    }
}

fn collect_untyped(e: &Expr, errs: &mut Vec<CompileError>)
    requires
        forall|i: int| 0 <= i < old(errs)@.len() ==> is_type_error(#[trigger] old(errs)@[i]),
    ensures
        forall|i: int| 0 <= i < final(errs)@.len() ==> is_type_error(#[trigger] final(errs)@[i]),
        error_spans(final(errs)@) == error_spans(old(errs)@) + untyped_spans(e@),
    decreases e,
{
    let ghost e0 = error_spans(errs@);
    if e.sidecar.ty.is_none() {
        let err = untyped_error(e.span());
        errs.push(err);
    }
    proof {
        let here: Seq<Span> = if e@.sidecar.ty is None { seq![expr_span(e@.data)] } else { Seq::empty() };
        assert(error_spans(errs@) =~= e0 + here);
    }
    let ghost e1 = error_spans(errs@);
    match &e.data {
        ExprData::InfixOp(l, _, r) => {
            collect_untyped(l, errs);
            collect_untyped(r, errs);
            assert(error_spans(errs@) =~= e0 + untyped_spans(e@));
        },
        ExprData::Declaration { name: _, value } => {
            collect_untyped(value, errs);
            assert(error_spans(errs@) =~= e0 + untyped_spans(e@));
        },
        ExprData::Block(b) => {
            let mut i: usize = 0;
            proof {
                lemma_exprs_view(b.inner.exprs@);
                assert(exprs_view(b.inner.exprs@).take(0) =~= Seq::<ExprView>::empty());
                assert(e1 + untyped_spans_all(exprs_view(b.inner.exprs@).take(0)) =~= e1);
            }
            while i < b.inner.exprs.len()
                invariant
                    e.data == ExprData::Block(*b),
                    i <= b.inner.exprs@.len(),
                    exprs_view(b.inner.exprs@).len() == b.inner.exprs@.len(),
                    forall|k: int| 0 <= k < b.inner.exprs@.len() ==> #[trigger] exprs_view(b.inner.exprs@)[k] == expr_view(b.inner.exprs@[k]),
                    forall|k: int| 0 <= k < errs@.len() ==> is_type_error(#[trigger] errs@[k]),
                    error_spans(errs@) == e1 + untyped_spans_all(exprs_view(b.inner.exprs@).take(i as int)),
                decreases b.inner.exprs@.len() - i,
            {
                proof {
                    assert(decreases_to!(e => e.data));
                    assert(decreases_to!(e.data => (e.data)->Block_0));
                    assert(decreases_to!((e.data)->Block_0 => (e.data)->Block_0.inner));
                    assert(decreases_to!((e.data)->Block_0.inner => (e.data)->Block_0.inner.exprs));
                    assert(decreases_to!((e.data)->Block_0.inner.exprs => (e.data)->Block_0.inner.exprs@));
                    assert(decreases_to!((e.data)->Block_0.inner.exprs@ => (e.data)->Block_0.inner.exprs@[i as int]));
                    assert(exprs_view(b.inner.exprs@).take(i + 1).drop_last() =~= exprs_view(b.inner.exprs@).take(i as int));
                }
                let ghost before = error_spans(errs@);
                collect_untyped(&b.inner.exprs[i], errs);
                proof {
                    assert(error_spans(errs@) =~= e1 + untyped_spans_all(exprs_view(b.inner.exprs@).take(i + 1)));
                }
                i += 1;
            }
            assert(exprs_view(b.inner.exprs@).take(b.inner.exprs@.len() as int) =~= exprs_view(b.inner.exprs@));
            match &b.inner.last {
                Some(l) => {
                    collect_untyped(l, errs);
                },
                None => {},
            }
            assert(error_spans(errs@) =~= e0 + untyped_spans(e@));
        },
        _ => {
            assert(error_spans(errs@) =~= e0 + untyped_spans(e@));
        },
    }
}

fn collect_untyped_file(file: &File) -> (r: Vec<CompileError>)
    ensures
        forall|i: int| 0 <= i < r@.len() ==> is_type_error(#[trigger] r@[i]),
        error_spans(r@) == untyped_spans_file(file@),
{
    let mut errs: Vec<CompileError> = Vec::new();
    let mut i: usize = 0;
    assert(file@.take(0) =~= Seq::<(Seq<char>, Seq<FunctionView>)>::empty());
    assert(error_spans(errs@) =~= Seq::<Span>::empty());
    while i < file.functions.len()
        invariant
            i <= file.functions@.len(),
            file@.len() == file.functions@.len(),
            forall|k: int| 0 <= k < errs@.len() ==> is_type_error(#[trigger] errs@[k]),
            error_spans(errs@) == untyped_spans_file(file@.take(i as int)),
        decreases file.functions@.len() - i,
    {
        let fs = &file.functions[i].1;
        let ghost fv = functions_view(fs@);
        let ghost start = error_spans(errs@);
        let mut j: usize = 0;
        assert(fv.take(0) =~= Seq::<FunctionView>::empty());
        assert(start + untyped_spans_functions(fv.take(0)) =~= start);
        while j < fs.len()
            invariant
                j <= fs@.len(),
                fv == functions_view(fs@),
                forall|k: int| 0 <= k < errs@.len() ==> is_type_error(#[trigger] errs@[k]),
                error_spans(errs@) == start + untyped_spans_functions(fv.take(j as int)),
            decreases fs@.len() - j,
        {
            proof {
                assert(fv.take(j + 1).drop_last() =~= fv.take(j as int));
                assert(fv.take(j + 1).last() == fs@[j as int]@);
            }
            collect_untyped(&fs[j].data.body, &mut errs);
            proof {
                assert(error_spans(errs@) =~= start + untyped_spans_functions(fv.take(j + 1)));
            }
            j += 1;
        }
        proof {
            assert(fv.take(fs@.len() as int) =~= fv);
            assert(file@.take(i + 1).drop_last() =~= file@.take(i as int));
            assert(file@.take(i + 1).last() == group_view(file.functions@[i as int]));
            assert(error_spans(errs@) =~= untyped_spans_file(file@.take(i + 1)));
        }
        i += 1;
    }
    assert(file@.take(file.functions@.len() as int) =~= file@);
    errs
}


// ---------------------------------------------------------------------------
// The pass.
// ---------------------------------------------------------------------------

/// The names of `u`'s scopes, none with a known type.
pub open spec fn untyped_view(u: Seq<ScopeView<()>>) -> Seq<ScopeView<Option<TypeView>>> {
    Seq::new(
        u.len(),
        |i: int| ScopeView { parent: u[i].parent, items: u[i].items.map_values(|x: ()| None::<TypeView>) },
    )
}

/// `v` with `name`, as found from scope `s`, given type `t`.
pub open spec fn set_named(v: Seq<ScopeView<Option<TypeView>>>, s: nat, name: Seq<char>, t: TypeView) -> Seq<
    ScopeView<Option<TypeView>>,
> {
    match defining_scope(v, s, name) {
        Some(d) => insert_item(v, d, name, Some(t)),
        None => v,
    }
}

pub open spec fn float32() -> NumberKind {
    NumberKind::Float(Float { width: 32 })
}

/// The types given in advance to the names `f_color`, `uv` and `time` when
/// the root scope declares them: an output 4-vector and an input 2-vector of
/// 32-bit floats, and an input 32-bit float.
pub open spec fn preset_types(v: Seq<ScopeView<Option<TypeView>>>) -> Seq<ScopeView<Option<TypeView>>> {
    let v1 = set_named(
        v,
        0,
        "f_color"@,
        TypeView::Pointer(
            StorageClass::Output,
            Box::new(TypeView::Concrete(Concrete::Vector(Vector { component_type: float32(), component_count: 4 }))),
        ),
    );
    let v2 = set_named(
        v1,
        0,
        "uv"@,
        TypeView::Pointer(
            StorageClass::Input,
            Box::new(TypeView::Concrete(Concrete::Vector(Vector { component_type: float32(), component_count: 2 }))),
        ),
    );
    set_named(v2, 0, "time"@, TypeView::Pointer(StorageClass::Input, Box::new(number_type(float32()))))
}

/// The type of every name once inference is over: its inferred type, or
/// `void` when none was inferred.
pub open spec fn final_view(v: Seq<ScopeView<Option<TypeView>>>) -> Seq<ScopeView<TypeView>> {
    Seq::new(
        v.len(),
        |i: int|
            ScopeView {
                parent: v[i].parent,
                items: v[i].items.map_values(
                    |t: Option<TypeView>|
                        match t {
                            Some(x) => x,
                            None => void_view(),
                        },
                ),
            },
    )
}

/// The types of a fully typed universe's names.
pub open spec fn typed_view(u: Seq<ScopeView<NamespaceItemFullyTyped>>) -> Seq<ScopeView<TypeView>> {
    Seq::new(
        u.len(),
        |i: int| ScopeView { parent: u[i].parent, items: u[i].items.map_values(|it: NamespaceItemFullyTyped| it.ty@) },
    )
}

/// What inference gives for `gs` in universe `u`: the names' types and the
/// file, after passes from a file without types.
pub open spec fn inferred(u: Seq<ScopeView<()>>, gs: Seq<(Seq<char>, Seq<FunctionView>)>) -> (
    Seq<ScopeView<Option<TypeView>>>,
    Seq<(Seq<char>, Seq<FunctionView>)>,
) {
    let gs0 = clear_groups(gs);
    type_fix(preset_types(untyped_view(u)), gs0, pass_budget(gs0) as nat)
}

fn set_named_exec(u: &mut Universe<NamespaceItemPartiallyTyped>, s: ScopeId, name: &str, t: Type)
    requires
        old(u).wf(),
        old(u).valid(s),
    ensures
        final(u).wf(),
        final(u)@.len() == old(u)@.len(),
        typing_view(final(u)@) == set_named(typing_view(old(u)@), s.idx(), name@, t@),
{
    let ghost tv = t@;
    let ghost old_u = u@;
    let f = move |_it: &NamespaceItemPartiallyTyped| -> (r: NamespaceItemPartiallyTyped)
        ensures
            item_type(r) == Some(tv),
        { NamespaceItemPartiallyTyped { ty: Some(t) } };
    proof {
        lemma_typing_view_lookup(old_u, s.idx(), name@);
        lemma_defining_scope(old_u, s.idx(), name@);
    }
    let _ = u.get_scope_mut(s).lookup_and_modify(name, f);
    proof {
        match defining_scope(old_u, s.idx(), name@) {
            Some(d) => {
                let v = choose|v: NamespaceItemPartiallyTyped|
                    {
                        &&& f.ensures((&old_u[d as int].items[name@],), v)
                        &&& u@ == old_u.update(
                            d as int,
                            ScopeView { parent: old_u[d as int].parent, items: old_u[d as int].items.insert(name@, v) },
                        )
                    };
                lemma_typing_view_insert(old_u, d, name@, v);
            },
            None => {},
        }
    }
}

fn f32_type() -> (r: NumberKind)
    ensures
        r == float32(),
{
    NumberKind::Float(Float { width: 32 })
}

/// The typing pass: infers the type of every expression and every name,
/// pass after pass until a pass infers nothing (which the budget of passes
/// always reaches, see `law_inference_settles`).  Succeeds when every
/// expression got a type; otherwise reports each expression left without
/// one.
pub fn populate_types(file: File, universe: Universe<()>) -> (r: Result<
    (File, Universe<NamespaceItemFullyTyped>),
    Vec<CompileError>,
>)
    requires
        universe.wf(),
    ensures
        ({
            let (vf, gsf) = inferred(universe@, file@);
            &&& (r is Ok <==> untyped_spans_file(gsf).len() == 0)
            &&& (r matches Ok((f, u)) ==> f@ == gsf && u.wf() && typed_view(u@) == final_view(vf))
            &&& (r matches Err(errs) ==> error_spans(errs@) == untyped_spans_file(gsf) && forall|i: int|
                0 <= i < errs@.len() ==> is_type_error(#[trigger] errs@[i]))
        }),
        file_size(file@) < u64::MAX ==> settles(
            preset_types(untyped_view(universe@)),
            clear_groups(file@),
            pass_budget(clear_groups(file@)) as nat,
        ),
{
    let ghost u_in = universe@;
    let ghost gs0 = clear_groups(file@);
    proof {
        if file_size(file@) < u64::MAX {
            law_inference_settles(u_in, file@);
        }
    }
    let mut file = clear_file(file);
    let start = |_x: ()| -> (r: NamespaceItemPartiallyTyped)
        ensures
            r.ty is None,
        { NamespaceItemPartiallyTyped { ty: None } };
    let mut u = universe.map(start);
    proof {
        let a = u_in;
        let b = u@;
        assert forall|i: int| 0 <= i < a.len() implies typing_view(b)[i] == untyped_view(a)[i] by {
            assert(b[i].items.dom() == a[i].items.dom());
            assert forall|k: Seq<char>| #[trigger] b[i].items.contains_key(k) implies item_type(b[i].items[k]) is None by {
                assert(a[i].items.contains_key(k));
            }
            assert(typing_view(b)[i].items =~= untyped_view(a)[i].items);
        }
        assert(typing_view(b) =~= untyped_view(a));
        u.lemma_wf();
    }
    let root = u.root_scope_id();
    let v4 = types::vector(Vector { component_type: f32_type(), component_count: 4 });
    set_named_exec(&mut u, root, "f_color", types::pointer(StorageClass::Output, v4));
    let v2 = types::vector(Vector { component_type: f32_type(), component_count: 2 });
    set_named_exec(&mut u, root, "uv", types::pointer(StorageClass::Input, v2));
    set_named_exec(&mut u, root, "time", types::pointer(StorageClass::Input, types::number(f32_type())));
    let budget = count_file(&file).saturating_add(1);
    assert(budget == pass_budget(gs0));
    let mut fuel = budget;
    let ghost target = type_fix(typing_view(u@), file@, fuel as nat);
    loop
        invariant_except_break
            type_fix(typing_view(u@), file@, fuel as nat) == target,
        invariant
            u.wf(),
        ensures
            (typing_view(u@), file@) == target,
        decreases fuel,
    {
        if fuel == 0 {
            break;
        }
        let (f2, changed) = type_file_pass(&mut u, file);
        file = f2;
        fuel = fuel - 1;
        if !changed {
            break;
        }
    }
    let errs = collect_untyped_file(&file);
    if errs.len() > 0 {
        return Err(errs);
    }
    let ghost vf = typing_view(u@);
    let ghost u_mid = u@;
    let finish = |it: NamespaceItemPartiallyTyped| -> (r: NamespaceItemFullyTyped)
        ensures
            r.ty@ == match item_type(it) {
                Some(x) => x,
                None => void_view(),
            },
        {
            NamespaceItemFullyTyped {
                ty: match it.ty {
                    Some(t) => t,
                    None => types::void_type(),
                },
            }
        };
    let uf = u.map(finish);
    proof {
        let a = u_mid;
        let b = uf@;
        assert forall|i: int| 0 <= i < a.len() implies typed_view(b)[i] == final_view(vf)[i] by {
            assert(b[i].items.dom() == a[i].items.dom());
            assert forall|k: Seq<char>| #[trigger] b[i].items.contains_key(k) implies b[i].items[k].ty@ == match item_type(
                a[i].items[k],
            ) {
                Some(x) => x,
                None => void_view(),
            } by {
                assert(a[i].items.contains_key(k));
            }
            assert(typed_view(b)[i].items =~= final_view(vf)[i].items);
        }
        assert(typed_view(b) =~= final_view(vf));
    }
    Ok((file, uf))
}


// ---------------------------------------------------------------------------
// Calls and field accesses.
// ---------------------------------------------------------------------------

/// What a call names: a built-in function, or a type to construct.
#[derive(Debug)]
pub enum CallTarget {
    Ident(String),
    Type(Type),
}

pub enum CallTargetView {
    Ident(Seq<char>),
    Type(TypeView),
}

pub open spec fn call_target_view(t: CallTarget) -> CallTargetView {
    match t {
        CallTarget::Ident(s) => CallTargetView::Ident(s@),
        CallTarget::Type(t) => CallTargetView::Type(t@),
    }
}

/// The built-ins of one number or vector argument that give its type.
pub open spec fn is_unary_builtin(name: Seq<char>) -> bool {
    name == "fract"@ || name == "exp"@ || name == "cos"@ || name == "sin"@ || name == "fabs"@
}

/// How many components of kind `ct` an argument of type `arg` gives a
/// vector being constructed.
pub open spec fn component_contribution(arg: TypeView, ct: NumberKind) -> Option<nat> {
    if arg == number_type(ct) {
        Some(1)
    } else {
        match arg {
            TypeView::Concrete(Concrete::Vector(v)) => if v.component_type == ct {
                Some(v.component_count as nat)
            } else {
                None
            },
            _ => None,
        }
    }
}

/// How many components of kind `ct` the arguments give together.
pub open spec fn components_total(args: Seq<TypeView>, ct: NumberKind) -> Option<nat>
    decreases args.len(),
{
    if args.len() == 0 {
        Some(0)
    } else {
        match (components_total(args.drop_last(), ct), component_contribution(args.last(), ct)) {
            (Some(a), Some(b)) => Some(a + b),
            _ => None,
        }
    }
}

/// The type of a call of `target` on arguments of types `args`.
pub open spec fn infer_call(target: CallTargetView, args: Seq<TypeView>) -> Option<TypeView> {
    match target {
        CallTargetView::Ident(name) => if is_unary_builtin(name) {
            if args.len() == 1 && is_vector_or_scalar(args[0]) {
                Some(args[0])
            } else {
                None
            }
        } else if name == "length"@ {
            if args.len() == 1 {
                match args[0] {
                    TypeView::Concrete(Concrete::Vector(v)) => if v.component_type is Float {
                        Some(number_type(v.component_type))
                    } else {
                        None
                    },
                    _ => None,
                }
            } else {
                None
            }
        } else if name == "pow"@ {
            if args.len() == 2 && args[0] == args[1] && is_vector_or_scalar(args[0]) {
                Some(args[0])
            } else {
                None
            }
        } else {
            None
        },
        CallTargetView::Type(t) => match t {
            TypeView::Concrete(Concrete::Vector(v)) => match components_total(args, v.component_type) {
                Some(n) => if n == v.component_count {
                    Some(t)
                } else {
                    None
                },
                None => None,
            },
            _ => None,
        },
    }
}

/// Whether every argument type is known.
pub open spec fn all_known(args: Seq<Option<Type>>) -> bool {
    forall|i: int| 0 <= i < args.len() ==> (#[trigger] args[i]) is Some
}

/// The known argument types' views.
pub open spec fn known_views(args: Seq<Option<Type>>) -> Seq<TypeView> {
    args.map_values(|a: Option<Type>| a->0@)
}

proof fn lemma_components_total_grows(args: Seq<TypeView>, ct: NumberKind, i: int)
    requires
        0 <= i <= args.len(),
        components_total(args, ct) is Some,
    ensures
        components_total(args.take(i), ct) is Some,
        components_total(args.take(i), ct)->0 <= components_total(args, ct)->0,
    decreases args.len(),
{
    if i < args.len() {
        lemma_components_total_grows(args.drop_last(), ct, i);
        assert(args.drop_last().take(i) =~= args.take(i));
    } else {
        assert(args.take(i) =~= args);
    }
}

/// The type of a call of `target` on arguments whose types are `arg_types`
/// (`None` where an argument's type is not known yet).
pub fn infer_function_call_type(target: &CallTarget, arg_types: &Vec<Option<Type>>) -> (r: Option<Type>)
    ensures
        match r {
            Some(t) => all_known(arg_types@) && infer_call(call_target_view(*target), known_views(arg_types@))
                == Some(t@),
            None => !all_known(arg_types@) || infer_call(call_target_view(*target), known_views(arg_types@)) is None,
        },
{
    let n = arg_types.len();
    let mut k: usize = 0;
    while k < n
        invariant
            n == arg_types@.len(),
            k <= n,
            forall|i: int| 0 <= i < k ==> (#[trigger] arg_types@[i]) is Some,
        decreases n - k,
    {
        if arg_types[k].is_none() {
            return None;
        }
        k += 1;
    }
    let ghost views = known_views(arg_types@);
    match target {
        CallTarget::Ident(name) => {
            let is_unary = *name == String::from_str("fract") || *name == String::from_str("exp") || *name
                == String::from_str("cos") || *name == String::from_str("sin") || *name == String::from_str(
                "fabs",
            );
            if is_unary {
                if n == 1 {
                    if let Some(t) = &arg_types[0] {
                        if is_vector_or_scalar_exec(t) {
                            return Some(type_copy(t));
                        }
                    }
                }
                None
            } else if *name == String::from_str("length") {
                if n == 1 {
                    if let Some(Type::Concrete(Concrete::Vector(v))) = &arg_types[0] {
                        if let NumberKind::Float(_) = v.component_type {
                            return Some(types::number(v.component_type));
                        }
                    }
                }
                None
            } else if *name == String::from_str("pow") {
                if n == 2 {
                    if let Some(a) = &arg_types[0] {
                        if let Some(b) = &arg_types[1] {
                            if type_eq(a, b) && is_vector_or_scalar_exec(a) {
                                return Some(type_copy(a));
                            }
                        }
                    }
                }
                None
            } else {
                None
            }
        },
        CallTarget::Type(t) => {
            if let Type::Concrete(Concrete::Vector(vec)) = t {
                let ct = vec.component_type;
                let expected = types::number(ct);
                let mut acc: u64 = 0;
                let mut i: usize = 0;
                assert(views.take(0) =~= Seq::<TypeView>::empty());
                while i < n
                    invariant
                        *target == CallTarget::Type(*t),
                        *t == Type::Concrete(Concrete::Vector(*vec)),
                        ct == vec.component_type,
                        n == arg_types@.len(),
                        i <= n,
                        all_known(arg_types@),
                        views == known_views(arg_types@),
                        views.len() == n,
                        expected@ == number_type(ct),
                        acc <= vec.component_count,
                        components_total(views.take(i as int), ct) == Some(acc as nat),
                    decreases n - i,
                {
                    proof {
                        assert(views.take(i + 1).drop_last() =~= views.take(i as int));
                        assert(views.take(i + 1).last() == views[i as int]);
                    }
                    let add: u64 = match &arg_types[i] {
                        Some(a) => {
                            if type_eq(a, &expected) {
                                1
                            } else {
                                match a {
                                    Type::Concrete(Concrete::Vector(av)) => if av.component_type == ct {
                                        av.component_count as u64
                                    } else {
                                        proof {
                                            assert(component_contribution(views[i as int], ct) is None);
                                            if components_total(views, ct) is Some {
                                                lemma_components_total_grows(views, ct, i + 1);
                                            }
                                        }
                                        return None;
                                    },
                                    _ => {
                                        proof {
                                            assert(component_contribution(views[i as int], ct) is None);
                                            if components_total(views, ct) is Some {
                                                lemma_components_total_grows(views, ct, i + 1);
                                            }
                                        }
                                        return None;
                                    },
                                }
                            }
                        },
                        None => {
                            return None;
                        },
                    };
                    if acc + add > vec.component_count as u64 {
                        proof {
                            if components_total(views, ct) is Some {
                                lemma_components_total_grows(views, ct, i + 1);
                            }
                        }
                        return None;
                    }
                    acc = acc + add;
                    i += 1;
                }
                assert(views.take(n as int) =~= views);
                if acc == vec.component_count as u64 {
                    Some(type_copy(t))
                } else {
                    None
                }
            } else {
                None
            }
        },
    }
}

/// The position of a vector component's name among `x`, `y`, `z`, `w`.
pub open spec fn component_index(c: char) -> Option<nat> {
    if c == 'x' {
        Some(0)
    } else if c == 'y' {
        Some(1)
    } else if c == 'z' {
        Some(2)
    } else if c == 'w' {
        Some(3)
    } else {
        None
    }
}

/// The type of the field `field` of a value of type `target`: a vector's
/// component, named by one of the first of `x`, `y`, `z`, `w`.
pub open spec fn infer_field(target: Option<TypeView>, field: Seq<char>) -> Option<TypeView> {
    match target {
        Some(TypeView::Concrete(Concrete::Vector(v))) => if field.len() == 1 && (component_index(field[0]) matches Some(i) && i < v.component_count) {
            Some(number_type(v.component_type))
        } else {
            None
        },
        _ => None,
    }
}

/// Field access reads one component of a vector: the field named by the
/// `i`-th of `x`, `y`, `z`, `w` exists exactly when the vector has more than
/// `i` components, and has the vector's component type; no other field,
/// and no field of what is not a vector, exists.
pub proof fn law_field_access(t: Option<TypeView>, v: Vector, field: Seq<char>, i: int)
    ensures
        0 <= i < 4 ==> infer_field(Some(TypeView::Concrete(Concrete::Vector(v))), seq![seq!['x', 'y', 'z', 'w'][i]])
            == if i < v.component_count {
            Some(TypeView::Concrete(Concrete::Number(v.component_type)))
        } else {
            None
        },
        !(field.len() == 1 && seq!['x', 'y', 'z', 'w'].contains(field[0])) ==> infer_field(t, field) is None,
        !(t matches Some(TypeView::Concrete(Concrete::Vector(_)))) ==> infer_field(t, field) is None,
{
    let names = seq!['x', 'y', 'z', 'w'];
    if field.len() == 1 && component_index(field[0]) is Some {
        let c = field[0];
        assert(c == 'x' ==> names[0] == c);
        assert(c == 'y' ==> names[1] == c);
        assert(c == 'z' ==> names[2] == c);
        assert(c == 'w' ==> names[3] == c);
    }
}

/// `n` arguments, each of type `t`.
pub open spec fn copies(t: TypeView, n: nat) -> Seq<TypeView> {
    Seq::new(n, |i: int| t)
}

proof fn lemma_components_of_scalars(k: NumberKind, n: nat)
    ensures
        components_total(copies(TypeView::Concrete(Concrete::Number(k)), n), k) == Some(n),
    decreases n,
{
    if n > 0 {
        lemma_components_of_scalars(k, (n - 1) as nat);
        assert(copies(TypeView::Concrete(Concrete::Number(k)), n).drop_last() =~= copies(
            TypeView::Concrete(Concrete::Number(k)),
            (n - 1) as nat,
        ));
    }
}

/// Calls: a vector type called on scalars of its component kind makes that
/// vector exactly when there are as many scalars as it has components, and
/// called on one vector of its own type gives it back; an argument of
/// another kind makes no vector.  The built-ins `fract`, `exp`, `cos`,
/// `sin`, `fabs` keep their one number or vector argument's type, `pow`
/// keeps the type of its two equal arguments, and `length` of a float vector
/// is its component type.
pub proof fn law_calls(v: Vector, n: nat, a: TypeView, k: NumberKind)
    ensures
        ({
            let tv = TypeView::Concrete(Concrete::Vector(v));
            let scalar = TypeView::Concrete(Concrete::Number(v.component_type));
            &&& infer_call(CallTargetView::Type(tv), copies(scalar, n)) == if n == v.component_count {
                Some(tv)
            } else {
                None
            }
            &&& infer_call(CallTargetView::Type(tv), seq![tv]) == Some(tv)
            &&& k != v.component_type ==> infer_call(
                CallTargetView::Type(tv),
                seq![TypeView::Concrete(Concrete::Number(k))],
            ) is None
            &&& (v.component_type is Float ==> infer_call(CallTargetView::Ident("length"@), seq![tv]) == Some(scalar))
        }),
        is_vector_or_scalar(a) ==> infer_call(CallTargetView::Ident("fract"@), seq![a]) == Some(a)
            && infer_call(CallTargetView::Ident("exp"@), seq![a]) == Some(a) && infer_call(
            CallTargetView::Ident("cos"@),
            seq![a],
        ) == Some(a) && infer_call(CallTargetView::Ident("sin"@), seq![a]) == Some(a) && infer_call(
            CallTargetView::Ident("fabs"@),
            seq![a],
        ) == Some(a) && infer_call(CallTargetView::Ident("pow"@), seq![a, a]) == Some(a),
{
    let tv = TypeView::Concrete(Concrete::Vector(v));
    lemma_components_of_scalars(v.component_type, n);
    assert(seq![tv].drop_last() =~= Seq::<TypeView>::empty());
    assert(seq![TypeView::Concrete(Concrete::Number(k))].drop_last() =~= Seq::<TypeView>::empty());
    reveal_strlit("fract");
    reveal_strlit("exp");
    reveal_strlit("cos");
    reveal_strlit("sin");
    reveal_strlit("fabs");
    reveal_strlit("pow");
    reveal_strlit("length");
    let scalar = TypeView::Concrete(Concrete::Number(v.component_type));
    assert(components_total(seq![tv], v.component_type) == Some(v.component_count as nat)) by {
        assert(components_total(Seq::<TypeView>::empty(), v.component_type) == Some(0nat));
    }
    assert("length"@.len() == 6 && "fract"@.len() == 5 && "exp"@.len() == 3 && "cos"@.len() == 3 && "sin"@.len()
        == 3 && "fabs"@.len() == 4 && "pow"@.len() == 3);
    assert("pow"@[0] == 'p' && "exp"@[0] == 'e' && "cos"@[0] == 'c' && "sin"@[0] == 's');
    assert(!is_unary_builtin("length"@));
    assert(infer_call(CallTargetView::Ident("length"@), seq![tv]) == if v.component_type is Float {
        Some(scalar)
    } else {
        None
    });
    assert(is_unary_builtin("fract"@) && is_unary_builtin("exp"@) && is_unary_builtin("cos"@) && is_unary_builtin(
        "sin"@,
    ) && is_unary_builtin("fabs"@));
    assert(!is_unary_builtin("pow"@));
}

/// The type of the field `field` of a value whose type is `target` (`None`
/// when that type is not known yet).
pub fn infer_field_access_type(target: &Option<Type>, field: &str) -> (r: Option<Type>)
    requires
        target matches Some(Type::Concrete(Concrete::Vector(v))) ==> v.component_count <= 4,
        !(target matches Some(Type::Concrete(Concrete::Matrix(_)))),
    ensures
        opt_type_view(r) == infer_field(opt_type_view(*target), field@),
{
    match target {
        Some(Type::Concrete(Concrete::Vector(v))) => {
            if field.unicode_len() == 1 {
                let c = field.get_char(0);
                let idx: u32 = if c == 'x' {
                    0
                } else if c == 'y' {
                    1
                } else if c == 'z' {
                    2
                } else if c == 'w' {
                    3
                } else {
                    4
                };
                if idx < v.component_count && idx < 4 {
                    Some(types::number(v.component_type))
                } else {
                    None
                }
            } else {
                None
            }
        },
        _ => None,
    }
}

// ---------------------------------------------------------------------------
// What a pass keeps.
// ---------------------------------------------------------------------------

/// Every expression of `a` that has a type has the same type in `b`, node
/// for node.
pub open spec fn types_kept(a: ExprView, b: ExprView) -> bool
    decreases a, 1int,
{
    &&& (a.sidecar.ty matches Some(t) ==> b.sidecar.ty == Some(t))
    &&& match a.data {
        ExprDataView::InfixOp(l, _, _, r) => match b.data {
            ExprDataView::InfixOp(l2, _, _, r2) => types_kept(*l, *l2) && types_kept(*r, *r2),
            _ => false,
        },
        ExprDataView::Declaration(_, _, v) => match b.data {
            ExprDataView::Declaration(_, _, v2) => types_kept(*v, *v2),
            _ => false,
        },
        ExprDataView::Block(es, last, _) => match b.data {
            ExprDataView::Block(es2, last2, _) => types_kept_list(es, es2) && match last {
                Some(l) => match last2 {
                    Some(l2) => types_kept(*l, *l2),
                    None => false,
                },
                None => last2 is None,
            },
            _ => false,
        },
        _ => true,
    }
}

/// `types_kept`, element by element.
pub open spec fn types_kept_list(a: Seq<ExprView>, b: Seq<ExprView>) -> bool
    decreases a, 0int,
{
    if a.len() == 0 {
        b.len() == 0
    } else {
        proof {
            assert(decreases_to!(a => a.drop_last()));
            assert(decreases_to!(a => a[a.len() - 1]));
        }
        b.len() == a.len() && types_kept_list(a.drop_last(), b.drop_last()) && types_kept(a.last(), b.last())
    }
}

proof fn lemma_types_kept_refl(a: ExprView)
    ensures
        types_kept(a, a),
    decreases a, 1int,
{
    match a.data {
        ExprDataView::InfixOp(l, _, _, r) => {
            lemma_types_kept_refl(*l);
            lemma_types_kept_refl(*r);
        },
        ExprDataView::Declaration(_, _, v) => lemma_types_kept_refl(*v),
        ExprDataView::Block(es, last, _) => {
            lemma_types_kept_list_refl(es);
            if let Some(l) = last {
                lemma_types_kept_refl(*l);
            }
        },
        _ => {},
    }
}

proof fn lemma_types_kept_list_refl(a: Seq<ExprView>)
    ensures
        types_kept_list(a, a),
    decreases a, 0int,
{
    if a.len() > 0 {
        lemma_types_kept_list_refl(a.drop_last());
        lemma_types_kept_refl(a.last());
    }
}

proof fn lemma_types_kept_trans(a: ExprView, b: ExprView, c: ExprView)
    requires
        types_kept(a, b),
        types_kept(b, c),
    ensures
        types_kept(a, c),
    decreases a, 1int,
{
    match a.data {
        ExprDataView::InfixOp(l, _, _, r) => {
            if let ExprDataView::InfixOp(l2, _, _, r2) = b.data {
                if let ExprDataView::InfixOp(l3, _, _, r3) = c.data {
                    lemma_types_kept_trans(*l, *l2, *l3);
                    lemma_types_kept_trans(*r, *r2, *r3);
                }
            }
        },
        ExprDataView::Declaration(_, _, v) => {
            if let ExprDataView::Declaration(_, _, v2) = b.data {
                if let ExprDataView::Declaration(_, _, v3) = c.data {
                    lemma_types_kept_trans(*v, *v2, *v3);
                }
            }
        },
        ExprDataView::Block(es, last, _) => {
            if let ExprDataView::Block(es2, last2, _) = b.data {
                if let ExprDataView::Block(es3, last3, _) = c.data {
                    lemma_types_kept_list_trans(es, es2, es3);
                    if let Some(l) = last {
                        if let Some(l2) = last2 {
                            if let Some(l3) = last3 {
                                lemma_types_kept_trans(*l, *l2, *l3);
                            }
                        }
                    }
                }
            }
        },
        _ => {},
    }
}

proof fn lemma_types_kept_list_trans(a: Seq<ExprView>, b: Seq<ExprView>, c: Seq<ExprView>)
    requires
        types_kept_list(a, b),
        types_kept_list(b, c),
    ensures
        types_kept_list(a, c),
    decreases a, 0int,
{
    if a.len() > 0 {
        lemma_types_kept_list_trans(a.drop_last(), b.drop_last(), c.drop_last());
        lemma_types_kept_trans(a.last(), b.last(), c.last());
    }
}

/// A pass over an expression changes nothing but types, and keeps every
/// type that was already known.
pub proof fn law_type_expr_keeps(v: Seq<ScopeView<Option<TypeView>>>, e: ExprView)
    ensures
        clear_type(type_expr(v, e).1) == clear_type(e),
        types_kept(e, type_expr(v, e).1),
    decreases e, 2int,
{
    if !(e.sidecar.scope matches Some(s) && s < v.len()) {
        lemma_types_kept_refl(e);
    } else {
        law_type_expr_scoped_keeps(v, e);
    }
}

proof fn law_type_expr_scoped_keeps(v: Seq<ScopeView<Option<TypeView>>>, e: ExprView)
    ensures
        clear_type(type_expr_scoped(v, e).1) == clear_type(e),
        types_kept(e, type_expr_scoped(v, e).1),
    decreases e, 1int,
{
    let v1 = declare_value(v, e);
    let r = type_expr_scoped(v, e);
    match e.data {
        ExprDataView::InfixOp(l, op, sp, rr) => {
            law_type_expr_keeps(v1, *l);
            let (v2, l2, c1) = type_expr(v1, *l);
            law_type_expr_keeps(v2, *rr);
            assert(clear_type(r.1) =~= clear_type(e));
        },
        ExprDataView::Declaration(n, sp, val) => {
            law_type_expr_keeps(v1, *val);
            assert(clear_type(r.1) =~= clear_type(e));
        },
        ExprDataView::Block(es, last, sp) => {
            law_type_exprs_keeps(v1, es);
            let (v2, es2, c1) = type_exprs(v1, es);
            match last {
                None => {
                    assert(clear_type(r.1) =~= clear_type(e));
                },
                Some(l) => {
                    law_type_expr_keeps(v2, *l);
                    assert(clear_type(r.1) =~= clear_type(e));
                },
            }
        },
        _ => {
            assert(clear_type(r.1) =~= clear_type(e));
        },
    }
}

proof fn law_type_exprs_keeps(v: Seq<ScopeView<Option<TypeView>>>, es: Seq<ExprView>)
    ensures
        clear_types(type_exprs(v, es).1) == clear_types(es),
        types_kept_list(es, type_exprs(v, es).1),
    decreases es, 0int,
{
    if es.len() > 0 {
        law_type_exprs_keeps(v, es.drop_last());
        let (v1, done, c) = type_exprs(v, es.drop_last());
        law_type_expr_keeps(v1, es.last());
        let (v2, e, c2) = type_expr(v1, es.last());
        assert(done.push(e).drop_last() == done);
        assert(done.push(e).last() == e);
        assert(clear_types(done.push(e)) == clear_types(done).push(clear_type(e)));
    }
}

/// `b` is `a` after passes: the same groups, names and functions, nothing
/// changed but types, and every type of `a` kept.
pub open spec fn groups_kept(a: Seq<(Seq<char>, Seq<FunctionView>)>, b: Seq<(Seq<char>, Seq<FunctionView>)>) -> bool {
    &&& clear_groups(b) == clear_groups(a)
    &&& forall|i: int, k: int|
        0 <= i < a.len() && 0 <= k < a[i].1.len() ==> types_kept(#[trigger] a[i].1[k].body, b[i].1[k].body)
}

proof fn lemma_groups_kept_refl(a: Seq<(Seq<char>, Seq<FunctionView>)>)
    ensures
        groups_kept(a, a),
{
    assert forall|i: int, k: int| 0 <= i < a.len() && 0 <= k < a[i].1.len() implies types_kept(
        #[trigger] a[i].1[k].body,
        a[i].1[k].body,
    ) by {
        lemma_types_kept_refl(a[i].1[k].body);
    }
}

proof fn lemma_clear_groups_shape(a: Seq<(Seq<char>, Seq<FunctionView>)>, b: Seq<(Seq<char>, Seq<FunctionView>)>)
    requires
        clear_groups(b) == clear_groups(a),
    ensures
        b.len() == a.len(),
        forall|i: int| 0 <= i < a.len() ==> (#[trigger] b[i]).1.len() == a[i].1.len() && b[i].0 == a[i].0,
        forall|i: int, k: int|
            0 <= i < a.len() && 0 <= k < a[i].1.len() ==> clear_function(#[trigger] b[i].1[k]) == clear_function(a[i].1[k]),
{
    assert(clear_groups(b).len() == b.len());
    assert(clear_groups(a).len() == a.len());
    assert(b.len() == a.len());
    assert forall|i: int| 0 <= i < a.len() implies (#[trigger] b[i]).1.len() == a[i].1.len() && b[i].0 == a[i].0 by {
        assert(clear_groups(b)[i] == clear_groups(a)[i]);
        assert(clear_groups(b)[i] == (b[i].0, b[i].1.map_values(|f: FunctionView| clear_function(f))));
        assert(clear_groups(a)[i] == (a[i].0, a[i].1.map_values(|f: FunctionView| clear_function(f))));
        assert(b[i].1.map_values(|f: FunctionView| clear_function(f)).len() == b[i].1.len());
        assert(a[i].1.map_values(|f: FunctionView| clear_function(f)).len() == a[i].1.len());
    }
    assert forall|i: int, k: int| 0 <= i < a.len() && 0 <= k < a[i].1.len() implies clear_function(
        #[trigger] b[i].1[k],
    ) == clear_function(a[i].1[k]) by {
        assert(clear_groups(b)[i] == clear_groups(a)[i]);
        assert(clear_groups(b)[i] == (b[i].0, b[i].1.map_values(|f: FunctionView| clear_function(f))));
        assert(clear_groups(a)[i] == (a[i].0, a[i].1.map_values(|f: FunctionView| clear_function(f))));
        assert(b[i].1.map_values(|f: FunctionView| clear_function(f))[k] == clear_function(b[i].1[k]));
        assert(a[i].1.map_values(|f: FunctionView| clear_function(f))[k] == clear_function(a[i].1[k]));
    }
}

proof fn lemma_groups_kept_trans(
    a: Seq<(Seq<char>, Seq<FunctionView>)>,
    b: Seq<(Seq<char>, Seq<FunctionView>)>,
    c: Seq<(Seq<char>, Seq<FunctionView>)>,
)
    requires
        groups_kept(a, b),
        groups_kept(b, c),
    ensures
        groups_kept(a, c),
{
    lemma_clear_groups_shape(a, b);
    assert forall|i: int, k: int| 0 <= i < a.len() && 0 <= k < a[i].1.len() implies types_kept(
        #[trigger] a[i].1[k].body,
        c[i].1[k].body,
    ) by {
        assert(types_kept(b[i].1[k].body, c[i].1[k].body));
        lemma_types_kept_trans(a[i].1[k].body, b[i].1[k].body, c[i].1[k].body);
    }
}

proof fn lemma_type_function_keeps(v: Seq<ScopeView<Option<TypeView>>>, f: FunctionView)
    ensures
        clear_function(type_function(v, f).1) == clear_function(f),
        types_kept(f.body, type_function(v, f).1.body),
{
    match f.sidecar {
        Some(s) => if s < v.len() {
            let (v1, c1) = type_args(v, s, f.args);
            law_type_expr_keeps(v1, f.body);
        } else {
            lemma_types_kept_refl(f.body);
        },
        None => lemma_types_kept_refl(f.body),
    }
}

proof fn lemma_type_functions_keeps(v: Seq<ScopeView<Option<TypeView>>>, fs: Seq<FunctionView>)
    ensures
        type_functions(v, fs).1.len() == fs.len(),
        forall|k: int| 0 <= k < fs.len() ==> clear_function(#[trigger] type_functions(v, fs).1[k]) == clear_function(fs[k]),
        forall|k: int| 0 <= k < fs.len() ==> types_kept(fs[k].body, (#[trigger] type_functions(v, fs).1[k]).body),
    decreases fs.len(),
{
    if fs.len() > 0 {
        lemma_type_functions_keeps(v, fs.drop_last());
        let (v1, done, c) = type_functions(v, fs.drop_last());
        lemma_type_function_keeps(v1, fs.last());
        let (v2, f, c2) = type_function(v1, fs.last());
        assert forall|k: int| 0 <= k < fs.len() implies clear_function(#[trigger] done.push(f)[k]) == clear_function(fs[k])
            && types_kept(fs[k].body, done.push(f)[k].body) by {
            if k < fs.len() - 1 {
                assert(fs.drop_last()[k] == fs[k]);
            }
        }
    }
}

/// A pass over a file changes nothing but types, and keeps every type that
/// was already known.
pub proof fn law_type_groups_keeps(v: Seq<ScopeView<Option<TypeView>>>, gs: Seq<(Seq<char>, Seq<FunctionView>)>)
    ensures
        groups_kept(gs, type_groups(v, gs).1),
    decreases gs.len(),
{
    let r = type_groups(v, gs).1;
    if gs.len() == 0 {
        assert(clear_groups(r) =~= clear_groups(gs));
    } else {
        law_type_groups_keeps(v, gs.drop_last());
        let (v1, done, c) = type_groups(v, gs.drop_last());
        lemma_type_functions_keeps(v1, gs.last().1);
        let (v2, fs, c2) = type_functions(v1, gs.last().1);
        lemma_clear_groups_shape(gs.drop_last(), done);
        assert(r == done.push((gs.last().0, fs)));
        assert forall|i: int| 0 <= i < gs.len() implies #[trigger] clear_groups(r)[i] == clear_groups(gs)[i] by {
            if i < gs.len() - 1 {
                assert(gs.drop_last()[i] == gs[i]);
                assert(clear_groups(done)[i] == clear_groups(gs.drop_last())[i]);
                assert(clear_groups(r)[i] == clear_groups(done)[i]);
            } else {
                assert(r[i].1.map_values(|f: FunctionView| clear_function(f)) =~= gs[i].1.map_values(
                    |f: FunctionView| clear_function(f),
                ));
            }
        }
        assert(clear_groups(r) =~= clear_groups(gs));
        assert forall|i: int, k: int| 0 <= i < gs.len() && 0 <= k < gs[i].1.len() implies types_kept(
            #[trigger] gs[i].1[k].body,
            r[i].1[k].body,
        ) by {
            if i < gs.len() - 1 {
                assert(gs.drop_last()[i] == gs[i]);
            }
        }
    }
}

/// Inference over a file, however many passes it takes, changes nothing but
/// types and keeps every type that was already known.
pub proof fn law_type_fix_keeps(v: Seq<ScopeView<Option<TypeView>>>, gs: Seq<(Seq<char>, Seq<FunctionView>)>, fuel: nat)
    ensures
        groups_kept(gs, type_fix(v, gs, fuel).1),
    decreases fuel,
{
    if fuel == 0 {
        lemma_groups_kept_refl(gs);
    } else {
        law_type_groups_keeps(v, gs);
        let (v1, gs1, c) = type_groups(v, gs);
        if c {
            law_type_fix_keeps(v1, gs1, (fuel - 1) as nat);
            lemma_groups_kept_trans(gs, gs1, type_fix(v1, gs1, (fuel - 1) as nat).1);
        }
    }
}

proof fn lemma_clear_type_idem(e: ExprView)
    ensures
        clear_type(clear_type(e)) == clear_type(e),
    decreases e, 1int,
{
    match e.data {
        ExprDataView::InfixOp(l, _, _, r) => {
            lemma_clear_type_idem(*l);
            lemma_clear_type_idem(*r);
        },
        ExprDataView::Declaration(_, _, v) => lemma_clear_type_idem(*v),
        ExprDataView::Block(es, last, _) => {
            lemma_clear_types_idem(es);
            if let Some(l) = last {
                lemma_clear_type_idem(*l);
            }
        },
        _ => {},
    }
}

proof fn lemma_clear_types_idem(es: Seq<ExprView>)
    ensures
        clear_types(clear_types(es)) == clear_types(es),
    decreases es, 0int,
{
    if es.len() > 0 {
        lemma_clear_types_idem(es.drop_last());
        lemma_clear_type_idem(es.last());
        let c = clear_types(es);
        assert(c.drop_last() == clear_types(es.drop_last()));
        assert(c.last() == clear_type(es.last()));
    }
}

proof fn lemma_clear_groups_idem(gs: Seq<(Seq<char>, Seq<FunctionView>)>)
    ensures
        clear_groups(clear_groups(gs)) == clear_groups(gs),
{
    let c = clear_groups(gs);
    assert forall|i: int| 0 <= i < gs.len() implies #[trigger] clear_groups(c)[i] == c[i] by {
        assert forall|k: int| 0 <= k < gs[i].1.len() implies clear_function(#[trigger] c[i].1[k]) == c[i].1[k] by {
            lemma_clear_type_idem(gs[i].1[k].body);
        }
        assert(c[i].1.map_values(|f: FunctionView| clear_function(f)) =~= c[i].1);
    }
    assert(clear_groups(c) =~= c);
}

/// Typing a scoped file changes nothing but types: every function keeps its
/// name, arguments and scope, and every expression its shape, span and
/// scope.
pub proof fn law_inferred_keeps_shape(u: Seq<ScopeView<()>>, gs: Seq<(Seq<char>, Seq<FunctionView>)>)
    ensures
        clear_groups(inferred(u, gs).1) == clear_groups(gs),
{
    let gs0 = clear_groups(gs);
    law_type_fix_keeps(preset_types(untyped_view(u)), gs0, pass_budget(gs0) as nat);
    lemma_clear_groups_idem(gs);
}

// ---------------------------------------------------------------------------
// Inference settles within its budget.
// ---------------------------------------------------------------------------

/// `b` is `a` with perhaps more names typed: the same scopes, parents and
/// names, and every name with a type in `a` still has one in `b`.
pub open spec fn names_grown(a: Seq<ScopeView<Option<TypeView>>>, b: Seq<ScopeView<Option<TypeView>>>) -> bool {
    &&& b.len() == a.len()
    &&& forall|i: int|
        0 <= i < a.len() ==> {
            &&& (#[trigger] b[i]).parent == a[i].parent
            &&& b[i].items.dom() == a[i].items.dom()
            &&& forall|k: Seq<char>|
                a[i].items.contains_key(k) && a[i].items[k] is Some ==> (#[trigger] b[i].items[k]) is Some
        }
}

/// `name`, looked up from scope `s`, has a type.
pub open spec fn name_typed(v: Seq<ScopeView<Option<TypeView>>>, s: nat, name: Seq<char>) -> bool {
    lookup_view(v, s, name) matches Some(Some(_))
}

proof fn lemma_grown_refl(a: Seq<ScopeView<Option<TypeView>>>)
    ensures
        names_grown(a, a),
{
}

proof fn lemma_grown_trans(
    a: Seq<ScopeView<Option<TypeView>>>,
    b: Seq<ScopeView<Option<TypeView>>>,
    c: Seq<ScopeView<Option<TypeView>>>,
)
    requires
        names_grown(a, b),
        names_grown(b, c),
    ensures
        names_grown(a, c),
{
    assert forall|i: int| 0 <= i < a.len() implies {
        &&& (#[trigger] c[i]).parent == a[i].parent
        &&& c[i].items.dom() == a[i].items.dom()
        &&& forall|k: Seq<char>|
            a[i].items.contains_key(k) && a[i].items[k] is Some ==> (#[trigger] c[i].items[k]) is Some
    } by {
        assert(b[i].parent == a[i].parent);
        assert(c[i].parent == b[i].parent);
        assert forall|k: Seq<char>| a[i].items.contains_key(k) && a[i].items[k] is Some implies (#[trigger] c[i].items[k]) is Some by {
            assert(b[i].items[k] is Some);
            assert(b[i].items.contains_key(k));
        }
    }
}

proof fn lemma_grown_lookup(a: Seq<ScopeView<Option<TypeView>>>, b: Seq<ScopeView<Option<TypeView>>>, s: nat, k: Seq<char>)
    requires
        names_grown(a, b),
    ensures
        defining_scope(b, s, k) == defining_scope(a, s, k),
        name_typed(a, s, k) ==> name_typed(b, s, k),
    decreases s,
{
    lemma_defining_scope(a, s, k);
    lemma_defining_scope(b, s, k);
    if s < a.len() {
        assert(b[s as int].items.dom() == a[s as int].items.dom());
        assert(b[s as int].parent == a[s as int].parent);
        if !a[s as int].items.contains_key(k) {
            assert(!b[s as int].items.contains_key(k));
            if let Some(p) = a[s as int].parent {
                if p < s {
                    lemma_grown_lookup(a, b, p, k);
                }
            }
        } else {
            assert(b[s as int].items.contains_key(k));
            if a[s as int].items[k] is Some {
                assert(b[s as int].items[k] is Some);
            }
        }
    }
}

proof fn lemma_set_declared_grows(v: Seq<ScopeView<Option<TypeView>>>, s: nat, n: Seq<char>, t: TypeView)
    ensures
        names_grown(v, set_declared(v, s, n, t)),
        defining_scope(v, s, n) is Some ==> name_typed(set_declared(v, s, n, t), s, n),
{
    lemma_defining_scope(v, s, n);
    let w = set_declared(v, s, n, t);
    match defining_scope(v, s, n) {
        Some(d) => {
            let x = Some(TypeView::Pointer(StorageClass::Function, Box::new(t)));
            assert(w == insert_item(v, d, n, x));
            assert forall|i: int| 0 <= i < v.len() implies {
                &&& (#[trigger] w[i]).parent == v[i].parent
                &&& w[i].items.dom() == v[i].items.dom()
                &&& forall|k: Seq<char>|
                    v[i].items.contains_key(k) && v[i].items[k] is Some ==> (#[trigger] w[i].items[k]) is Some
            } by {
                if i == d {
                    assert(w[i].items.dom() =~= v[i].items.dom());
                }
            }
            lemma_grown_lookup(v, w, s, n);
            lemma_defining_scope(w, s, n);
        },
        None => {},
    }
}

proof fn lemma_declare_value_grows(v: Seq<ScopeView<Option<TypeView>>>, e: ExprView)
    ensures
        names_grown(v, declare_value(v, e)),
{
    match e.data {
        ExprDataView::Declaration(n, _, val) => match val.sidecar.ty {
            Some(t) => lemma_set_declared_grows(v, scope_of(e), n, t),
            None => {},
        },
        _ => {},
    }
}

/// The number of expressions of `e` that have a type.
pub open spec fn typed_count(e: ExprView) -> nat
    decreases e, 1int,
{
    (if e.sidecar.ty is Some {
        1nat
    } else {
        0nat
    }) + match e.data {
        ExprDataView::InfixOp(l, _, _, r) => typed_count(*l) + typed_count(*r),
        ExprDataView::Declaration(_, _, v) => typed_count(*v),
        ExprDataView::Block(es, last, _) => typed_counts(es) + match last {
            Some(l) => typed_count(*l),
            None => 0,
        },
        _ => 0,
    }
}

pub open spec fn typed_counts(es: Seq<ExprView>) -> nat
    decreases es, 0int,
{
    if es.len() == 0 {
        0
    } else {
        proof {
            assert(decreases_to!(es => es.drop_last()));
            assert(decreases_to!(es => es[es.len() - 1]));
        }
        typed_counts(es.drop_last()) + typed_count(es.last())
    }
}

proof fn lemma_typed_count_bound(e: ExprView)
    ensures
        typed_count(e) <= expr_size(e),
    decreases e, 1int,
{
    match e.data {
        ExprDataView::InfixOp(l, _, _, r) => {
            lemma_typed_count_bound(*l);
            lemma_typed_count_bound(*r);
        },
        ExprDataView::Declaration(_, _, v) => lemma_typed_count_bound(*v),
        ExprDataView::Block(es, last, _) => {
            lemma_typed_counts_bound(es);
            if let Some(l) = last {
                lemma_typed_count_bound(*l);
            }
        },
        _ => {},
    }
}

proof fn lemma_typed_counts_bound(es: Seq<ExprView>)
    ensures
        typed_counts(es) <= exprs_size(es),
    decreases es, 0int,
{
    if es.len() > 0 {
        lemma_typed_counts_bound(es.drop_last());
        lemma_typed_count_bound(es.last());
    }
}

/// 1 when `c` holds, else 0.
pub open spec fn one_if(c: bool) -> nat {
    if c {
        1
    } else {
        0
    }
}

proof fn lemma_type_expr_grows(v: Seq<ScopeView<Option<TypeView>>>, e: ExprView)
    ensures
        names_grown(v, type_expr(v, e).0),
        typed_count(type_expr(v, e).1) >= typed_count(e) + one_if(type_expr(v, e).2),
        expr_size(type_expr(v, e).1) == expr_size(e),
    decreases e, 2int,
{
    if !(e.sidecar.scope matches Some(s) && s < v.len()) {
        lemma_grown_refl(v);
    } else {
        lemma_type_expr_scoped_grows(v, e);
    }
}

proof fn lemma_type_expr_scoped_grows(v: Seq<ScopeView<Option<TypeView>>>, e: ExprView)
    ensures
        names_grown(v, type_expr_scoped(v, e).0),
        typed_count(type_expr_scoped(v, e).1) >= typed_count(e) + one_if(type_expr_scoped(v, e).2),
        expr_size(type_expr_scoped(v, e).1) == expr_size(e),
    decreases e, 1int,
{
    lemma_declare_value_grows(v, e);
    let v1 = declare_value(v, e);
    let (ty, c) = own_type(v1, e);
    assert((if ty is Some { 1nat } else { 0nat }) >= (if e.sidecar.ty is Some { 1nat } else { 0nat }) + one_if(c));
    match e.data {
        ExprDataView::InfixOp(l, op, sp, r) => {
            lemma_type_expr_grows(v1, *l);
            let (v2, l2, c1) = type_expr(v1, *l);
            lemma_type_expr_grows(v2, *r);
            let (v3, r2, c2) = type_expr(v2, *r);
            lemma_grown_trans(v, v1, v2);
            lemma_grown_trans(v, v2, v3);
        },
        ExprDataView::Declaration(n, sp, val) => {
            lemma_type_expr_grows(v1, *val);
            let (v2, val2, c1) = type_expr(v1, *val);
            lemma_grown_trans(v, v1, v2);
        },
        ExprDataView::Block(es, last, sp) => {
            lemma_type_exprs_grows(v1, es);
            let (v2, es2, c1) = type_exprs(v1, es);
            lemma_grown_trans(v, v1, v2);
            match last {
                None => {},
                Some(l) => {
                    lemma_type_expr_grows(v2, *l);
                    let (v3, l2, c2) = type_expr(v2, *l);
                    lemma_grown_trans(v, v2, v3);
                },
            }
        },
        _ => {},
    }
}

proof fn lemma_type_exprs_grows(v: Seq<ScopeView<Option<TypeView>>>, es: Seq<ExprView>)
    ensures
        names_grown(v, type_exprs(v, es).0),
        typed_counts(type_exprs(v, es).1) >= typed_counts(es) + one_if(type_exprs(v, es).2),
        exprs_size(type_exprs(v, es).1) == exprs_size(es),
    decreases es, 0int,
{
    if es.len() == 0 {
        lemma_grown_refl(v);
    } else {
        lemma_type_exprs_grows(v, es.drop_last());
        let (v1, done, c) = type_exprs(v, es.drop_last());
        lemma_type_expr_grows(v1, es.last());
        let (v2, e, c2) = type_expr(v1, es.last());
        lemma_grown_trans(v, v1, v2);
        assert(done.push(e).drop_last() == done);
        assert(done.push(e).last() == e);
    }
}

/// The number of `args`, looked up from scope `s`, that have a type.
pub open spec fn typed_args(v: Seq<ScopeView<Option<TypeView>>>, s: nat, args: Seq<ArgView>) -> nat
    decreases args.len(),
{
    if args.len() == 0 {
        0
    } else {
        typed_args(v, s, args.drop_last()) + one_if(name_typed(v, s, args.last().name))
    }
}

proof fn lemma_typed_args_mono(
    a: Seq<ScopeView<Option<TypeView>>>,
    b: Seq<ScopeView<Option<TypeView>>>,
    s: nat,
    args: Seq<ArgView>,
)
    requires
        names_grown(a, b),
    ensures
        typed_args(a, s, args) <= typed_args(b, s, args),
        typed_args(a, s, args) <= args.len(),
        typed_args(b, s, args) <= args.len(),
    decreases args.len(),
{
    if args.len() > 0 {
        lemma_typed_args_mono(a, b, s, args.drop_last());
        lemma_grown_lookup(a, b, s, args.last().name);
    }
}

proof fn lemma_type_args_grows(v: Seq<ScopeView<Option<TypeView>>>, s: nat, args: Seq<ArgView>)
    ensures
        names_grown(v, type_args(v, s, args).0),
        typed_args(type_args(v, s, args).0, s, args) >= typed_args(v, s, args) + one_if(type_args(v, s, args).1),
    decreases args.len(),
{
    if args.len() == 0 {
        lemma_grown_refl(v);
    } else {
        lemma_type_args_grows(v, s, args.drop_last());
        let (v1, c) = type_args(v, s, args.drop_last());
        let a = args.last();
        lemma_grown_lookup(v, v1, s, a.name);
        if lookup_view(v1, s, a.name) == Some(None::<TypeView>) {
            lemma_defining_scope(v1, s, a.name);
            lemma_set_declared_grows(v1, s, a.name, a.ty);
            let v2 = set_declared(v1, s, a.name, a.ty);
            lemma_grown_trans(v, v1, v2);
            lemma_typed_args_mono(v1, v2, s, args.drop_last());
        } else {
            lemma_typed_args_mono(v, v1, s, args.drop_last());
        }
    }
}

/// The typed expressions and arguments of `f`.
pub open spec fn function_typed(v: Seq<ScopeView<Option<TypeView>>>, f: FunctionView) -> nat {
    typed_count(f.body) + match f.sidecar {
        Some(s) => typed_args(v, s, f.args),
        None => 0,
    }
}

pub open spec fn functions_typed(v: Seq<ScopeView<Option<TypeView>>>, fs: Seq<FunctionView>) -> nat
    decreases fs.len(),
{
    if fs.len() == 0 {
        0
    } else {
        functions_typed(v, fs.drop_last()) + function_typed(v, fs.last())
    }
}

/// The number of expressions and arguments of `gs` that have a type.
pub open spec fn groups_typed(v: Seq<ScopeView<Option<TypeView>>>, gs: Seq<(Seq<char>, Seq<FunctionView>)>) -> nat
    decreases gs.len(),
{
    if gs.len() == 0 {
        0
    } else {
        groups_typed(v, gs.drop_last()) + functions_typed(v, gs.last().1)
    }
}

proof fn lemma_functions_typed_mono(
    a: Seq<ScopeView<Option<TypeView>>>,
    b: Seq<ScopeView<Option<TypeView>>>,
    fs: Seq<FunctionView>,
)
    requires
        names_grown(a, b),
    ensures
        functions_typed(a, fs) <= functions_typed(b, fs),
        functions_typed(b, fs) <= functions_size(fs),
    decreases fs.len(),
{
    if fs.len() > 0 {
        lemma_functions_typed_mono(a, b, fs.drop_last());
        let f = fs.last();
        lemma_typed_count_bound(f.body);
        if let Some(s) = f.sidecar {
            lemma_typed_args_mono(a, b, s, f.args);
        }
    }
}

proof fn lemma_groups_typed_mono(
    a: Seq<ScopeView<Option<TypeView>>>,
    b: Seq<ScopeView<Option<TypeView>>>,
    gs: Seq<(Seq<char>, Seq<FunctionView>)>,
)
    requires
        names_grown(a, b),
    ensures
        groups_typed(a, gs) <= groups_typed(b, gs),
        groups_typed(b, gs) <= file_size(gs),
    decreases gs.len(),
{
    if gs.len() > 0 {
        lemma_groups_typed_mono(a, b, gs.drop_last());
        lemma_functions_typed_mono(a, b, gs.last().1);
    }
}

proof fn lemma_type_function_grows(v: Seq<ScopeView<Option<TypeView>>>, f: FunctionView)
    ensures
        names_grown(v, type_function(v, f).0),
        function_typed(type_function(v, f).0, type_function(v, f).1) >= function_typed(v, f) + one_if(
            type_function(v, f).2,
        ),
        type_function(v, f).1.args == f.args,
        expr_size(type_function(v, f).1.body) == expr_size(f.body),
{
    match f.sidecar {
        Some(s) => if s < v.len() {
            lemma_type_args_grows(v, s, f.args);
            let (v1, c1) = type_args(v, s, f.args);
            lemma_type_expr_grows(v1, f.body);
            let (v2, body, c2) = type_expr(v1, f.body);
            lemma_grown_trans(v, v1, v2);
            lemma_typed_args_mono(v1, v2, s, f.args);
        } else {
            lemma_grown_refl(v);
        },
        None => lemma_grown_refl(v),
    }
}

proof fn lemma_type_functions_grows(v: Seq<ScopeView<Option<TypeView>>>, fs: Seq<FunctionView>)
    ensures
        names_grown(v, type_functions(v, fs).0),
        functions_typed(type_functions(v, fs).0, type_functions(v, fs).1) >= functions_typed(v, fs) + one_if(
            type_functions(v, fs).2,
        ),
        functions_size(type_functions(v, fs).1) == functions_size(fs),
    decreases fs.len(),
{
    if fs.len() == 0 {
        lemma_grown_refl(v);
    } else {
        lemma_type_functions_grows(v, fs.drop_last());
        let (v1, done, c) = type_functions(v, fs.drop_last());
        lemma_type_function_grows(v1, fs.last());
        let (v2, f, c2) = type_function(v1, fs.last());
        lemma_grown_trans(v, v1, v2);
        lemma_functions_typed_mono(v1, v2, done);
        if let Some(s) = fs.last().sidecar {
            lemma_typed_args_mono(v, v1, s, fs.last().args);
        }
        assert(done.push(f).drop_last() == done);
        assert(done.push(f).last() == f);
    }
}

proof fn lemma_type_groups_grows(v: Seq<ScopeView<Option<TypeView>>>, gs: Seq<(Seq<char>, Seq<FunctionView>)>)
    ensures
        names_grown(v, type_groups(v, gs).0),
        groups_typed(type_groups(v, gs).0, type_groups(v, gs).1) >= groups_typed(v, gs) + one_if(type_groups(v, gs).2),
        file_size(type_groups(v, gs).1) == file_size(gs),
    decreases gs.len(),
{
    if gs.len() == 0 {
        lemma_grown_refl(v);
    } else {
        lemma_type_groups_grows(v, gs.drop_last());
        let (v1, done, c) = type_groups(v, gs.drop_last());
        lemma_type_functions_grows(v1, gs.last().1);
        let (v2, fs, c2) = type_functions(v1, gs.last().1);
        lemma_grown_trans(v, v1, v2);
        lemma_groups_typed_mono(v1, v2, done);
        lemma_functions_typed_mono(v, v1, gs.last().1);
        let g = (gs.last().0, fs);
        assert(done.push(g).drop_last() == done);
        assert(done.push(g).last() == g);
    }
}

/// Passes from `v` and `gs`, at most `fuel` of them, end with a pass that
/// infers nothing.
pub open spec fn settles(v: Seq<ScopeView<Option<TypeView>>>, gs: Seq<(Seq<char>, Seq<FunctionView>)>, fuel: nat) -> bool
    decreases fuel,
{
    fuel > 0 && (type_groups(v, gs).2 ==> settles(type_groups(v, gs).0, type_groups(v, gs).1, (fuel - 1) as nat))
}

proof fn lemma_fix_settles(v: Seq<ScopeView<Option<TypeView>>>, gs: Seq<(Seq<char>, Seq<FunctionView>)>, fuel: nat)
    requires
        groups_typed(v, gs) + fuel > file_size(gs),
    ensures
        settles(v, gs, fuel),
    decreases fuel,
{
    lemma_grown_refl(v);
    lemma_groups_typed_mono(v, v, gs);
    lemma_type_groups_grows(v, gs);
    let (v1, gs1, c) = type_groups(v, gs);
    if c {
        lemma_fix_settles(v1, gs1, (fuel - 1) as nat);
    }
}

proof fn lemma_settled_fix_stable(
    v: Seq<ScopeView<Option<TypeView>>>,
    gs: Seq<(Seq<char>, Seq<FunctionView>)>,
    f1: nat,
    f2: nat,
)
    requires
        settles(v, gs, f1),
        f1 <= f2,
    ensures
        type_fix(v, gs, f2) == type_fix(v, gs, f1),
    decreases f1,
{
    let (v1, gs1, c) = type_groups(v, gs);
    if c {
        lemma_settled_fix_stable(v1, gs1, (f1 - 1) as nat, (f2 - 1) as nat);
    }
}

proof fn lemma_clear_type_size(e: ExprView)
    ensures
        expr_size(clear_type(e)) == expr_size(e),
    decreases e, 1int,
{
    match e.data {
        ExprDataView::InfixOp(l, _, _, r) => {
            lemma_clear_type_size(*l);
            lemma_clear_type_size(*r);
        },
        ExprDataView::Declaration(_, _, v) => lemma_clear_type_size(*v),
        ExprDataView::Block(es, last, _) => {
            lemma_clear_types_size(es);
            if let Some(l) = last {
                lemma_clear_type_size(*l);
            }
        },
        _ => {},
    }
}

proof fn lemma_clear_types_size(es: Seq<ExprView>)
    ensures
        exprs_size(clear_types(es)) == exprs_size(es),
    decreases es, 0int,
{
    if es.len() > 0 {
        lemma_clear_types_size(es.drop_last());
        lemma_clear_type_size(es.last());
        let c = clear_types(es);
        assert(c.drop_last() == clear_types(es.drop_last()));
        assert(c.last() == clear_type(es.last()));
    }
}

proof fn lemma_clear_functions_size(fs: Seq<FunctionView>)
    ensures
        functions_size(fs.map_values(|f: FunctionView| clear_function(f))) == functions_size(fs),
    decreases fs.len(),
{
    if fs.len() > 0 {
        lemma_clear_functions_size(fs.drop_last());
        lemma_clear_type_size(fs.last().body);
        let c = fs.map_values(|f: FunctionView| clear_function(f));
        assert(c.drop_last() =~= fs.drop_last().map_values(|f: FunctionView| clear_function(f)));
        assert(c.last() == clear_function(fs.last()));
    }
}

proof fn lemma_clear_groups_size(gs: Seq<(Seq<char>, Seq<FunctionView>)>)
    ensures
        file_size(clear_groups(gs)) == file_size(gs),
    decreases gs.len(),
{
    if gs.len() > 0 {
        lemma_clear_groups_size(gs.drop_last());
        lemma_clear_functions_size(gs.last().1);
        let c = clear_groups(gs);
        assert(c.drop_last() =~= clear_groups(gs.drop_last()));
        assert(c.last() == (gs.last().0, gs.last().1.map_values(|f: FunctionView| clear_function(f))));
    }
}

/// Inference ends as the passes of the typing pass do, with a pass that
/// infers nothing, and within its budget: every pass that infers something
/// types at least one more expression or argument, and a file has no more of
/// them than its size.  So what inference gives is what passes repeated until
/// one infers nothing give, however many passes one would allow.  (A file
/// holds fewer than `u64::MAX` expressions and arguments.)
pub proof fn law_inference_settles(u: Seq<ScopeView<()>>, gs: Seq<(Seq<char>, Seq<FunctionView>)>)
    requires
        file_size(gs) < u64::MAX,
    ensures
        settles(preset_types(untyped_view(u)), clear_groups(gs), pass_budget(clear_groups(gs)) as nat),
        forall|fuel: nat|
            fuel >= pass_budget(clear_groups(gs)) ==> #[trigger] type_fix(
                preset_types(untyped_view(u)),
                clear_groups(gs),
                fuel,
            ) == inferred(u, gs),
{
    let v0 = preset_types(untyped_view(u));
    let gs0 = clear_groups(gs);
    lemma_clear_groups_size(gs);
    let budget = pass_budget(gs0) as nat;
    assert(budget == file_size(gs0) + 1);
    lemma_fix_settles(v0, gs0, budget);
    assert forall|fuel: nat| fuel >= pass_budget(gs0) implies #[trigger] type_fix(v0, gs0, fuel) == inferred(u, gs) by {
        lemma_settled_fix_stable(v0, gs0, budget, fuel);
    }
}

/// Every expression of `e` has a type.
pub open spec fn all_typed(e: ExprView) -> bool
    decreases e, 1int,
{
    e.sidecar.ty is Some && match e.data {
        ExprDataView::InfixOp(l, _, _, r) => all_typed(*l) && all_typed(*r),
        ExprDataView::Declaration(_, _, v) => all_typed(*v),
        ExprDataView::Block(es, last, _) => all_typed_list(es) && match last {
            Some(l) => all_typed(*l),
            None => true,
        },
        _ => true,
    }
}

/// Every expression of each of `es` has a type.
pub open spec fn all_typed_list(es: Seq<ExprView>) -> bool
    decreases es, 0int,
{
    if es.len() == 0 {
        true
    } else {
        proof {
            assert(decreases_to!(es => es.drop_last()));
            assert(decreases_to!(es => es[es.len() - 1]));
        }
        all_typed_list(es.drop_last()) && all_typed(es.last())
    }
}

proof fn lemma_no_untyped_expr(e: ExprView)
    ensures
        untyped_spans(e).len() == 0 <==> all_typed(e),
    decreases e, 1int,
{
    match e.data {
        ExprDataView::InfixOp(l, _, _, r) => {
            lemma_no_untyped_expr(*l);
            lemma_no_untyped_expr(*r);
        },
        ExprDataView::Declaration(_, _, v) => lemma_no_untyped_expr(*v),
        ExprDataView::Block(es, last, _) => {
            lemma_no_untyped_list(es);
            if let Some(l) = last {
                lemma_no_untyped_expr(*l);
            }
        },
        _ => {},
    }
}

proof fn lemma_no_untyped_list(es: Seq<ExprView>)
    ensures
        untyped_spans_all(es).len() == 0 <==> all_typed_list(es),
    decreases es, 0int,
{
    if es.len() > 0 {
        lemma_no_untyped_list(es.drop_last());
        lemma_no_untyped_expr(es.last());
    }
}

proof fn lemma_no_untyped_functions(fs: Seq<FunctionView>)
    ensures
        untyped_spans_functions(fs).len() == 0 <==> forall|k: int| 0 <= k < fs.len() ==> all_typed(#[trigger] fs[k].body),
    decreases fs.len(),
{
    if fs.len() > 0 {
        lemma_no_untyped_functions(fs.drop_last());
        lemma_no_untyped_expr(fs.last().body);
        if untyped_spans_functions(fs).len() == 0 {
            assert forall|k: int| 0 <= k < fs.len() implies all_typed(#[trigger] fs[k].body) by {
                if k < fs.len() - 1 {
                    assert(fs.drop_last()[k] == fs[k]);
                }
            }
        } else if forall|k: int| 0 <= k < fs.len() ==> all_typed(#[trigger] fs[k].body) {
            assert forall|k: int| 0 <= k < fs.drop_last().len() implies all_typed(#[trigger] fs.drop_last()[k].body) by {
                assert(fs.drop_last()[k] == fs[k]);
            }
            assert(all_typed(fs[fs.len() - 1].body));
        }
    }
}

/// A file has no expression without a type exactly when every expression of
/// every function has one: the condition on which typing succeeds.
pub proof fn law_no_untyped_spans_means_all_typed(gs: Seq<(Seq<char>, Seq<FunctionView>)>)
    ensures
        untyped_spans_file(gs).len() == 0 <==> forall|i: int, k: int|
            0 <= i < gs.len() && 0 <= k < gs[i].1.len() ==> all_typed(#[trigger] gs[i].1[k].body),
    decreases gs.len(),
{
    if gs.len() > 0 {
        let g0 = gs.drop_last();
        law_no_untyped_spans_means_all_typed(g0);
        lemma_no_untyped_functions(gs.last().1);
        if untyped_spans_file(gs).len() == 0 {
            assert forall|i: int, k: int| 0 <= i < gs.len() && 0 <= k < gs[i].1.len() implies all_typed(
                #[trigger] gs[i].1[k].body,
            ) by {
                if i < gs.len() - 1 {
                    assert(g0[i] == gs[i]);
                }
            }
        } else if forall|i: int, k: int| 0 <= i < gs.len() && 0 <= k < gs[i].1.len() ==> all_typed(
            #[trigger] gs[i].1[k].body,
        ) {
            assert forall|i: int, k: int| 0 <= i < g0.len() && 0 <= k < g0[i].1.len() implies all_typed(
                #[trigger] g0[i].1[k].body,
            ) by {
                assert(g0[i] == gs[i]);
            }
            assert forall|k: int| 0 <= k < gs.last().1.len() implies all_typed(#[trigger] gs.last().1[k].body) by {
                assert(gs.last() == gs[gs.len() - 1]);
            }
        }
    }
}

} // verus!
