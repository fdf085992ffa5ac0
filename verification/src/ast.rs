//! The syntax tree: expressions, functions and files.  Each expression and
//! function carries a sidecar, which the compiler's passes fill in (the scope
//! it is evaluated in, and its type).
use vstd::prelude::*;
use crate::lexer::{Span, Spanned, Digits, NumberValue, NumberValueView, number_value_view};
use crate::scope::ScopeId;
use crate::types::{Type, TypeView, Integer, Float};

verus! {

/// An integer literal: its type and its digits.
#[derive(Debug)]
pub struct LiteralInt {
    pub ty: Integer,
    pub value: Digits,
}

/// A floating-point literal: its type and its value as written.
#[derive(Debug)]
pub struct LiteralFloat {
    pub ty: Float,
    pub value: NumberValue,
}

#[derive(Clone, Copy, PartialEq, Eq, Structural, Debug, Hash)]
pub enum InfixOp {
    Add,
    Subtract,
    Multiply,
    Divide,
    DotProduct,
    CrossProduct,
    MatrixMultiply,
}

/// What the passes know of an expression: its scope and its type.
#[derive(Debug)]
pub struct ExprSidecar {
    pub scope: Option<ScopeId>,
    pub ty: Option<Type>,
}

impl ExprSidecar {
    /// The sidecar of a scoped expression: this one, when it has a scope.
    pub fn try_with_scope_definitely(self) -> (r: Option<ExprSidecar>)
        ensures
            r is Some <==> self.scope is Some,
            r matches Some(x) ==> x == self,
    {
        if self.scope.is_none() {
            None
        } else {
            Some(self)
        }
    }

    /// The sidecar of a typed expression: this one, when it has a type.
    pub fn try_with_type_definitely(self) -> (r: Option<ExprSidecar>)
        ensures
            r is Some <==> self.ty is Some,
            r matches Some(x) ==> x == self,
    {
        if self.ty.is_none() {
            None
        } else {
            Some(self)
        }
    }
}

#[derive(Debug)]
pub struct Expr {
    pub data: ExprData,
    pub sidecar: ExprSidecar,
}

#[derive(Debug)]
pub enum ExprData {
    LiteralInt(Spanned<LiteralInt>),
    LiteralFloat(Spanned<LiteralFloat>),
    LiteralBool(Spanned<bool>),
    InfixOp(Box<Expr>, Spanned<InfixOp>, Box<Expr>),
    Var(Spanned<String>),
    Declaration { name: Spanned<String>, value: Box<Expr> },
    Block(Spanned<Block>),
}

/// A block: expressions, and an optional final expression giving its value.
#[derive(Debug)]
pub struct Block {
    pub exprs: Vec<Expr>,
    pub last: Option<Box<Expr>>,
}

#[derive(Debug)]
pub struct FunctionArg {
    pub name: Spanned<String>,
    pub ty: Spanned<Type>,
}

#[derive(Debug)]
pub struct FunctionData {
    pub name: Spanned<String>,
    pub return_type: Spanned<Type>,
    pub args: Vec<FunctionArg>,
    pub body: Expr,
}

/// A function and its sidecar: the scope of its arguments.
#[derive(Debug)]
pub struct Function {
    pub data: FunctionData,
    pub sidecar: Option<ScopeId>,
}

/// A source file: its functions, grouped by name, in order of first
/// appearance; no name occurs twice.
#[derive(Debug)]
pub struct File {
    pub functions: Vec<(String, Vec<Function>)>,
}

// ---------------------------------------------------------------------------
// Views.
// ---------------------------------------------------------------------------

pub struct SidecarView {
    pub scope: Option<nat>,
    pub ty: Option<TypeView>,
}

pub enum ExprDataView {
    LiteralInt(Integer, nat, Seq<u32>, Span),
    LiteralFloat(Float, NumberValueView, Span),
    LiteralBool(bool, Span),
    InfixOp(Box<ExprView>, InfixOp, Span, Box<ExprView>),
    Var(Seq<char>, Span),
    Declaration(Seq<char>, Span, Box<ExprView>),
    Block(Seq<ExprView>, Option<Box<ExprView>>, Span),
}

pub struct ExprView {
    pub data: ExprDataView,
    pub sidecar: SidecarView,
}

pub struct ArgView {
    pub name: Seq<char>,
    pub name_span: Span,
    pub ty: TypeView,
    pub ty_span: Span,
}

pub struct FunctionView {
    pub name: Seq<char>,
    pub name_span: Span,
    pub return_type: TypeView,
    pub return_span: Span,
    pub args: Seq<ArgView>,
    pub body: ExprView,
    pub sidecar: Option<nat>,
}

/// The index of an optional scope.
pub open spec fn opt_idx(s: Option<ScopeId>) -> Option<nat> {
    match s {
        Some(id) => Some(id.idx()),
        None => None,
    }
}

pub open spec fn sidecar_view(s: ExprSidecar) -> SidecarView {
    SidecarView {
        scope: opt_idx(s.scope),
        ty: match s.ty {
            Some(t) => Some(t@),
            None => None,
        },
    }
}

pub open spec fn expr_view(e: Expr) -> ExprView
    decreases e,
{
    ExprView { data: expr_data_view(e.data), sidecar: sidecar_view(e.sidecar) }
}

pub open spec fn expr_data_view(d: ExprData) -> ExprDataView
    decreases d,
{
    match d {
        ExprData::LiteralInt(l) => ExprDataView::LiteralInt(
            l.inner.ty,
            l.inner.value.radix as nat,
            l.inner.value.digits@,
            l.span,
        ),
        ExprData::LiteralFloat(l) => ExprDataView::LiteralFloat(
            l.inner.ty,
            number_value_view(l.inner.value),
            l.span,
        ),
        ExprData::LiteralBool(b) => ExprDataView::LiteralBool(b.inner, b.span),
        ExprData::InfixOp(l, op, r) => ExprDataView::InfixOp(
            Box::new(expr_view(*l)),
            op.inner,
            op.span,
            Box::new(expr_view(*r)),
        ),
        ExprData::Var(v) => ExprDataView::Var(v.inner@, v.span),
        ExprData::Declaration { name, value } => ExprDataView::Declaration(
            name.inner@,
            name.span,
            Box::new(expr_view(*value)),
        ),
        ExprData::Block(b) => {
            proof {
                assert(decreases_to!(b.inner.exprs => b.inner.exprs@));
            }
            ExprDataView::Block(
                exprs_view(b.inner.exprs@),
                match b.inner.last {
                    Some(e) => Some(Box::new(expr_view(*e))),
                    None => None,
                },
                b.span,
            )
        },
    }
}

pub open spec fn exprs_view(s: Seq<Expr>) -> Seq<ExprView>
    decreases s,
{
    if s.len() == 0 {
        Seq::empty()
    } else {
        proof {
            assert(decreases_to!(s => s[0]));
            assert(decreases_to!(s => s.subrange(1, s.len() as int)));
        }
        seq![expr_view(s[0])] + exprs_view(s.subrange(1, s.len() as int))
    }
}

pub proof fn lemma_exprs_view(s: Seq<Expr>)
    ensures
        exprs_view(s).len() == s.len(),
        forall|i: int| 0 <= i < s.len() ==> #[trigger] exprs_view(s)[i] == expr_view(s[i]),
    decreases s.len(),
{
    if s.len() > 0 {
        lemma_exprs_view(s.subrange(1, s.len() as int));
        assert forall|i: int| 0 <= i < s.len() implies #[trigger] exprs_view(s)[i] == expr_view(s[i]) by {
            if i > 0 {
                assert(s.subrange(1, s.len() as int)[i - 1] == s[i]);
            }
        }
    }
}

pub proof fn lemma_exprs_view_push(s: Seq<Expr>, e: Expr)
    ensures
        exprs_view(s.push(e)) == exprs_view(s).push(expr_view(e)),
{
    lemma_exprs_view(s);
    lemma_exprs_view(s.push(e));
    assert(exprs_view(s.push(e)) =~= exprs_view(s).push(expr_view(e)));
}

pub open spec fn arg_view(a: FunctionArg) -> ArgView {
    ArgView { name: a.name.inner@, name_span: a.name.span, ty: a.ty.inner@, ty_span: a.ty.span }
}

pub open spec fn args_view(s: Seq<FunctionArg>) -> Seq<ArgView> {
    s.map_values(|a: FunctionArg| arg_view(a))
}

pub open spec fn function_view(f: Function) -> FunctionView {
    FunctionView {
        name: f.data.name.inner@,
        name_span: f.data.name.span,
        return_type: f.data.return_type.inner@,
        return_span: f.data.return_type.span,
        args: args_view(f.data.args@),
        body: expr_view(f.data.body),
        sidecar: opt_idx(f.sidecar),
    }
}

impl View for Expr {
    type V = ExprView;

    open spec fn view(&self) -> ExprView {
        expr_view(*self)
    }
}

impl View for Function {
    type V = FunctionView;

    open spec fn view(&self) -> FunctionView {
        function_view(*self)
    }
}

pub open spec fn functions_view(s: Seq<Function>) -> Seq<FunctionView> {
    s.map_values(|h: Function| h@)
}

pub open spec fn group_view(g: (String, Vec<Function>)) -> (Seq<char>, Seq<FunctionView>) {
    (g.0@, functions_view(g.1@))
}

/// The functions of a file, in order, as `(name, functions)` groups.
pub open spec fn file_view(f: File) -> Seq<(Seq<char>, Seq<FunctionView>)> {
    f.functions@.map_values(|g: (String, Vec<Function>)| group_view(g))
}

impl View for File {
    type V = Seq<(Seq<char>, Seq<FunctionView>)>;

    open spec fn view(&self) -> Seq<(Seq<char>, Seq<FunctionView>)> {
        file_view(*self)
    }
}

/// An empty sidecar, as the parser leaves it.
pub open spec fn empty_sidecar() -> SidecarView {
    SidecarView { scope: None, ty: None }
}

impl ExprSidecar {
    /// A sidecar with neither scope nor type.
    pub fn new() -> (r: ExprSidecar)
        ensures
            sidecar_view(r) == empty_sidecar(),
    {
        ExprSidecar { scope: None, ty: None }
    }
}

impl Expr {
    /// An expression with an empty sidecar.
    pub fn from_data(data: ExprData) -> (r: Expr)
        ensures
            r@.data == expr_data_view(data),
            r@.sidecar == empty_sidecar(),
    {
        Expr { data, sidecar: ExprSidecar::new() }
    }

    /// The span that identifies this expression in diagnostics.
    pub fn span(&self) -> (r: Span)
        ensures
            r == expr_span(self@.data),
    {
        self.data.span()
    }
}

/// The span of an expression: that of its literal, variable, operator,
/// declared name or block.
pub open spec fn expr_span(d: ExprDataView) -> Span {
    match d {
        ExprDataView::LiteralInt(_, _, _, s) => s,
        ExprDataView::LiteralFloat(_, _, s) => s,
        ExprDataView::LiteralBool(_, s) => s,
        ExprDataView::InfixOp(_, _, s, _) => s,
        ExprDataView::Var(_, s) => s,
        ExprDataView::Declaration(_, s, _) => s,
        ExprDataView::Block(_, _, s) => s,
    }
}

impl ExprData {
    /// The span that identifies this expression in diagnostics.
    pub fn span(&self) -> (r: Span)
        ensures
            r == expr_span(expr_data_view(*self)),
    {
        match self {
            ExprData::LiteralInt(l) => l.span,
            ExprData::LiteralFloat(l) => l.span,
            ExprData::LiteralBool(l) => l.span,
            ExprData::InfixOp(_, op, _) => op.span,
            ExprData::Var(v) => v.span,
            ExprData::Declaration { name, value: _ } => name.span,
            ExprData::Block(b) => b.span,
        }
    }
}

impl Function {
    /// The span of the function's name.
    pub fn span(&self) -> (r: Span)
        ensures
            r == self@.name_span,
    {
        self.data.span()
    }
}

impl FunctionData {
    /// The span of the function's name.
    pub fn span(&self) -> (r: Span)
        ensures
            r == self.name.span,
    {
        self.name.span
    }
}


// ---------------------------------------------------------------------------
// Grouping functions by name.
// ---------------------------------------------------------------------------

/// Where the group named `name` is among `groups` (the last such group).
pub open spec fn group_index(groups: Seq<(Seq<char>, Seq<FunctionView>)>, name: Seq<char>) -> Option<int>
    decreases groups.len(),
{
    if groups.len() == 0 {
        None
    } else if groups.last().0 == name {
        Some(groups.len() - 1)
    } else {
        group_index(groups.drop_last(), name)
    }
}

/// `groups` with `f` added at the end of the group of its name (a new group
/// at the end when there is none).
pub open spec fn add_to_group(groups: Seq<(Seq<char>, Seq<FunctionView>)>, f: FunctionView) -> Seq<
    (Seq<char>, Seq<FunctionView>),
> {
    match group_index(groups, f.name) {
        Some(k) => groups.update(k, (groups[k].0, groups[k].1.push(f))),
        None => groups.push((f.name, seq![f])),
    }
}

/// Functions in order, grouped by name.
pub open spec fn group_functions(fs: Seq<FunctionView>) -> Seq<(Seq<char>, Seq<FunctionView>)>
    decreases fs.len(),
{
    if fs.len() == 0 {
        Seq::empty()
    } else {
        add_to_group(group_functions(fs.drop_last()), fs.last())
    }
}

/// The functions of `fs` named `name`, in order.
pub open spec fn named(fs: Seq<FunctionView>, name: Seq<char>) -> Seq<FunctionView> {
    fs.filter(|f: FunctionView| f.name == name)
}

proof fn lemma_group_index(groups: Seq<(Seq<char>, Seq<FunctionView>)>, name: Seq<char>)
    ensures
        group_index(groups, name) matches Some(k) ==> 0 <= k < groups.len() && groups[k].0 == name,
        group_index(groups, name) is None ==> forall|k: int| 0 <= k < groups.len() ==> #[trigger] groups[k].0 != name,
    decreases groups.len(),
{
    if groups.len() > 0 {
        lemma_group_index(groups.drop_last(), name);
        if group_index(groups, name) is None {
            assert forall|k: int| 0 <= k < groups.len() implies #[trigger] groups[k].0 != name by {
                if k < groups.len() - 1 {
                    assert(groups.drop_last()[k] == groups[k]);
                }
            }
        }
    }
}

proof fn lemma_group_index_names(a: Seq<(Seq<char>, Seq<FunctionView>)>, b: Seq<(Seq<char>, Seq<FunctionView>)>, name: Seq<char>)
    requires
        a.len() == b.len(),
        forall|k: int| 0 <= k < a.len() ==> (#[trigger] a[k]).0 == b[k].0,
    ensures
        group_index(a, name) == group_index(b, name),
    decreases a.len(),
{
    if a.len() > 0 {
        lemma_group_index_names(a.drop_last(), b.drop_last(), name);
    }
}

proof fn lemma_named_none(fs: Seq<FunctionView>, name: Seq<char>)
    requires
        forall|i: int| 0 <= i < fs.len() ==> #[trigger] fs[i].name != name,
    ensures
        named(fs, name) == Seq::<FunctionView>::empty(),
    decreases fs.len(),
{
    reveal(Seq::filter);
    if fs.len() > 0 {
        assert forall|i: int| 0 <= i < fs.drop_last().len() implies #[trigger] fs.drop_last()[i].name != name by {
            assert(fs.drop_last()[i] == fs[i]);
        }
        lemma_named_none(fs.drop_last(), name);
    }
}

/// Grouping functions by name, as a file holds them: no name names two
/// groups; each group holds exactly the functions of its name, in their
/// order; and every function has a group.
pub proof fn law_group_functions(fs: Seq<FunctionView>)
    ensures
        forall|i: int, j: int|
            0 <= i < j < group_functions(fs).len() ==> (#[trigger] group_functions(fs)[i]).0 != (
            #[trigger] group_functions(fs)[j]).0,
        forall|k: int|
            0 <= k < group_functions(fs).len() ==> (#[trigger] group_functions(fs)[k]).1 == named(
                fs,
                group_functions(fs)[k].0,
            ),
        forall|i: int| 0 <= i < fs.len() ==> group_index(group_functions(fs), #[trigger] fs[i].name) is Some,
    decreases fs.len(),
{
    reveal(Seq::filter);
    if fs.len() > 0 {
        let fs0 = fs.drop_last();
        let f = fs.last();
        law_group_functions(fs0);
        let gs0 = group_functions(fs0);
        let gs = group_functions(fs);
        lemma_group_index(gs0, f.name);
        assert(fs.drop_last() == fs0);
        match group_index(gs0, f.name) {
            Some(k) => {
                assert(gs == gs0.update(k, (gs0[k].0, gs0[k].1.push(f))));
                assert forall|m: int| 0 <= m < gs.len() implies (#[trigger] gs[m]).1 == named(fs, gs[m].0) by {
                    assert(named(fs, gs[m].0) == if f.name == gs[m].0 {
                        named(fs0, gs[m].0).push(f)
                    } else {
                        named(fs0, gs[m].0)
                    });
                    if m != k {
                        assert(gs0[m].0 != gs0[k].0);
                    }
                }
                assert forall|i: int| 0 <= i < fs.len() implies group_index(gs, #[trigger] fs[i].name) is Some by {
                    lemma_group_index_names(gs, gs0, fs[i].name);
                    if i < fs.len() - 1 {
                        assert(fs0[i] == fs[i]);
                    }
                }
            },
            None => {
                assert(gs == gs0.push((f.name, seq![f])));
                assert forall|i: int| 0 <= i < fs0.len() implies #[trigger] fs0[i].name != f.name by {
                    lemma_group_index(gs0, fs0[i].name);
                }
                lemma_named_none(fs0, f.name);
                assert forall|m: int| 0 <= m < gs.len() implies (#[trigger] gs[m]).1 == named(fs, gs[m].0) by {
                    assert(named(fs, gs[m].0) == if f.name == gs[m].0 {
                        named(fs0, gs[m].0).push(f)
                    } else {
                        named(fs0, gs[m].0)
                    });
                    if m == gs.len() - 1 {
                        assert(Seq::<FunctionView>::empty().push(f) == seq![f]);
                    } else {
                        assert(gs[m] == gs0[m]);
                    }
                }
                assert forall|i: int| 0 <= i < fs.len() implies group_index(gs, #[trigger] fs[i].name) is Some by {
                    if i < fs.len() - 1 {
                        assert(fs0[i] == fs[i]);
                        assert(gs.drop_last() == gs0);
                    }
                }
            },
        }
    }
}

impl File {
    /// A file with no functions.
    pub fn new() -> (r: File)
        ensures
            r@ == Seq::<(Seq<char>, Seq<FunctionView>)>::empty(),
    {
        let r = File { functions: Vec::new() };
        assert(r@ =~= Seq::<(Seq<char>, Seq<FunctionView>)>::empty());
        r
    }

    fn find_group(&self, name: &String) -> (r: Option<usize>)
        ensures
            match r {
                Some(k) => group_index(self@, name@) == Some(k as int) && k < self.functions@.len(),
                None => group_index(self@, name@) is None,
            },
    {
        let mut k = self.functions.len();
        assert(self@.take(k as int) =~= self@);
        while k > 0
            invariant
                k <= self.functions@.len(),
                self@.len() == self.functions@.len(),
                group_index(self@, name@) == group_index(self@.take(k as int), name@),
            decreases k,
        {
            assert(self@[k - 1] == group_view(self.functions@[k - 1]));
            if self.functions[k - 1].0 == *name {
                return Some(k - 1);
            }
            assert(self@.take(k as int).drop_last() =~= self@.take(k - 1));
            k -= 1;
        }
        None
    }

    /// Adds `item` at the end of the group of its name.
    pub fn push(&mut self, item: Function)
        ensures
            final(self)@ == add_to_group(old(self)@, item@),
    {
        let name = item.data.name.inner.clone();
        match self.find_group(&name) {
            Some(k) => {
                let ghost old_view = self@;
                let mut g = self.functions.remove(k);
                let ghost g0 = g;
                g.1.push(item);
                proof {
                    assert(functions_view(g.1@) =~= functions_view(g0.1@).push(item@));
                }
                self.functions.insert(k, g);
                proof {
                    assert(self@ =~= old_view.update(k as int, (old_view[k as int].0, old_view[k as int].1.push(item@))));
                }
            },
            None => {
                let mut v: Vec<Function> = Vec::new();
                v.push(item);
                proof {
                    assert(functions_view(v@) =~= seq![item@]);
                }
                self.functions.push((name, v));
                assert(self@ =~= old(self)@.push((item@.name, seq![item@])));
            },
        }
    }
}

impl Default for File {
    fn default() -> (r: File)
        ensures
            r@ == Seq::<(Seq<char>, Seq<FunctionView>)>::empty(),
    {
        File::new()
    }
}

} // verus!
