//! The compiler's driver: the passes in order, the items its scopes hold, and
//! the errors it reports.
use vstd::prelude::*;
use crate::ast::File;
use crate::block::{BlockLocalRef, Ctx};
use crate::iilgen::{IILItemView, iil_items};
use crate::module::{Module, process_file, file_processed, file_gen_ok};
use crate::lexer::Span;
use crate::scope::{Universe, ScopeView};
use crate::scoping::{populate_scopes, scope_groups, function_scoped, law_scope_groups, lemma_function_scoped_clear};
use crate::typing::{
    populate_types, inferred, untyped_spans_file, typed_view, final_view, error_spans, is_type_error, all_typed,
    clear_groups, law_inferred_keeps_shape, law_no_untyped_spans_means_all_typed,
};
use crate::ast::FunctionView;
use crate::types::{Type, TypeView};

verus! {

/// An error found while compiling, with the span it is about.
#[derive(Debug)]
pub struct CompileError {
    pub code: u32,
    pub message: String,
    pub span: Span,
    pub label: Option<String>,
}

/// What a scope knows of a name while types are being inferred.
#[derive(Debug)]
pub struct NamespaceItemPartiallyTyped {
    pub ty: Option<Type>,
}

/// What a scope knows of a name once every type is known.
#[derive(Debug)]
pub struct NamespaceItemFullyTyped {
    pub ty: Type,
}

/// What a scope knows of a name while intermediate code is generated: its
/// type, and the local holding it once there is one.
#[derive(Debug)]
pub struct NamespaceItemIILGeneration {
    pub ty: Type,
    pub block_ref: Option<BlockLocalRef>,
}

impl From<NamespaceItemFullyTyped> for NamespaceItemIILGeneration {
    fn from(value: NamespaceItemFullyTyped) -> (r: NamespaceItemIILGeneration) {
        NamespaceItemIILGeneration { ty: value.ty, block_ref: None }
    }
}

impl vstd::std_specs::convert::FromSpecImpl<NamespaceItemFullyTyped> for NamespaceItemIILGeneration {
    open spec fn obeys_from_spec() -> bool {
        true
    }

    open spec fn from_spec(value: NamespaceItemFullyTyped) -> NamespaceItemIILGeneration {
        NamespaceItemIILGeneration { ty: value.ty, block_ref: None }
    }
}

/// The type an item is known to have, if any.
pub open spec fn item_type(item: NamespaceItemPartiallyTyped) -> Option<TypeView> {
    match item.ty {
        Some(t) => Some(t@),
        None => None,
    }
}


/// The universe a compilation starts from: an empty root scope.
pub open spec fn empty_universe() -> Seq<ScopeView<()>> {
    seq![ScopeView::<()> { parent: None, items: Map::empty() }]
}

/// Compiles a parsed file: scopes, then types.  Succeeds when every
/// expression got a type; otherwise reports each expression left without
/// one.
pub fn compile(file: File) -> (r: Result<(File, Universe<NamespaceItemFullyTyped>), Vec<CompileError>>)
    ensures
        ({
            let (u1, gs1) = scope_groups(empty_universe(), file@);
            let (vf, gsf) = inferred(u1, gs1);
            &&& (r is Ok <==> untyped_spans_file(gsf).len() == 0)
            &&& (r matches Ok((f, u)) ==> f@ == gsf && u.wf() && typed_view(u@) == final_view(vf))
            &&& (r matches Err(errs) ==> error_spans(errs@) == untyped_spans_file(gsf) && forall|i: int|
                0 <= i < errs@.len() ==> is_type_error(#[trigger] errs@[i]))
        }),
{
    let universe: Universe<()> = Universe::new();
    match populate_scopes(file, universe) {
        Ok((file, universe)) => populate_types(file, universe),
        Err(errs) => Err(errs),
    }
}


/// The items a fully typed universe's names start intermediate code
/// generation with: their types, and no local holding them yet.
pub open spec fn initial_items(u: Seq<ScopeView<NamespaceItemFullyTyped>>) -> Seq<ScopeView<IILItemView>> {
    Seq::new(
        u.len(),
        |i: int|
            ScopeView {
                parent: u[i].parent,
                items: u[i].items.map_values(|it: NamespaceItemFullyTyped| IILItemView { ty: it.ty@, block_ref: None }),
            },
    )
}

/// Generates the intermediate code of a compiled file.
pub fn foobar(file: File, universe: Universe<NamespaceItemFullyTyped>) -> (r: Module)
    requires
        universe.wf(),
        file_gen_ok(0, initial_items(universe@), file@),
    ensures
        file_processed(file@, initial_items(universe@), 0, r),
{
    let ghost u0 = universe@;
    let into_iil = |item: NamespaceItemFullyTyped| -> (r: NamespaceItemIILGeneration)
        ensures
            r.ty@ == item.ty@,
            r.block_ref is None,
        { NamespaceItemIILGeneration::from(item) };
    let mut universe = universe.map(into_iil);
    proof {
        let a = u0;
        let b = universe@;
        assert forall|i: int| 0 <= i < a.len() implies iil_items(b)[i] == initial_items(a)[i] by {
            assert(b[i].items.dom() == a[i].items.dom());
            assert forall|k: Seq<char>| #[trigger] b[i].items.contains_key(k) implies crate::iilgen::iil_item_view(
                b[i].items[k],
            ) == (IILItemView { ty: a[i].items[k].ty@, block_ref: None }) by {
                assert(a[i].items.contains_key(k));
            }
            assert(iil_items(b)[i].items =~= initial_items(a)[i].items);
        }
        assert(iil_items(b) =~= initial_items(a));
    }
    let mut blockctx = Ctx::new();
    process_file(file, &mut universe, &mut blockctx)
}

/// What compiling a file means: it succeeds exactly when every expression
/// of every function got a type; and then every function, in its group and
/// place, has a scope of its own declaring exactly its arguments, every
/// expression has a scope, and a declaration's name is visible from the
/// scope it opens, all in the universe the scoping pass built.
pub proof fn law_compile_success(gs: Seq<(Seq<char>, Seq<FunctionView>)>)
    ensures
        ({
            let (u1, gs1) = scope_groups(empty_universe(), gs);
            let gsf = inferred(u1, gs1).1;
            &&& (untyped_spans_file(gsf).len() == 0 <==> forall|i: int, k: int|
                0 <= i < gsf.len() && 0 <= k < gsf[i].1.len() ==> all_typed(#[trigger] gsf[i].1[k].body))
            &&& gsf.len() == gs.len()
            &&& forall|i: int| 0 <= i < gs.len() ==> (#[trigger] gsf[i]).0 == gs[i].0 && gsf[i].1.len() == gs[i].1.len()
            &&& forall|i: int, k: int|
                0 <= i < gs.len() && 0 <= k < gs[i].1.len() ==> function_scoped(#[trigger] gsf[i].1[k], u1)
        }),
{
    let (u1, gs1) = scope_groups(empty_universe(), gs);
    let gsf = inferred(u1, gs1).1;
    law_no_untyped_spans_means_all_typed(gsf);
    law_scope_groups(empty_universe(), gs);
    law_inferred_keeps_shape(u1, gs1);
    assert(clear_groups(gsf).len() == gsf.len());
    assert(clear_groups(gs1).len() == gs1.len());
    assert forall|i: int| 0 <= i < gs.len() implies (#[trigger] gsf[i]).0 == gs[i].0 && gsf[i].1.len() == gs[i].1.len() by {
        assert(clear_groups(gsf)[i] == clear_groups(gs1)[i]);
        assert(clear_groups(gsf)[i] == (gsf[i].0, gsf[i].1.map_values(|f: FunctionView| crate::typing::clear_function(f))));
        assert(clear_groups(gs1)[i] == (gs1[i].0, gs1[i].1.map_values(|f: FunctionView| crate::typing::clear_function(f))));
        assert(gsf[i].1.map_values(|f: FunctionView| crate::typing::clear_function(f)).len() == gsf[i].1.len());
        assert(gs1[i].1.map_values(|f: FunctionView| crate::typing::clear_function(f)).len() == gs1[i].1.len());
    }
    assert forall|i: int, k: int| 0 <= i < gs.len() && 0 <= k < gs[i].1.len() implies function_scoped(
        #[trigger] gsf[i].1[k],
        u1,
    ) by {
        assert(clear_groups(gsf)[i] == clear_groups(gs1)[i]);
        assert(clear_groups(gsf)[i] == (gsf[i].0, gsf[i].1.map_values(|f: FunctionView| crate::typing::clear_function(f))));
        assert(clear_groups(gs1)[i] == (gs1[i].0, gs1[i].1.map_values(|f: FunctionView| crate::typing::clear_function(f))));
        assert(gsf[i].1.map_values(|f: FunctionView| crate::typing::clear_function(f))[k] == crate::typing::clear_function(gsf[i].1[k]));
        assert(gs1[i].1.map_values(|f: FunctionView| crate::typing::clear_function(f))[k] == crate::typing::clear_function(gs1[i].1[k]));
        lemma_function_scoped_clear(gs1[i].1[k], gsf[i].1[k], u1);
    }
}

} // verus!
