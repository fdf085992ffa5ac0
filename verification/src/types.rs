//! The type system of the shading language: numbers, vectors, matrices, the
//! abstract `bool`/`void` types, function types and pointer types.
use vstd::prelude::*;

verus! {

/// An integer type of a given bit width.
#[derive(Clone, Copy, PartialEq, Eq, Structural, Debug, Hash)]
pub enum Integer {
    Unsigned(u32),
    Signed(u32),
}

/// A floating-point type of a given bit width.
#[derive(Clone, Copy, PartialEq, Eq, Structural, Debug, Hash)]
pub struct Float {
    pub width: u32,
}

/// A scalar number type.
#[derive(Clone, Copy, PartialEq, Eq, Structural, Debug, Hash)]
pub enum NumberKind {
    Integer(Integer),
    Float(Float),
}

/// A vector of `component_count` numbers of one kind.
#[derive(Clone, Copy, PartialEq, Eq, Structural, Debug, Hash)]
pub struct Vector {
    pub component_type: NumberKind,
    pub component_count: u32,
}

/// A matrix made of `column_count` columns of type `column_type`.
#[derive(Clone, Copy, PartialEq, Eq, Structural, Debug, Hash)]
pub struct Matrix {
    pub column_type: Vector,
    pub column_count: u32,
}

/// "A numerical scalar, vector, or matrix type" (SPIR-V's concrete types).
#[derive(Clone, Copy, PartialEq, Eq, Structural, Debug, Hash)]
pub enum Concrete {
    Number(NumberKind),
    Vector(Vector),
    Matrix(Matrix),
}

#[derive(Clone, Copy, PartialEq, Eq, Structural, Debug, Hash)]
pub struct Bool;

#[derive(Clone, Copy, PartialEq, Eq, Structural, Debug, Hash)]
pub struct Void;

/// "An OpTypeVoid or OpTypeBool" (SPIR-V's abstract types).
#[derive(Clone, Copy, PartialEq, Eq, Structural, Debug, Hash)]
pub enum Abstract {
    Void(Void),
    Bool(Bool),
}

/// Where a pointer points to.
#[derive(Clone, Copy, PartialEq, Eq, Structural, Debug, Hash)]
pub enum StorageClass {
    Function,
    Input,
    Output,
}

/// A pointer into a storage class.
#[derive(Debug, Hash)]
pub struct Pointer {
    pub storage_class: StorageClass,
    pub target: Box<Type>,
}

/// A function type: argument types and a result type.
#[derive(Debug, Hash)]
pub struct Function {
    pub args: Vec<Type>,
    pub result: Box<Type>,
}

/// The result type of a function.
#[derive(Clone, Copy, PartialEq, Eq, Structural, Debug, Hash)]
pub enum FunctionResult {
    Concrete(Concrete),
    Abstract(Abstract),
}

/// Any type of the language.
#[derive(Debug, Hash)]
pub enum Type {
    Concrete(Concrete),
    Abstract(Abstract),
    Function(Function),
    Pointer(Pointer),
}

/// The mathematical value of a [`Type`].
pub enum TypeView {
    Concrete(Concrete),
    Abstract(Abstract),
    Function(Seq<TypeView>, Box<TypeView>),
    Pointer(StorageClass, Box<TypeView>),
}

pub open spec fn type_view(t: Type) -> TypeView
    decreases t,
{
    match t {
        Type::Concrete(c) => TypeView::Concrete(c),
        Type::Abstract(a) => TypeView::Abstract(a),
        Type::Function(f) => {
            proof {
                assert(decreases_to!(f.args => f.args@));
            }
            TypeView::Function(types_view(f.args@), Box::new(type_view(*f.result)))
        },
        Type::Pointer(p) => TypeView::Pointer(p.storage_class, Box::new(type_view(*p.target))),
    }
}

pub open spec fn types_view(s: Seq<Type>) -> Seq<TypeView>
    decreases s,
{
    if s.len() == 0 {
        Seq::empty()
    } else {
        proof {
            assert(decreases_to!(s => s[0]));
            assert(decreases_to!(s => s.subrange(1, s.len() as int)));
        }
        seq![type_view(s[0])] + types_view(s.subrange(1, s.len() as int))
    }
}

impl View for Type {
    type V = TypeView;

    open spec fn view(&self) -> TypeView {
        type_view(*self)
    }
}

/// `types_view` is the element-wise view.
pub proof fn lemma_types_view(s: Seq<Type>)
    ensures
        types_view(s).len() == s.len(),
        forall|i: int| 0 <= i < s.len() ==> #[trigger] types_view(s)[i] == type_view(s[i]),
    decreases s.len(),
{
    if s.len() > 0 {
        lemma_types_view(s.subrange(1, s.len() as int));
        assert forall|i: int| 0 <= i < s.len() implies #[trigger] types_view(s)[i] == type_view(s[i]) by {
            if i > 0 {
                assert(s.subrange(1, s.len() as int)[i - 1] == s[i]);
            }
        }
    }
}

/// Two sequences of types with the same length and the same views element-wise
/// have the same view.
pub proof fn lemma_types_view_ext(a: Seq<Type>, b: Seq<Type>)
    requires
        a.len() == b.len(),
        forall|i: int| 0 <= i < a.len() ==> type_view(#[trigger] a[i]) == type_view(b[i]),
    ensures
        types_view(a) == types_view(b),
{
    lemma_types_view(a);
    lemma_types_view(b);
    assert(types_view(a) =~= types_view(b));
}

impl Integer {
    /// Bit width of this integer type.
    pub open spec fn spec_bit_width(&self) -> u32 {
        match *self {
            Integer::Unsigned(w) => w,
            Integer::Signed(w) => w,
        }
    }

    /// Bit width of this integer type.
    #[verifier::when_used_as_spec(spec_bit_width)]
    pub fn bit_width(&self) -> (r: u32)
        ensures
            r == self.spec_bit_width(),
    {
        match self {
            Integer::Unsigned(w) => *w,
            Integer::Signed(w) => *w,
        }
    }

    pub open spec fn spec_is_signed(&self) -> bool {
        *self is Signed
    }

    /// Whether this integer type is signed.
    #[verifier::when_used_as_spec(spec_is_signed)]
    pub fn is_signed(&self) -> (r: bool)
        ensures
            r == self.spec_is_signed(),
    {
        match self {
            Integer::Unsigned(_) => false,
            Integer::Signed(_) => true,
        }
    }
}

impl Matrix {
    /// Number of columns.
    pub fn column_count(&self) -> (r: u32)
        ensures
            r == self.column_count,
    {
        self.column_count
    }

    /// Number of rows: the number of components of a column.
    pub fn row_count(&self) -> (r: u32)
        ensures
            r == self.column_type.component_count,
    {
        self.column_type.component_count
    }

    /// The scalar type of the matrix's entries.
    pub fn component_type(&self) -> (r: NumberKind)
        ensures
            r == self.column_type.component_type,
    {
        self.column_type.component_type
    }
}

/// Spec equality of types, decided on their views.
pub fn type_eq(a: &Type, b: &Type) -> (r: bool)
    ensures
        r == (a@ == b@),
    decreases a,
{
    match (a, b) {
        (Type::Concrete(x), Type::Concrete(y)) => *x == *y,
        (Type::Abstract(x), Type::Abstract(y)) => *x == *y,
        (Type::Pointer(x), Type::Pointer(y)) => {
            if x.storage_class != y.storage_class {
                return false;
            }
            type_eq(&x.target, &y.target)
        },
        (Type::Function(x), Type::Function(y)) => {
            if !type_eq(&x.result, &y.result) {
                return false;
            }
            if x.args.len() != y.args.len() {
                proof {
                    lemma_types_view(x.args@);
                    lemma_types_view(y.args@);
                }
                return false;
            }
            let n = x.args.len();
            let mut i: usize = 0;
            while i < n
                invariant
                    *a == Type::Function(*x),
                    *b == Type::Function(*y),
                    n == x.args@.len(),
                    n == y.args@.len(),
                    0 <= i <= n,
                    forall|j: int| 0 <= j < i ==> type_view(#[trigger] x.args@[j]) == type_view(y.args@[j]),
                decreases n - i,
            {
                proof {
                    assert(decreases_to!(*a => *x));
                    assert(decreases_to!(*x => x.args));
                    assert(decreases_to!(x.args => x.args@));
                    assert(decreases_to!(x.args@ => x.args@[i as int]));
                }
                if !type_eq(&x.args[i], &y.args[i]) {
                    proof {
                        lemma_types_view(x.args@);
                        lemma_types_view(y.args@);
                        assert(types_view(x.args@)[i as int] != types_view(y.args@)[i as int]);
                        assert(a@ == TypeView::Function(types_view(x.args@), Box::new(type_view(*x.result))));
                        assert(b@ == TypeView::Function(types_view(y.args@), Box::new(type_view(*y.result))));
                    }
                    return false;
                }
                i += 1;
            }
            proof {
                lemma_types_view_ext(x.args@, y.args@);
            }
            true
        },
        (Type::Concrete(_), _) => false,
        (Type::Abstract(_), _) => false,
        (Type::Pointer(_), _) => false,
        (Type::Function(_), _) => false,
    }
}

/// A copy of a type with the same view.
pub fn type_copy(a: &Type) -> (r: Type)
    ensures
        r@ == a@,
    decreases a,
{
    match a {
        Type::Concrete(c) => Type::Concrete(*c),
        Type::Abstract(x) => Type::Abstract(*x),
        Type::Pointer(p) => Type::Pointer(
            Pointer { storage_class: p.storage_class, target: Box::new(type_copy(&p.target)) },
        ),
        Type::Function(f) => {
            let result = Box::new(type_copy(&f.result));
            let n = f.args.len();
            let mut args: Vec<Type> = Vec::new();
            let mut i: usize = 0;
            while i < n
                invariant
                    *a == Type::Function(*f),
                    n == f.args@.len(),
                    0 <= i <= n,
                    args@.len() == i,
                    forall|j: int| 0 <= j < i ==> type_view(#[trigger] args@[j]) == type_view(f.args@[j]),
                decreases n - i,
            {
                proof {
                    assert(*a == Type::Function(*f));
                    assert(decreases_to!(*a => (*a)->Function_0));
                    assert(decreases_to!(*f => f.args));
                    assert(decreases_to!(f.args => f.args@));
                    assert(decreases_to!(f.args@ => f.args@[i as int]));
                }
                let t = type_copy(&f.args[i]);
                args.push(t);
                i += 1;
            }
            proof {
                lemma_types_view_ext(args@, f.args@);
            }
            Type::Function(Function { args, result })
        },
    }
}

impl PartialEq for Type {
    fn eq(&self, other: &Type) -> (r: bool) {
        type_eq(self, other)
    }
}

impl vstd::std_specs::cmp::PartialEqSpecImpl for Type {
    open spec fn obeys_eq_spec() -> bool {
        true
    }

    open spec fn eq_spec(&self, other: &Type) -> bool {
        self@ == other@
    }
}

impl Eq for Type {}

impl Clone for Type {
    fn clone(&self) -> (r: Type)
        ensures
            r@ == self@,
    {
        type_copy(self)
    }
}

pub open spec fn number_type(n: NumberKind) -> TypeView {
    TypeView::Concrete(Concrete::Number(n))
}

pub open spec fn vector_type(v: Vector) -> TypeView {
    TypeView::Concrete(Concrete::Vector(v))
}

pub open spec fn matrix_type(m: Matrix) -> TypeView {
    TypeView::Concrete(Concrete::Matrix(m))
}

impl From<NumberKind> for Type {
    fn from(n: NumberKind) -> (r: Type) {
        Type::Concrete(Concrete::Number(n))
    }
}

impl vstd::std_specs::convert::FromSpecImpl<NumberKind> for Type {
    open spec fn obeys_from_spec() -> bool {
        true
    }

    open spec fn from_spec(n: NumberKind) -> Type {
        Type::Concrete(Concrete::Number(n))
    }
}

/// The type of a number of kind `n`.
pub fn number(n: NumberKind) -> (r: Type)
    ensures
        r@ == number_type(n),
{
    Type::Concrete(Concrete::Number(n))
}

/// The type of vectors `v`.
pub fn vector(v: Vector) -> (r: Type)
    ensures
        r@ == vector_type(v),
{
    Type::Concrete(Concrete::Vector(v))
}

/// The type of matrices `m`.
pub fn matrix(m: Matrix) -> (r: Type)
    ensures
        r@ == matrix_type(m),
{
    Type::Concrete(Concrete::Matrix(m))
}

/// The `bool` type.
pub fn bool_type() -> (r: Type)
    ensures
        r@ == TypeView::Abstract(Abstract::Bool(Bool)),
{
    Type::Abstract(Abstract::Bool(Bool))
}

/// The `void` type.
pub fn void_type() -> (r: Type)
    ensures
        r@ == TypeView::Abstract(Abstract::Void(Void)),
{
    Type::Abstract(Abstract::Void(Void))
}

/// A pointer to `target` in `storage_class`.
pub fn pointer(storage_class: StorageClass, target: Type) -> (r: Type)
    ensures
        r@ == TypeView::Pointer(storage_class, Box::new(target@)),
{
    Type::Pointer(Pointer { storage_class, target: Box::new(target) })
}

} // verus!
