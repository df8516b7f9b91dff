//! Types of values: a small closed hierarchy, compared structurally.

use vstd::prelude::*;
use vstd::std_specs::cmp::PartialEqSpecImpl;

verus! {

/// The type of a value.
///
/// Two types are interchangeable exactly when they are structurally equal,
/// that is, when their views are equal.
#[derive(Debug)]
pub enum Type {
    /// An integer of the given bit width.
    Integer(u32),
    /// A 64-bit floating point number.
    Float64,
    /// An untyped pointer.
    Pointer,
    /// A function from the first list of types to the second.
    Function(Vec<Type>, Vec<Type>),
    /// A type that a dialect defines, identified by its name.
    Opaque(String),
}

/// The mathematical value of a [`Type`].
pub enum TypeView {
    Integer(u32),
    Float64,
    Pointer,
    Function(Seq<TypeView>, Seq<TypeView>),
    Opaque(Seq<char>),
}

/// The view of one type.
pub open spec fn type_view(t: Type) -> TypeView
    decreases t,
{
    match t {
        Type::Integer(width) => TypeView::Integer(width),
        Type::Float64 => TypeView::Float64,
        Type::Pointer => TypeView::Pointer,
        Type::Function(inputs, outputs) => TypeView::Function(
            Seq::new(
                inputs@.len(),
                |k: int|
                    if 0 <= k < inputs@.len() {
                        type_view(inputs@[k])
                    } else {
                        TypeView::Pointer
                    },
            ),
            Seq::new(
                outputs@.len(),
                |k: int|
                    if 0 <= k < outputs@.len() {
                        type_view(outputs@[k])
                    } else {
                        TypeView::Pointer
                    },
            ),
        ),
        Type::Opaque(name) => TypeView::Opaque(name@),
    }
}

/// The views of a list of types, in order.
pub open spec fn types_view(types: Seq<Type>) -> Seq<TypeView> {
    Seq::new(types.len(), |k: int| type_view(types[k]))
}

impl View for Type {
    type V = TypeView;

    open spec fn view(&self) -> TypeView {
        type_view(*self)
    }
}

/// The view of a function type is built from the views of its two lists.
pub proof fn lemma_function_view(inputs: Vec<Type>, outputs: Vec<Type>)
    ensures
        type_view(Type::Function(inputs, outputs)) == TypeView::Function(
            types_view(inputs@),
            types_view(outputs@),
        ),
{
    let v = type_view(Type::Function(inputs, outputs));
    assert(v->Function_0 =~= types_view(inputs@));
    assert(v->Function_1 =~= types_view(outputs@));
}

/// Whether two lists of types are structurally equal, element by element.
pub fn type_lists_equal(left: &Vec<Type>, right: &Vec<Type>) -> (equal: bool)
    ensures
        equal == (types_view(left@) == types_view(right@)),
    decreases left, 0nat,
{
    if left.len() != right.len() {
        assert(types_view(left@).len() != types_view(right@).len());
        return false;
    }
    let mut k: usize = 0;
    while k < left.len()
        invariant
            left.len() == right.len(),
            k <= left.len(),
            forall|j: int| 0 <= j < k ==> type_view(left@[j]) == type_view(right@[j]),
        decreases left.len() - k,
    {
        if !types_equal(&left[k], &right[k]) {
            assert(types_view(left@)[k as int] != types_view(right@)[k as int]);
            return false;
        }
        k += 1;
    }
    assert(types_view(left@) =~= types_view(right@));
    true
}

/// Whether two types are structurally equal.
pub fn types_equal(left: &Type, right: &Type) -> (equal: bool)
    ensures
        equal == (left@ == right@),
    decreases left, 1nat,
{
    match (left, right) {
        (Type::Integer(a), Type::Integer(b)) => *a == *b,
        (Type::Float64, Type::Float64) => true,
        (Type::Pointer, Type::Pointer) => true,
        (Type::Opaque(a), Type::Opaque(b)) => *a == *b,
        (Type::Function(left_in, left_out), Type::Function(right_in, right_out)) => {
            proof {
                lemma_function_view(*left_in, *left_out);
                lemma_function_view(*right_in, *right_out);
            }
            type_lists_equal(left_in, right_in) && type_lists_equal(left_out, right_out)
        },
        _ => false,
    }
}

/// A copy of a list of types.
pub fn clone_types(types: &Vec<Type>) -> (copy: Vec<Type>)
    ensures
        types_view(copy@) == types_view(types@),
    decreases types, 0nat,
{
    let mut copy: Vec<Type> = Vec::new();
    let mut k: usize = 0;
    while k < types.len()
        invariant
            k <= types.len(),
            copy@.len() == k,
            forall|j: int| 0 <= j < k ==> type_view(copy@[j]) == type_view(types@[j]),
        decreases types.len() - k,
    {
        let item = clone_type(&types[k]);
        copy.push(item);
        k += 1;
    }
    assert(types_view(copy@) =~= types_view(types@));
    copy
}

/// A copy of a type.
pub fn clone_type(ty: &Type) -> (copy: Type)
    ensures
        copy@ == ty@,
    decreases ty, 1nat,
{
    match ty {
        Type::Integer(width) => Type::Integer(*width),
        Type::Float64 => Type::Float64,
        Type::Pointer => Type::Pointer,
        Type::Opaque(name) => Type::Opaque(name.clone()),
        Type::Function(inputs, outputs) => {
            let inputs_copy = clone_types(inputs);
            let outputs_copy = clone_types(outputs);
            proof {
                lemma_function_view(*inputs, *outputs);
                lemma_function_view(inputs_copy, outputs_copy);
            }
            Type::Function(inputs_copy, outputs_copy)
        },
    }
}

impl Clone for Type {
    fn clone(&self) -> (copy: Self)
        ensures
            copy@ == self@,
    {
        clone_type(self)
    }
}

impl PartialEq for Type {
    fn eq(&self, other: &Self) -> (equal: bool) {
        types_equal(self, other)
    }
}

impl Eq for Type {

}

impl PartialEqSpecImpl for Type {
    open spec fn obeys_eq_spec() -> bool {
        true
    }

    open spec fn eq_spec(&self, other: &Self) -> bool {
        self@ == other@
    }
}

impl Type {
    /// The integer type of 32 bits.
    pub fn i32() -> (ty: Type)
        ensures
            ty@ == TypeView::Integer(32),
    {
        Type::Integer(32)
    }

    /// The dialect-defined type of the given name.
    pub fn opaque(name: &str) -> (ty: Type)
        ensures
            ty@ == TypeView::Opaque(name@),
    {
        Type::Opaque(String::from_str(name))
    }

    /// The width of an integer type, `None` for any other type.
    pub fn integer_width(&self) -> (width: Option<u32>)
        ensures
            width == integer_width_of(self@),
    {
        match self {
            Type::Integer(width) => Some(*width),
            _ => None,
        }
    }
}

/// The width of an integer type, `None` for any other type.
pub open spec fn integer_width_of(ty: TypeView) -> Option<u32> {
    match ty {
        TypeView::Integer(width) => Some(width),
        _ => None,
    }
}

} // verus!
