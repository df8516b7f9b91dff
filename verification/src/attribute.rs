//! Attributes: named constant data attached to an operation.

use vstd::prelude::*;
use vstd::std_specs::cmp::PartialEqSpecImpl;
use crate::types::{clone_type, types_equal, Type, TypeView};

verus! {

/// How many values one position of an operation's constraint stands for.
#[derive(Clone, Copy, Debug, PartialEq, Eq, Structural)]
pub enum Variadicity {
    /// Exactly one value.
    Single,
    /// No value or one value.
    Optional,
    /// Any number of values.
    Variadic,
}

/// The value of an attribute.
#[derive(Debug)]
pub enum Attribute {
    /// Present, with no value of its own.
    Unit,
    /// An integer literal of the given type, held as its unsigned bit pattern.
    Integer { value: u64, ty: Type },
    /// A string.
    Text(String),
    /// A type.
    Type(Type),
    /// A list of 32-bit integers.
    IntegerArray(Vec<i32>),
    /// A list of strings.
    TextArray(Vec<String>),
    /// A list of variadicity markers.
    VariadicityArray(Vec<Variadicity>),
}

/// The mathematical value of an [`Attribute`].
pub enum AttributeView {
    Unit,
    Integer { value: u64, ty: TypeView },
    Text(Seq<char>),
    Type(TypeView),
    IntegerArray(Seq<i32>),
    TextArray(Seq<Seq<char>>),
    VariadicityArray(Seq<Variadicity>),
}

/// The views of a list of strings, in order.
pub open spec fn texts_view(texts: Seq<String>) -> Seq<Seq<char>> {
    Seq::new(texts.len(), |k: int| texts[k]@)
}

impl View for Attribute {
    type V = AttributeView;

    open spec fn view(&self) -> AttributeView {
        match self {
            Attribute::Unit => AttributeView::Unit,
            Attribute::Integer { value, ty } => AttributeView::Integer { value: *value, ty: ty@ },
            Attribute::Text(text) => AttributeView::Text(text@),
            Attribute::Type(ty) => AttributeView::Type(ty@),
            Attribute::IntegerArray(items) => AttributeView::IntegerArray(items@),
            Attribute::TextArray(items) => AttributeView::TextArray(texts_view(items@)),
            Attribute::VariadicityArray(items) => AttributeView::VariadicityArray(items@),
        }
    }
}

/// Whether two lists of strings hold the same strings in the same order.
pub fn text_lists_equal(left: &Vec<String>, right: &Vec<String>) -> (equal: bool)
    ensures
        equal == (texts_view(left@) == texts_view(right@)),
{
    if left.len() != right.len() {
        assert(texts_view(left@).len() != texts_view(right@).len());
        return false;
    }
    let mut k: usize = 0;
    while k < left.len()
        invariant
            left.len() == right.len(),
            k <= left.len(),
            forall|j: int| 0 <= j < k ==> left@[j]@ == right@[j]@,
        decreases left.len() - k,
    {
        if left[k] != right[k] {
            assert(texts_view(left@)[k as int] != texts_view(right@)[k as int]);
            return false;
        }
        k += 1;
    }
    assert(texts_view(left@) =~= texts_view(right@));
    true
}

/// A copy of a list of strings.
pub fn clone_texts(texts: &Vec<String>) -> (copy: Vec<String>)
    ensures
        texts_view(copy@) == texts_view(texts@),
{
    let mut copy: Vec<String> = Vec::new();
    let mut k: usize = 0;
    while k < texts.len()
        invariant
            k <= texts.len(),
            copy@.len() == k,
            forall|j: int| 0 <= j < k ==> copy@[j]@ == texts@[j]@,
        decreases texts.len() - k,
    {
        copy.push(texts[k].clone());
        k += 1;
    }
    assert(texts_view(copy@) =~= texts_view(texts@));
    copy
}

/// Whether two lists of 32-bit integers are equal.
pub fn integer_lists_equal(left: &Vec<i32>, right: &Vec<i32>) -> (equal: bool)
    ensures
        equal == (left@ == right@),
{
    if left.len() != right.len() {
        return false;
    }
    let mut k: usize = 0;
    while k < left.len()
        invariant
            left.len() == right.len(),
            k <= left.len(),
            forall|j: int| 0 <= j < k ==> left@[j] == right@[j],
        decreases left.len() - k,
    {
        if left[k] != right[k] {
            return false;
        }
        k += 1;
    }
    assert(left@ =~= right@);
    true
}

/// Whether two lists of variadicity markers are equal.
pub fn variadicity_lists_equal(left: &Vec<Variadicity>, right: &Vec<Variadicity>) -> (equal: bool)
    ensures
        equal == (left@ == right@),
{
    if left.len() != right.len() {
        return false;
    }
    let mut k: usize = 0;
    while k < left.len()
        invariant
            left.len() == right.len(),
            k <= left.len(),
            forall|j: int| 0 <= j < k ==> left@[j] == right@[j],
        decreases left.len() - k,
    {
        if left[k] != right[k] {
            return false;
        }
        k += 1;
    }
    assert(left@ =~= right@);
    true
}

/// Whether two attribute values are structurally equal.
pub fn attributes_equal(left: &Attribute, right: &Attribute) -> (equal: bool)
    ensures
        equal == (left@ == right@),
{
    match (left, right) {
        (Attribute::Unit, Attribute::Unit) => true,
        (Attribute::Integer { value: a, ty: s }, Attribute::Integer { value: b, ty: t }) => {
            *a == *b && types_equal(s, t)
        },
        (Attribute::Text(a), Attribute::Text(b)) => *a == *b,
        (Attribute::Type(a), Attribute::Type(b)) => types_equal(a, b),
        (Attribute::IntegerArray(a), Attribute::IntegerArray(b)) => integer_lists_equal(a, b),
        (Attribute::TextArray(a), Attribute::TextArray(b)) => text_lists_equal(a, b),
        (Attribute::VariadicityArray(a), Attribute::VariadicityArray(b)) => {
            variadicity_lists_equal(a, b)
        },
        _ => false,
    }
}

/// A copy of an attribute value.
pub fn clone_attribute(attribute: &Attribute) -> (copy: Attribute)
    ensures
        copy@ == attribute@,
{
    match attribute {
        Attribute::Unit => Attribute::Unit,
        Attribute::Integer { value, ty } => Attribute::Integer { value: *value, ty: clone_type(ty) },
        Attribute::Text(text) => Attribute::Text(text.clone()),
        Attribute::Type(ty) => Attribute::Type(clone_type(ty)),
        Attribute::IntegerArray(items) => {
            let mut copy: Vec<i32> = Vec::new();
            let mut k: usize = 0;
            while k < items.len()
                invariant
                    k <= items.len(),
                    copy@ == items@.subrange(0, k as int),
                decreases items.len() - k,
            {
                copy.push(items[k]);
                assert(copy@ =~= items@.subrange(0, k + 1));
                k += 1;
            }
            assert(copy@ =~= items@);
            Attribute::IntegerArray(copy)
        },
        Attribute::TextArray(items) => Attribute::TextArray(clone_texts(items)),
        Attribute::VariadicityArray(items) => {
            let mut copy: Vec<Variadicity> = Vec::new();
            let mut k: usize = 0;
            while k < items.len()
                invariant
                    k <= items.len(),
                    copy@ == items@.subrange(0, k as int),
                decreases items.len() - k,
            {
                copy.push(items[k]);
                assert(copy@ =~= items@.subrange(0, k + 1));
                k += 1;
            }
            assert(copy@ =~= items@);
            Attribute::VariadicityArray(copy)
        },
    }
}

impl Clone for Attribute {
    fn clone(&self) -> (copy: Self)
        ensures
            copy@ == self@,
    {
        clone_attribute(self)
    }
}

impl PartialEq for Attribute {
    fn eq(&self, other: &Self) -> (equal: bool) {
        attributes_equal(self, other)
    }
}

impl Eq for Attribute {

}

impl PartialEqSpecImpl for Attribute {
    open spec fn obeys_eq_spec() -> bool {
        true
    }

    open spec fn eq_spec(&self, other: &Self) -> bool {
        self@ == other@
    }
}

/// An attribute together with the name under which an operation holds it.
#[derive(Debug, PartialEq, Eq)]
pub struct NamedAttribute {
    pub name: String,
    pub value: Attribute,
}

impl View for NamedAttribute {
    type V = (Seq<char>, AttributeView);

    open spec fn view(&self) -> (Seq<char>, AttributeView) {
        (self.name@, self.value@)
    }
}

impl NamedAttribute {
    /// The attribute `value` under `name`.
    pub fn new(name: &str, value: Attribute) -> (named: NamedAttribute)
        ensures
            named@ == (name@, value@),
    {
        NamedAttribute { name: String::from_str(name), value }
    }
}

impl Clone for NamedAttribute {
    fn clone(&self) -> (copy: Self)
        ensures
            copy@ == self@,
    {
        NamedAttribute { name: self.name.clone(), value: clone_attribute(&self.value) }
    }
}

/// The views of a list of named attributes, in order.
pub open spec fn named_attributes_view(attributes: Seq<NamedAttribute>) -> Seq<
    (Seq<char>, AttributeView),
> {
    Seq::new(attributes.len(), |k: int| attributes[k]@)
}

/// A copy of a list of named attributes.
pub fn clone_named_attributes(attributes: &Vec<NamedAttribute>) -> (copy: Vec<NamedAttribute>)
    ensures
        named_attributes_view(copy@) == named_attributes_view(attributes@),
{
    let mut copy: Vec<NamedAttribute> = Vec::new();
    let mut k: usize = 0;
    while k < attributes.len()
        invariant
            k <= attributes.len(),
            copy@.len() == k,
            forall|j: int| 0 <= j < k ==> copy@[j]@ == attributes@[j]@,
        decreases attributes.len() - k,
    {
        copy.push(attributes[k].clone());
        k += 1;
    }
    assert(named_attributes_view(copy@) =~= named_attributes_view(attributes@));
    copy
}

/// The value held under `name` in a list of attributes: that of the first
/// entry with this name, if there is one.
pub open spec fn attribute_named(
    attributes: Seq<(Seq<char>, AttributeView)>,
    name: Seq<char>,
) -> Option<AttributeView>
    decreases attributes.len(),
{
    if attributes.len() == 0 {
        None
    } else if attributes[0].0 == name {
        Some(attributes[0].1)
    } else {
        attribute_named(attributes.subrange(1, attributes.len() as int), name)
    }
}

/// The index of the first entry of `attributes` whose name is `name`.
pub fn find_attribute(attributes: &Vec<NamedAttribute>, name: &str) -> (found: Option<usize>)
    ensures
        match found {
            Some(k) => k < attributes@.len() && attribute_named(
                named_attributes_view(attributes@),
                name@,
            ) == Some(attributes@[k as int].value@),
            None => attribute_named(named_attributes_view(attributes@), name@) is None,
        },
{
    let wanted = String::from_str(name);
    let ghost all = named_attributes_view(attributes@);
    assert(all.subrange(0, all.len() as int) =~= all);
    let mut k: usize = 0;
    while k < attributes.len()
        invariant
            k <= attributes.len(),
            wanted@ == name@,
            all == named_attributes_view(attributes@),
            attribute_named(all, name@) == attribute_named(
                all.subrange(k as int, all.len() as int),
                name@,
            ),
        decreases attributes.len() - k,
    {
        let ghost rest = all.subrange(k as int, all.len() as int);
        assert(rest[0] == attributes@[k as int]@);
        if attributes[k].name == wanted {
            return Some(k);
        }
        assert(rest.subrange(1, rest.len() as int) =~= all.subrange(k + 1, all.len() as int));
        k += 1;
    }
    None
}

} // verus!
