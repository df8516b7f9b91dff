//! Patterns: what to look for in a module, and what to put in its place.

use vstd::prelude::*;
use crate::attribute::{
    attributes_equal, clone_attribute, texts_view, Attribute, AttributeView,
};
use crate::ir::ValueRef;
use crate::types::{clone_type, types_equal, Type, TypeView};

verus! {

/// One node of a pattern.
///
/// The nodes of a pattern stand in a list, and a node refers to other nodes
/// by their place in it. A node refers only to nodes that stand before it.
#[derive(Debug)]
pub enum PatternNode {
    /// Stands for a type: for the given one, or for any where none is given.
    Type { constant: Option<Type> },
    /// Stands for any value.
    Value,
    /// Stands for an attribute value: for the given one, or for any where
    /// none is given.
    Attribute { value: Option<Attribute> },
    /// Stands for an operation of the given name. `operands` are the nodes
    /// of its operands and `results` those of the types of its results, in
    /// order; the attribute named `attribute_names[k]` has the node
    /// `attribute_values[k]`.
    Operation {
        name: String,
        operands: Vec<usize>,
        attribute_names: Vec<String>,
        attribute_values: Vec<usize>,
        results: Vec<usize>,
    },
    /// Stands for the result `index` of the operation of the node `operation`.
    Result { operation: usize, index: usize },
}

/// The mathematical value of a [`PatternNode`].
pub enum PatternNodeView {
    Type { constant: Option<TypeView> },
    Value,
    Attribute { value: Option<AttributeView> },
    Operation {
        name: Seq<char>,
        operands: Seq<usize>,
        attribute_names: Seq<Seq<char>>,
        attribute_values: Seq<usize>,
        results: Seq<usize>,
    },
    Result { operation: usize, index: usize },
}

impl View for PatternNode {
    type V = PatternNodeView;

    open spec fn view(&self) -> PatternNodeView {
        match self {
            PatternNode::Type { constant } => PatternNodeView::Type {
                constant: match constant {
                    Some(ty) => Some(ty@),
                    None => None,
                },
            },
            PatternNode::Value => PatternNodeView::Value,
            PatternNode::Attribute { value } => PatternNodeView::Attribute {
                value: match value {
                    Some(attribute) => Some(attribute@),
                    None => None,
                },
            },
            PatternNode::Operation {
                name,
                operands,
                attribute_names,
                attribute_values,
                results,
            } => PatternNodeView::Operation {
                name: name@,
                operands: operands@,
                attribute_names: texts_view(attribute_names@),
                attribute_values: attribute_values@,
                results: results@,
            },
            PatternNode::Result { operation, index } => PatternNodeView::Result {
                operation: *operation,
                index: *index,
            },
        }
    }
}

/// A pattern that rewrites an operation into others.
///
/// The nodes before `matcher_len` describe what to look for, starting from
/// the node `root`, which stands for the operation to replace. The nodes
/// from `matcher_len` on describe what to build: an operation node there
/// stands for a new operation. `replacement[k]` is the node of the value
/// that takes the place of the result `k` of the replaced operation.
#[derive(Debug)]
pub struct RewritePattern {
    pub benefit: u16,
    pub nodes: Vec<PatternNode>,
    pub root: usize,
    pub matcher_len: usize,
    pub replacement: Vec<usize>,
}

/// The mathematical value of a [`RewritePattern`].
pub struct RewritePatternView {
    pub benefit: u16,
    pub nodes: Seq<PatternNodeView>,
    pub root: usize,
    pub matcher_len: usize,
    pub replacement: Seq<usize>,
}

impl View for RewritePattern {
    type V = RewritePatternView;

    open spec fn view(&self) -> RewritePatternView {
        RewritePatternView {
            benefit: self.benefit,
            nodes: Seq::new(self.nodes@.len(), |k: int| self.nodes@[k]@),
            root: self.root,
            matcher_len: self.matcher_len,
            replacement: self.replacement@,
        }
    }
}

/// A rule of rewriting: a pattern given by its nodes, or one of the rules
/// that are built in.
#[derive(Debug)]
pub enum Pattern {
    /// Replaces what the nodes of the pattern describe.
    Rewrite(RewritePattern),
    /// Replaces an arithmetic operation on two integer literals by the
    /// literal of its result.
    FoldConstants,
    /// Erases an arithmetic operation or a literal none of whose results is
    /// read.
    EraseUnused,
}

/// The mathematical value of a [`Pattern`].
pub enum PatternView {
    Rewrite(RewritePatternView),
    FoldConstants,
    EraseUnused,
}

impl View for Pattern {
    type V = PatternView;

    open spec fn view(&self) -> PatternView {
        match self {
            Pattern::Rewrite(pattern) => PatternView::Rewrite(pattern@),
            Pattern::FoldConstants => PatternView::FoldConstants,
            Pattern::EraseUnused => PatternView::EraseUnused,
        }
    }
}

impl PatternView {
    /// The benefit of applying the pattern: its own where it is given by
    /// nodes, 1 for a rule that is built in.
    pub open spec fn benefit(self) -> u16 {
        match self {
            PatternView::Rewrite(pattern) => pattern.benefit,
            PatternView::FoldConstants => 1,
            PatternView::EraseUnused => 1,
        }
    }
}

impl Pattern {
    /// The benefit of applying the pattern.
    pub fn benefit(&self) -> (benefit: u16)
        ensures
            benefit == self@.benefit(),
    {
        match self {
            Pattern::Rewrite(pattern) => pattern.benefit,
            Pattern::FoldConstants => 1,
            Pattern::EraseUnused => 1,
        }
    }
}

/// The views of a list of patterns, in order.
pub open spec fn patterns_view(patterns: Seq<Pattern>) -> Seq<PatternView> {
    Seq::new(patterns.len(), |k: int| patterns[k]@)
}

/// What a node of a pattern is bound to in a match.
#[derive(Debug)]
pub enum Binding {
    /// Nothing yet.
    Unbound,
    /// A value of the module.
    Value(ValueRef),
    /// A type.
    Type(Type),
    /// An attribute value.
    Attribute(Attribute),
    /// The operation of this number.
    Operation(usize),
}

/// The mathematical value of a [`Binding`].
pub enum BindingView {
    Unbound,
    Value(ValueRef),
    Type(TypeView),
    Attribute(AttributeView),
    Operation(usize),
}

impl View for Binding {
    type V = BindingView;

    open spec fn view(&self) -> BindingView {
        match self {
            Binding::Unbound => BindingView::Unbound,
            Binding::Value(value) => BindingView::Value(*value),
            Binding::Type(ty) => BindingView::Type(ty@),
            Binding::Attribute(attribute) => BindingView::Attribute(attribute@),
            Binding::Operation(operation) => BindingView::Operation(*operation),
        }
    }
}

/// The views of a list of bindings, in order.
pub open spec fn bindings_view(bindings: Seq<Binding>) -> Seq<BindingView> {
    Seq::new(bindings.len(), |k: int| bindings[k]@)
}

impl Binding {
    /// Whether two bindings are to the same thing.
    pub fn same(&self, other: &Binding) -> (equal: bool)
        ensures
            equal == (self@ == other@),
    {
        match (self, other) {
            (Binding::Unbound, Binding::Unbound) => true,
            (Binding::Value(a), Binding::Value(b)) => *a == *b,
            (Binding::Type(a), Binding::Type(b)) => types_equal(a, b),
            (Binding::Attribute(a), Binding::Attribute(b)) => attributes_equal(a, b),
            (Binding::Operation(a), Binding::Operation(b)) => *a == *b,
            _ => false,
        }
    }
}

impl Clone for Binding {
    fn clone(&self) -> (copy: Self)
        ensures
            copy@ == self@,
    {
        match self {
            Binding::Unbound => Binding::Unbound,
            Binding::Value(value) => Binding::Value(*value),
            Binding::Type(ty) => Binding::Type(clone_type(ty)),
            Binding::Attribute(attribute) => Binding::Attribute(clone_attribute(attribute)),
            Binding::Operation(operation) => Binding::Operation(*operation),
        }
    }
}

} // verus!
