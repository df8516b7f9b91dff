//! Matching the nodes of a pattern against the operations of a module.
//!
//! A match starts with the root node bound to a candidate operation. The
//! nodes are then visited from the root down to the first: a bound node is
//! held against what it is bound to, and binds the nodes that it refers to.
//! A node is bound on its first use and must be bound to the same thing on
//! every later one. Since a node refers only to nodes before it, each node
//! is visited after every node that can bind it.

use vstd::prelude::*;
use crate::attribute::{
    attribute_named, attributes_equal, clone_attribute, find_attribute, named_attributes_view, texts_view,
    AttributeView, NamedAttribute,
};
use crate::ir::{Module, ModuleView, Operation, OperationView, ValueRef};
use crate::pattern::{
    bindings_view, Binding, BindingView, PatternNode, PatternNodeView, RewritePattern,
    RewritePatternView,
};
use crate::types::{clone_type, types_equal, types_view, Type, TypeView};

verus! {

/// Binds the node `node` to `binding`, or holds it against what it is bound
/// to already. The node must stand before `limit`.
pub open spec fn unify(env: Seq<BindingView>, node: usize, binding: BindingView, limit: int) -> Option<
    Seq<BindingView>,
> {
    if node >= limit || node >= env.len() {
        None
    } else if env[node as int] is Unbound {
        Some(env.update(node as int, binding))
    } else if env[node as int] == binding {
        Some(env)
    } else {
        None
    }
}

/// Unifies the nodes `nodes[from..]` with the bindings at the same places of
/// `bindings`, one after the other.
pub open spec fn unify_all(
    env: Seq<BindingView>,
    nodes: Seq<usize>,
    bindings: Seq<BindingView>,
    limit: int,
    from: int,
) -> Option<Seq<BindingView>>
    decreases nodes.len() - from,
{
    if from < 0 || from >= nodes.len() {
        Some(env)
    } else if from >= bindings.len() {
        None
    } else {
        match unify(env, nodes[from], bindings[from], limit) {
            Some(next) => unify_all(next, nodes, bindings, limit, from + 1),
            None => None,
        }
    }
}

/// The bindings to the values of a list, in order.
pub open spec fn value_bindings(values: Seq<ValueRef>) -> Seq<BindingView> {
    Seq::new(values.len(), |k: int| BindingView::Value(values[k]))
}

/// The bindings to the types of a list, in order.
pub open spec fn type_bindings(types: Seq<TypeView>) -> Seq<BindingView> {
    Seq::new(types.len(), |k: int| BindingView::Type(types[k]))
}

/// The bindings to the values that `attributes` holds under each of
/// `names`, in order; none if one of the names is missing.
pub open spec fn attribute_bindings(
    attributes: Seq<(Seq<char>, AttributeView)>,
    names: Seq<Seq<char>>,
) -> Option<Seq<BindingView>> {
    if forall|k: int| 0 <= k < names.len() ==> attribute_named(attributes, #[trigger] names[k])
        is Some {
        Some(
            Seq::new(
                names.len(),
                |k: int| BindingView::Attribute(attribute_named(attributes, names[k])->0),
            ),
        )
    } else {
        None
    }
}

/// Holds the operation node at `at` against the operation `op`: the name
/// and the numbers of operands and results must agree, and every attribute
/// that the node names must be there. The nodes of the operands, of the
/// result types and of the attributes are then unified with what `op` has.
pub open spec fn visit_operation(
    env: Seq<BindingView>,
    at: int,
    op: OperationView,
    node: PatternNodeView,
) -> Option<Seq<BindingView>>
    recommends
        node is Operation,
{
    let name = node->name;
    let operands = node->operands;
    let attribute_names = node->attribute_names;
    let attribute_values = node->attribute_values;
    let results = node->results;
    if op.name != name || operands.len() != op.operands.len() || results.len()
        != op.results.len() || attribute_names.len() != attribute_values.len() {
        None
    } else {
        match attribute_bindings(op.attributes, attribute_names) {
            None => None,
            Some(found) => match unify_all(env, operands, value_bindings(op.operands), at, 0) {
                None => None,
                Some(first) => match unify_all(first, results, type_bindings(op.results), at, 0) {
                    None => None,
                    Some(second) => unify_all(second, attribute_values, found, at, 0),
                },
            },
        }
    }
}

/// Visits the node at `at`: where it is bound, holds it against what it is
/// bound to and binds the nodes that it refers to.
pub open spec fn visit(
    module: ModuleView,
    nodes: Seq<PatternNodeView>,
    env: Seq<BindingView>,
    at: int,
) -> Option<Seq<BindingView>>
    recommends
        0 <= at < nodes.len(),
        nodes.len() == env.len(),
{
    match env[at] {
        BindingView::Unbound => Some(env),
        bound => match nodes[at] {
            PatternNodeView::Value => if bound is Value {
                Some(env)
            } else {
                None
            },
            PatternNodeView::Type { constant } => match bound {
                BindingView::Type(ty) => if constant is None || constant == Some(ty) {
                    Some(env)
                } else {
                    None
                },
                _ => None,
            },
            PatternNodeView::Attribute { value } => match bound {
                BindingView::Attribute(attribute) => if value is None || value == Some(
                    attribute,
                ) {
                    Some(env)
                } else {
                    None
                },
                _ => None,
            },
            PatternNodeView::Result { operation, index } => match bound {
                BindingView::Value(ValueRef::OperationResult { operation: source, index: place }) => {
                    if place == index {
                        unify(env, operation, BindingView::Operation(source), at)
                    } else {
                        None
                    }
                },
                _ => None,
            },
            PatternNodeView::Operation { .. } => match bound {
                BindingView::Operation(id) => if id < module.operations.len() {
                    visit_operation(env, at, module.operations[id as int], nodes[at])
                } else {
                    None
                },
                _ => None,
            },
        },
    }
}

/// Visits the nodes before `count`, from the last to the first.
pub open spec fn match_below(
    module: ModuleView,
    nodes: Seq<PatternNodeView>,
    env: Seq<BindingView>,
    count: int,
) -> Option<Seq<BindingView>>
    decreases count,
{
    if count <= 0 {
        Some(env)
    } else {
        match visit(module, nodes, env, count - 1) {
            Some(next) => match_below(module, nodes, next, count - 1),
            None => None,
        }
    }
}

/// The bindings in which only the root is bound, to `candidate`.
pub open spec fn initial_bindings(pattern: RewritePatternView, candidate: usize) -> Seq<
    BindingView,
> {
    Seq::new(pattern.nodes.len(), |k: int| BindingView::Unbound).update(
        pattern.root as int,
        BindingView::Operation(candidate),
    )
}

/// The bindings with which `pattern` matches at the operation `candidate`,
/// if it does. The candidate must not be erased, and the root must be an
/// operation node among those that describe what to look for.
pub open spec fn matched(module: ModuleView, pattern: RewritePatternView, candidate: usize) -> Option<
    Seq<BindingView>,
> {
    if pattern.root < pattern.matcher_len && pattern.matcher_len <= pattern.nodes.len()
        && pattern.nodes[pattern.root as int] is Operation && module.is_live(candidate as int) {
        match_below(module, pattern.nodes, initial_bindings(pattern, candidate), pattern.root + 1)
    } else {
        None
    }
}

/// Binds the node `node` to `binding`, or holds it against what it is bound
/// to already. Says whether that went well.
fn unify_one(env: &mut Vec<Binding>, node: usize, binding: Binding, limit: usize) -> (unified: bool)
    ensures
        final(env)@.len() == old(env)@.len(),
        match unify(bindings_view(old(env)@), node, binding@, limit as int) {
            Some(next) => unified && bindings_view(final(env)@) == next,
            None => !unified,
        },
{
    if node >= limit || node >= env.len() {
        return false;
    }
    let unbound = match &env[node] {
        Binding::Unbound => true,
        _ => false,
    };
    if unbound {
        env.set(node, binding);
        proof {
            assert(bindings_view(env@) =~= bindings_view(old(env)@).update(node as int, binding@));
        }
        true
    } else {
        env[node].same(&binding)
    }
}

/// Unifies the nodes `nodes` with the bindings at the same places of
/// `bindings`, one after the other. Says whether that went well.
fn unify_each(env: &mut Vec<Binding>, nodes: &Vec<usize>, bindings: &Vec<Binding>, limit: usize) -> (unified:
    bool)
    ensures
        final(env)@.len() == old(env)@.len(),
        match unify_all(bindings_view(old(env)@), nodes@, bindings_view(bindings@), limit as int, 0) {
            Some(next) => unified && bindings_view(final(env)@) == next,
            None => !unified,
        },
{
    let mut k: usize = 0;
    while k < nodes.len()
        invariant
            k <= nodes.len(),
            env@.len() == old(env)@.len(),
            unify_all(bindings_view(old(env)@), nodes@, bindings_view(bindings@), limit as int, 0)
                == unify_all(
                bindings_view(env@),
                nodes@,
                bindings_view(bindings@),
                limit as int,
                k as int,
            ),
        decreases nodes.len() - k,
    {
        if k >= bindings.len() {
            return false;
        }
        if !unify_one(env, nodes[k], bindings[k].clone(), limit) {
            return false;
        }
        k += 1;
    }
    true
}

/// The bindings to the operands of `op`, in order.
fn operand_bindings(operands: &Vec<ValueRef>) -> (bindings: Vec<Binding>)
    ensures
        bindings_view(bindings@) == value_bindings(operands@),
{
    let mut bindings: Vec<Binding> = Vec::new();
    let mut k: usize = 0;
    while k < operands.len()
        invariant
            k <= operands.len(),
            bindings@.len() == k,
            forall|j: int| 0 <= j < k ==> (#[trigger] bindings@[j])@ == BindingView::Value(operands@[j]),
        decreases operands.len() - k,
    {
        bindings.push(Binding::Value(operands[k]));
        k += 1;
    }
    proof {
        assert(bindings_view(bindings@) =~= value_bindings(operands@));
    }
    bindings
}

/// The bindings to the types `types`, in order.
fn result_bindings(types: &Vec<Type>) -> (bindings: Vec<Binding>)
    ensures
        bindings_view(bindings@) == type_bindings(types_view(types@)),
{
    let mut bindings: Vec<Binding> = Vec::new();
    let mut k: usize = 0;
    while k < types.len()
        invariant
            k <= types.len(),
            bindings@.len() == k,
            forall|j: int| 0 <= j < k ==> (#[trigger] bindings@[j])@ == BindingView::Type(types@[j]@),
        decreases types.len() - k,
    {
        bindings.push(Binding::Type(clone_type(&types[k])));
        k += 1;
    }
    proof {
        assert(bindings_view(bindings@) =~= type_bindings(types_view(types@)));
    }
    bindings
}

/// The bindings to the values that `attributes` holds under each of
/// `names`, in order; none if one of the names is missing.
fn named_bindings(attributes: &Vec<NamedAttribute>, names: &Vec<String>) -> (bindings: Option<
    Vec<Binding>,
>)
    ensures
        match bindings {
            Some(found) => attribute_bindings(
                named_attributes_view(attributes@),
                texts_view(names@),
            ) == Some(bindings_view(found@)),
            None => attribute_bindings(named_attributes_view(attributes@), texts_view(names@))
                is None,
        },
{
    let ghost held = named_attributes_view(attributes@);
    let ghost wanted = texts_view(names@);
    let mut bindings: Vec<Binding> = Vec::new();
    let mut k: usize = 0;
    while k < names.len()
        invariant
            k <= names.len(),
            held == named_attributes_view(attributes@),
            wanted == texts_view(names@),
            bindings@.len() == k,
            forall|j: int| 0 <= j < k ==> attribute_named(held, #[trigger] wanted[j]) is Some,
            forall|j: int|
                0 <= j < k ==> (#[trigger] bindings@[j])@ == BindingView::Attribute(
                    attribute_named(held, wanted[j])->0,
                ),
        decreases names.len() - k,
    {
        match find_attribute(attributes, names[k].as_str()) {
            Some(at) => {
                bindings.push(Binding::Attribute(clone_attribute(&attributes[at].value)));
            },
            None => {
                assert(attribute_named(held, wanted[k as int]) is None);
                return None;
            },
        }
        k += 1;
    }
    proof {
        assert(bindings_view(bindings@) =~= attribute_bindings(held, wanted)->0);
    }
    Some(bindings)
}

/// Holds the operation node `node` at `at` against the operation `op`.
fn visit_operation_node(env: &mut Vec<Binding>, at: usize, op: &Operation, node: &PatternNode) -> (
    matched: bool)
    requires
        node@ is Operation,
    ensures
        final(env)@.len() == old(env)@.len(),
        match visit_operation(bindings_view(old(env)@), at as int, op@, node@) {
            Some(next) => matched && bindings_view(final(env)@) == next,
            None => !matched,
        },
{
    match node {
        PatternNode::Operation { name, operands, attribute_names, attribute_values, results } => {
            if op.name != *name || operands.len() != op.operands.len() || results.len()
                != op.results.len() || attribute_names.len() != attribute_values.len() {
                return false;
            }
            let found = match named_bindings(&op.attributes, attribute_names) {
                Some(found) => found,
                None => {
                    return false;
                },
            };
            let values = operand_bindings(&op.operands);
            if !unify_each(env, operands, &values, at) {
                return false;
            }
            let types = result_bindings(&op.results);
            if !unify_each(env, results, &types, at) {
                return false;
            }
            unify_each(env, attribute_values, &found, at)
        },
        _ => false,
    }
}

/// Visits the node at `at`.
fn visit_node(module: &Module, nodes: &Vec<PatternNode>, env: &mut Vec<Binding>, at: usize) -> (matched:
    bool)
    requires
        at < nodes@.len(),
        nodes@.len() == old(env)@.len(),
    ensures
        final(env)@.len() == old(env)@.len(),
        match visit(
            module@,
            Seq::new(nodes@.len(), |k: int| nodes@[k]@),
            bindings_view(old(env)@),
            at as int,
        ) {
            Some(next) => matched && bindings_view(final(env)@) == next,
            None => !matched,
        },
{
    let ghost views = Seq::new(nodes@.len(), |k: int| nodes@[k]@);
    assert(views[at as int] == nodes@[at as int]@);
    assert(bindings_view(env@)[at as int] == env@[at as int]@);
    let bound = env[at].clone();
    match bound {
        Binding::Unbound => true,
        Binding::Value(value) => match &nodes[at] {
            PatternNode::Value => true,
            PatternNode::Result { operation, index } => match value {
                ValueRef::OperationResult { operation: source, index: place } => {
                    if place == *index {
                        unify_one(env, *operation, Binding::Operation(source), at)
                    } else {
                        false
                    }
                },
                _ => false,
            },
            _ => false,
        },
        Binding::Type(ty) => match &nodes[at] {
            PatternNode::Type { constant } => match constant {
                Some(wanted) => types_equal(wanted, &ty),
                None => true,
            },
            _ => false,
        },
        Binding::Attribute(attribute) => match &nodes[at] {
            PatternNode::Attribute { value } => match value {
                Some(wanted) => attributes_equal(wanted, &attribute),
                None => true,
            },
            _ => false,
        },
        Binding::Operation(id) => match &nodes[at] {
            PatternNode::Operation { .. } => {
                if id < module.operation_count() {
                    visit_operation_node(env, at, module.operation(id), &nodes[at])
                } else {
                    false
                }
            },
            _ => false,
        },
    }
}

/// Matches `pattern` at the operation `candidate` of `module` and returns
/// the bindings of its nodes, if it matches.
pub fn match_pattern(module: &Module, pattern: &RewritePattern, candidate: usize) -> (found: Option<
    Vec<Binding>,
>)
    ensures
        match found {
            Some(env) => matched(module@, pattern@, candidate) == Some(bindings_view(env@)),
            None => matched(module@, pattern@, candidate) is None,
        },
{
    if pattern.root >= pattern.matcher_len || pattern.matcher_len > pattern.nodes.len() {
        return None;
    }
    assert(pattern@.nodes[pattern.root as int] == pattern.nodes@[pattern.root as int]@);
    match &pattern.nodes[pattern.root] {
        PatternNode::Operation { .. } => {},
        _ => {
            return None;
        },
    }
    if candidate >= module.operation_count() || module.operation(candidate).erased {
        return None;
    }
    let mut env: Vec<Binding> = Vec::new();
    let mut k: usize = 0;
    while k < pattern.nodes.len()
        invariant
            k <= pattern.nodes.len(),
            env@.len() == k,
            forall|j: int| 0 <= j < k ==> (#[trigger] env@[j])@ == BindingView::Unbound,
        decreases pattern.nodes.len() - k,
    {
        env.push(Binding::Unbound);
        k += 1;
    }
    env.set(pattern.root, Binding::Operation(candidate));
    proof {
        assert(bindings_view(env@) =~= initial_bindings(pattern@, candidate));
    }
    let ghost start = bindings_view(env@);
    let mut count: usize = pattern.root + 1;
    while count > 0
        invariant
            count <= pattern.root + 1,
            pattern.root < pattern.nodes@.len(),
            env@.len() == pattern.nodes@.len(),
            matched(module@, pattern@, candidate) == match_below(
                module@,
                pattern@.nodes,
                start,
                pattern.root + 1,
            ),
            match_below(module@, pattern@.nodes, start, pattern.root + 1) == match_below(
                module@,
                pattern@.nodes,
                bindings_view(env@),
                count as int,
            ),
        decreases count,
    {
        proof {
            assert(pattern@.nodes =~= Seq::new(
                pattern.nodes@.len(),
                |k: int| pattern.nodes@[k]@,
            ));
        }
        let ghost before = bindings_view(env@);
        if !visit_node(module, &pattern.nodes, &mut env, count - 1) {
            proof {
                assert(visit(module@, pattern@.nodes, before, count - 1) is None);
                assert(match_below(module@, pattern@.nodes, before, count as int) is None);
            }
            return None;
        }
        count -= 1;
    }
    Some(env)
}

} // verus!
