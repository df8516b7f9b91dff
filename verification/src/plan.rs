//! Planning a rewrite: from the bindings of a match to the operations that
//! take the place of the matched one.
//!
//! A plan is made in full before anything in the module changes. Where no
//! plan can be made, the pattern does not apply and the module is untouched.

use vstd::prelude::*;
use crate::attribute::{clone_attribute, texts_view, Attribute, AttributeView, NamedAttribute};
use crate::ir::{Module, ModuleView, Operation, OperationView, ValueRef};
use crate::scope::{in_scope, is_in_scope};
use crate::pattern::{
    bindings_view, Binding, BindingView, PatternNode, PatternNodeView, RewritePattern,
    RewritePatternView,
};
use crate::types::{clone_type, types_view, Type, TypeView};

verus! {

/// What a rewrite puts in the place of an operation.
#[derive(Debug)]
pub struct Plan {
    /// The new operations, in the order in which they are created. They are
    /// entered, in this order, just before the operation that is replaced.
    pub operations: Vec<Operation>,
    /// For each result of the replaced operation, the value that is read in
    /// its place from now on.
    pub replacement: Vec<ValueRef>,
}

/// The mathematical value of a [`Plan`].
pub struct PlanView {
    pub operations: Seq<OperationView>,
    pub replacement: Seq<ValueRef>,
}

/// The views of a list of operations that are not part of a module yet.
pub open spec fn created_view(operations: Seq<Operation>) -> Seq<OperationView> {
    Seq::new(operations.len(), |k: int| operations[k]@)
}

impl View for Plan {
    type V = PlanView;

    open spec fn view(&self) -> PlanView {
        PlanView { operations: created_view(self.operations@), replacement: self.replacement@ }
    }
}

/// The module with the operations `created` at the end of its arena.
pub open spec fn extended(module: ModuleView, created: Seq<OperationView>) -> ModuleView {
    ModuleView { operations: module.operations + created, blocks: module.blocks }
}

/// Whether `value` is a result of the operation `root`.
pub open spec fn is_result_of(value: ValueRef, root: usize) -> bool {
    match value {
        ValueRef::OperationResult { operation, index } => operation == root,
        _ => false,
    }
}

/// Whether `value` is a result of an operation that the module does not
/// hold yet.
pub open spec fn is_created(module: ModuleView, value: ValueRef) -> bool {
    match value {
        ValueRef::OperationResult { operation, index } => operation >= module.operations.len(),
        _ => false,
    }
}

/// Whether a new operation may read `value`, or `value` may stand for a
/// result of the replaced operation `root`: the module or one of the new
/// operations defines it, it is no result of `root` itself, and, unless a
/// new operation defines it, it is in scope for `root`.
pub open spec fn usable(
    module: ModuleView,
    created: Seq<OperationView>,
    root: usize,
    value: ValueRef,
) -> bool {
    &&& extended(module, created).defines(value)
    &&& !is_result_of(value, root)
    &&& is_created(module, value) || in_scope(module, root as int, value)
}

/// Whether every one of `values` is usable.
pub open spec fn all_usable(
    module: ModuleView,
    created: Seq<OperationView>,
    root: usize,
    values: Seq<ValueRef>,
) -> bool {
    forall|k: int| 0 <= k < values.len() ==> usable(module, created, root, #[trigger] values[k])
}

/// The value that the node `node` is bound to, if it stands before `limit`
/// and is bound to one.
pub open spec fn value_at(env: Seq<BindingView>, node: usize, limit: int) -> Option<ValueRef> {
    if node < limit && node < env.len() {
        match env[node as int] {
            BindingView::Value(value) => Some(value),
            _ => None,
        }
    } else {
        None
    }
}

/// The type that the node `node` is bound to, if it stands before `limit`
/// and is bound to one.
pub open spec fn type_at(env: Seq<BindingView>, node: usize, limit: int) -> Option<TypeView> {
    if node < limit && node < env.len() {
        match env[node as int] {
            BindingView::Type(ty) => Some(ty),
            _ => None,
        }
    } else {
        None
    }
}

/// The attribute value that the node `node` is bound to, if it stands before
/// `limit` and is bound to one.
pub open spec fn attribute_at(env: Seq<BindingView>, node: usize, limit: int) -> Option<
    AttributeView,
> {
    if node < limit && node < env.len() {
        match env[node as int] {
            BindingView::Attribute(attribute) => Some(attribute),
            _ => None,
        }
    } else {
        None
    }
}

/// The values that the nodes `nodes` are bound to, if each is bound to one.
pub open spec fn bound_values(env: Seq<BindingView>, nodes: Seq<usize>, limit: int) -> Option<
    Seq<ValueRef>,
> {
    if forall|k: int| 0 <= k < nodes.len() ==> value_at(env, #[trigger] nodes[k], limit) is Some {
        Some(Seq::new(nodes.len(), |k: int| value_at(env, nodes[k], limit)->0))
    } else {
        None
    }
}

/// The types that the nodes `nodes` are bound to, if each is bound to one.
pub open spec fn bound_types(env: Seq<BindingView>, nodes: Seq<usize>, limit: int) -> Option<
    Seq<TypeView>,
> {
    if forall|k: int| 0 <= k < nodes.len() ==> type_at(env, #[trigger] nodes[k], limit) is Some {
        Some(Seq::new(nodes.len(), |k: int| type_at(env, nodes[k], limit)->0))
    } else {
        None
    }
}

/// The attributes named `names` with the values that the nodes `nodes` are
/// bound to, if each is bound to one and there is a node for every name.
pub open spec fn bound_attributes(
    env: Seq<BindingView>,
    names: Seq<Seq<char>>,
    nodes: Seq<usize>,
    limit: int,
) -> Option<Seq<(Seq<char>, AttributeView)>> {
    if names.len() == nodes.len() && forall|k: int|
        0 <= k < nodes.len() ==> attribute_at(env, #[trigger] nodes[k], limit) is Some {
        Some(Seq::new(nodes.len(), |k: int| (names[k], attribute_at(env, nodes[k], limit)->0)))
    } else {
        None
    }
}

/// The new operation that the operation node `node` at `at` stands for, if
/// all that it refers to is bound and usable. The operation has no regions
/// and stands in the block `parent`.
pub open spec fn planned_operation(
    module: ModuleView,
    root: usize,
    env: Seq<BindingView>,
    created: Seq<OperationView>,
    at: int,
    node: PatternNodeView,
) -> Option<OperationView>
    recommends
        node is Operation,
{
    match (
        bound_values(env, node->operands, at),
        bound_types(env, node->results, at),
        bound_attributes(env, node->attribute_names, node->attribute_values, at),
    ) {
        (Some(operands), Some(results), Some(attributes)) => {
            if all_usable(module, created, root, operands) {
                Some(
                    OperationView {
                        name: node->name,
                        operands,
                        results,
                        attributes,
                        regions: Seq::empty(),
                        parent: module.operations[root as int].parent,
                        erased: false,
                    },
                )
            } else {
                None
            }
        },
        _ => None,
    }
}

/// The bindings and the new operations after the node at `at` of the part
/// of a pattern that says what to build.
///
/// A type or attribute node must give its constant and is bound to it. A
/// result node is bound to the result of the operation, matched or new, of
/// the node that it names. An operation node makes a new operation and is
/// bound to it.
pub open spec fn plan_node(
    module: ModuleView,
    root: usize,
    nodes: Seq<PatternNodeView>,
    env: Seq<BindingView>,
    created: Seq<OperationView>,
    at: int,
) -> Option<(Seq<BindingView>, Seq<OperationView>)>
    recommends
        0 <= at < nodes.len(),
        nodes.len() == env.len(),
{
    match nodes[at] {
        PatternNodeView::Type { constant: Some(ty) } => Some(
            (env.update(at, BindingView::Type(ty)), created),
        ),
        PatternNodeView::Attribute { value: Some(attribute) } => Some(
            (env.update(at, BindingView::Attribute(attribute)), created),
        ),
        PatternNodeView::Result { operation, index } => {
            if operation < at {
                match env[operation as int] {
                    BindingView::Operation(source) => {
                        let value = ValueRef::OperationResult { operation: source, index };
                        if extended(module, created).defines(value) {
                            Some((env.update(at, BindingView::Value(value)), created))
                        } else {
                            None
                        }
                    },
                    _ => None,
                }
            } else {
                None
            }
        },
        PatternNodeView::Operation { .. } => {
            if module.operations.len() + created.len() < usize::MAX {
                match planned_operation(module, root, env, created, at, nodes[at]) {
                    Some(op) => Some(
                        (
                            env.update(
                                at,
                                BindingView::Operation(
                                    (module.operations.len() + created.len()) as usize,
                                ),
                            ),
                            created.push(op),
                        ),
                    ),
                    None => None,
                }
            } else {
                None
            }
        },
        _ => None,
    }
}

/// The bindings and the new operations after the nodes from `at` on.
pub open spec fn plan_from(
    module: ModuleView,
    root: usize,
    nodes: Seq<PatternNodeView>,
    env: Seq<BindingView>,
    created: Seq<OperationView>,
    at: int,
) -> Option<(Seq<BindingView>, Seq<OperationView>)>
    decreases nodes.len() - at,
{
    if at < 0 || at >= nodes.len() {
        Some((env, created))
    } else {
        match plan_node(module, root, nodes, env, created, at) {
            Some((next, more)) => plan_from(module, root, nodes, next, more, at + 1),
            None => None,
        }
    }
}

/// The plan of `pattern` for the operation `root` under the bindings `env`
/// of a match, if there is one: the new operations that the pattern
/// describes, and for each result of `root` a usable value in its place.
pub open spec fn plan(
    module: ModuleView,
    pattern: RewritePatternView,
    root: usize,
    env: Seq<BindingView>,
) -> Option<PlanView> {
    if root < module.operations.len() && env.len() == pattern.nodes.len() {
        match plan_from(module, root, pattern.nodes, env, Seq::empty(), pattern.matcher_len as int) {
            Some((bound, created)) => match bound_values(
                bound,
                pattern.replacement,
                pattern.nodes.len() as int,
            ) {
                Some(replacement) => {
                    if replacement.len() == module.operations[root as int].results.len()
                        && all_usable(module, created, root, replacement) {
                        Some(PlanView { operations: created, replacement })
                    } else {
                        None
                    }
                },
                None => None,
            },
            None => None,
        }
    } else {
        None
    }
}

/// Whether `plan` can be carried out on `module` for the operation `root`
/// without leaving an index out of range: the new operations stand in the
/// block of `root`, own no regions and read only what will be defined, and
/// so do the values that take the place of the results of `root`.
pub open spec fn plan_in_range(module: ModuleView, root: usize, plan: PlanView) -> bool {
    &&& root < module.operations.len()
    &&& module.operations.len() + plan.operations.len() <= usize::MAX
    &&& forall|k: int|
        0 <= k < plan.operations.len() ==> {
            let op = #[trigger] plan.operations[k];
            &&& op.parent == module.operations[root as int].parent
            &&& op.regions.len() == 0
            &&& forall|j: int|
                0 <= j < op.operands.len() ==> extended(module, plan.operations).defines(
                    #[trigger] op.operands[j],
                )
        }
    &&& forall|k: int|
        0 <= k < plan.replacement.len() ==> extended(module, plan.operations).defines(
            #[trigger] plan.replacement[k],
        )
}

/// Whether the module or one of the operations `created` defines `value`.
fn is_defined(module: &Module, created: &Vec<Operation>, value: ValueRef) -> (defined: bool)
    ensures
        defined == extended(module@, created_view(created@)).defines(value),
{
    match value {
        ValueRef::BlockArgument { block, index } => module.value_type(value).is_some(),
        ValueRef::OperationResult { operation, index } => {
            let count = module.operation_count();
            if operation < count {
                module.value_type(value).is_some()
            } else if operation - count < created.len() {
                assert(extended(module@, created_view(created@)).operations[operation as int]
                    == created@[operation - count]@);
                index < created[operation - count].results.len()
            } else {
                false
            }
        },
    }
}

/// Whether every one of `values` is usable.
fn are_usable(module: &Module, created: &Vec<Operation>, root: usize, values: &Vec<ValueRef>) -> (fine:
    bool)
    requires
        module@.wf(),
    ensures
        fine == all_usable(module@, created_view(created@), root, values@),
{
    let count = module.operation_count();
    let mut k: usize = 0;
    while k < values.len()
        invariant
            k <= values.len(),
            module@.wf(),
            count == module@.operations.len(),
            forall|j: int|
                0 <= j < k ==> usable(
                    module@,
                    created_view(created@),
                    root,
                    #[trigger] values@[j],
                ),
        decreases values.len() - k,
    {
        let own = match values[k] {
            ValueRef::OperationResult { operation, index } => operation == root,
            _ => false,
        };
        if own || !is_defined(module, created, values[k]) {
            return false;
        }
        let new = match values[k] {
            ValueRef::OperationResult { operation, index } => operation >= count,
            _ => false,
        };
        if !new && !is_in_scope(module, root, values[k]) {
            return false;
        }
        k += 1;
    }
    true
}

/// The values that the nodes `nodes` are bound to, if each is bound to one.
fn values_of(env: &Vec<Binding>, nodes: &Vec<usize>, limit: usize) -> (found: Option<Vec<ValueRef>>)
    ensures
        match found {
            Some(values) => bound_values(bindings_view(env@), nodes@, limit as int) == Some(
                values@,
            ),
            None => bound_values(bindings_view(env@), nodes@, limit as int) is None,
        },
{
    let ghost bound = bindings_view(env@);
    let mut values: Vec<ValueRef> = Vec::new();
    let mut k: usize = 0;
    while k < nodes.len()
        invariant
            k <= nodes.len(),
            bound == bindings_view(env@),
            values@.len() == k,
            forall|j: int| 0 <= j < k ==> value_at(bound, #[trigger] nodes@[j], limit as int) is Some,
            forall|j: int|
                0 <= j < k ==> (#[trigger] values@[j]) == value_at(bound, nodes@[j], limit as int)->0,
        decreases nodes.len() - k,
    {
        let node = nodes[k];
        if node >= limit || node >= env.len() {
            assert(value_at(bound, nodes@[k as int], limit as int) is None);
            return None;
        }
        match &env[node] {
            Binding::Value(value) => {
                values.push(*value);
            },
            _ => {
                assert(value_at(bound, nodes@[k as int], limit as int) is None);
                return None;
            },
        }
        k += 1;
    }
    proof {
        assert(values@ =~= bound_values(bound, nodes@, limit as int)->0);
    }
    Some(values)
}

/// The types that the nodes `nodes` are bound to, if each is bound to one.
fn types_of(env: &Vec<Binding>, nodes: &Vec<usize>, limit: usize) -> (found: Option<Vec<Type>>)
    ensures
        match found {
            Some(types) => bound_types(bindings_view(env@), nodes@, limit as int) == Some(
                types_view(types@),
            ),
            None => bound_types(bindings_view(env@), nodes@, limit as int) is None,
        },
{
    let ghost bound = bindings_view(env@);
    let mut types: Vec<Type> = Vec::new();
    let mut k: usize = 0;
    while k < nodes.len()
        invariant
            k <= nodes.len(),
            bound == bindings_view(env@),
            types@.len() == k,
            forall|j: int| 0 <= j < k ==> type_at(bound, #[trigger] nodes@[j], limit as int) is Some,
            forall|j: int|
                0 <= j < k ==> (#[trigger] types@[j])@ == type_at(bound, nodes@[j], limit as int)->0,
        decreases nodes.len() - k,
    {
        let node = nodes[k];
        if node >= limit || node >= env.len() {
            assert(type_at(bound, nodes@[k as int], limit as int) is None);
            return None;
        }
        match &env[node] {
            Binding::Type(ty) => {
                types.push(clone_type(ty));
            },
            _ => {
                assert(type_at(bound, nodes@[k as int], limit as int) is None);
                return None;
            },
        }
        k += 1;
    }
    proof {
        assert(types_view(types@) =~= bound_types(bound, nodes@, limit as int)->0);
    }
    Some(types)
}

/// The attributes named `names` with the values that the nodes `nodes` are
/// bound to, if each is bound to one and there is a node for every name.
fn attributes_of(env: &Vec<Binding>, names: &Vec<String>, nodes: &Vec<usize>, limit: usize) -> (found:
    Option<Vec<NamedAttribute>>)
    ensures
        match found {
            Some(attributes) => bound_attributes(
                bindings_view(env@),
                texts_view(names@),
                nodes@,
                limit as int,
            ) == Some(crate::attribute::named_attributes_view(attributes@)),
            None => bound_attributes(bindings_view(env@), texts_view(names@), nodes@, limit as int)
                is None,
        },
{
    if names.len() != nodes.len() {
        return None;
    }
    let ghost bound = bindings_view(env@);
    let mut attributes: Vec<NamedAttribute> = Vec::new();
    let mut k: usize = 0;
    while k < nodes.len()
        invariant
            k <= nodes.len(),
            names.len() == nodes.len(),
            bound == bindings_view(env@),
            attributes@.len() == k,
            forall|j: int|
                0 <= j < k ==> attribute_at(bound, #[trigger] nodes@[j], limit as int) is Some,
            forall|j: int|
                0 <= j < k ==> (#[trigger] attributes@[j])@ == (
                    names@[j]@,
                    attribute_at(bound, nodes@[j], limit as int)->0,
                ),
        decreases nodes.len() - k,
    {
        let node = nodes[k];
        if node >= limit || node >= env.len() {
            assert(attribute_at(bound, nodes@[k as int], limit as int) is None);
            return None;
        }
        match &env[node] {
            Binding::Attribute(value) => {
                attributes.push(
                    NamedAttribute { name: names[k].clone(), value: clone_attribute(value) },
                );
            },
            _ => {
                assert(attribute_at(bound, nodes@[k as int], limit as int) is None);
                return None;
            },
        }
        k += 1;
    }
    proof {
        assert(crate::attribute::named_attributes_view(attributes@) =~= bound_attributes(
            bound,
            texts_view(names@),
            nodes@,
            limit as int,
        )->0);
    }
    Some(attributes)
}

/// The new operation that the operation node `node` at `at` stands for.
fn plan_operation(
    module: &Module,
    root: usize,
    env: &Vec<Binding>,
    created: &Vec<Operation>,
    at: usize,
    node: &PatternNode,
) -> (planned: Option<Operation>)
    requires
        node@ is Operation,
        root < module@.operations.len(),
        module@.wf(),
    ensures
        match planned {
            Some(op) => planned_operation(
                module@,
                root,
                bindings_view(env@),
                created_view(created@),
                at as int,
                node@,
            ) == Some(op@),
            None => planned_operation(
                module@,
                root,
                bindings_view(env@),
                created_view(created@),
                at as int,
                node@,
            ) is None,
        },
{
    match node {
        PatternNode::Operation { name, operands, attribute_names, attribute_values, results } => {
            let values = match values_of(env, operands, at) {
                Some(values) => values,
                None => {
                    return None;
                },
            };
            let types = match types_of(env, results, at) {
                Some(types) => types,
                None => {
                    return None;
                },
            };
            let attributes = match attributes_of(env, attribute_names, attribute_values, at) {
                Some(attributes) => attributes,
                None => {
                    return None;
                },
            };
            if !are_usable(module, created, root, &values) {
                return None;
            }
            let op = Operation {
                name: name.clone(),
                operands: values,
                results: types,
                attributes,
                regions: Vec::new(),
                parent: module.operation(root).parent,
                erased: false,
            };
            proof {
                assert(op@.regions =~= Seq::empty());
            }
            Some(op)
        },
        _ => None,
    }
}

/// Carries the node at `at` of the part of a pattern that says what to
/// build into the bindings and the list of new operations. Says whether
/// that went well.
fn plan_one(
    module: &Module,
    root: usize,
    nodes: &Vec<PatternNode>,
    env: &mut Vec<Binding>,
    created: &mut Vec<Operation>,
    at: usize,
) -> (planned: bool)
    requires
        at < nodes@.len(),
        nodes@.len() == old(env)@.len(),
        root < module@.operations.len(),
        module@.wf(),
    ensures
        final(env)@.len() == old(env)@.len(),
        match plan_node(
            module@,
            root,
            Seq::new(nodes@.len(), |k: int| nodes@[k]@),
            bindings_view(old(env)@),
            created_view(old(created)@),
            at as int,
        ) {
            Some((bound, more)) => planned && bindings_view(final(env)@) == bound && created_view(
                final(created)@,
            ) == more,
            None => !planned,
        },
{
    let ghost views = Seq::new(nodes@.len(), |k: int| nodes@[k]@);
    let ghost bound = bindings_view(env@);
    assert(views[at as int] == nodes@[at as int]@);
    match &nodes[at] {
        PatternNode::Type { constant: Some(ty) } => {
            env.set(at, Binding::Type(clone_type(ty)));
            proof {
                assert(bindings_view(env@) =~= bound.update(at as int, BindingView::Type(ty@)));
            }
            true
        },
        PatternNode::Attribute { value: Some(attribute) } => {
            env.set(at, Binding::Attribute(clone_attribute(attribute)));
            proof {
                assert(bindings_view(env@) =~= bound.update(
                    at as int,
                    BindingView::Attribute(attribute@),
                ));
            }
            true
        },
        PatternNode::Result { operation, index } => {
            if *operation >= at {
                return false;
            }
            assert(bound[*operation as int] == env@[*operation as int]@);
            let source = match &env[*operation] {
                Binding::Operation(source) => *source,
                _ => {
                    return false;
                },
            };
            let value = ValueRef::OperationResult { operation: source, index: *index };
            if !is_defined(module, created, value) {
                return false;
            }
            env.set(at, Binding::Value(value));
            proof {
                assert(bindings_view(env@) =~= bound.update(at as int, BindingView::Value(value)));
            }
            true
        },
        PatternNode::Operation { .. } => {
            let count = module.operation_count();
            if created.len() >= usize::MAX - count {
                return false;
            }
            let op = match plan_operation(module, root, env, created, at, &nodes[at]) {
                Some(op) => op,
                None => {
                    return false;
                },
            };
            let id = count + created.len();
            let ghost before = created_view(created@);
            created.push(op);
            env.set(at, Binding::Operation(id));
            proof {
                assert(created_view(created@) =~= before.push(op@));
                assert(bindings_view(env@) =~= bound.update(at as int, BindingView::Operation(id)));
            }
            true
        },
        _ => false,
    }
}

/// Makes the plan of `pattern` for the operation `root` under the bindings
/// `env` of a match, if there is one.
pub fn make_plan(module: &Module, pattern: &RewritePattern, root: usize, env: Vec<Binding>) -> (made:
    Option<Plan>)
    requires
        module@.wf(),
    ensures
        match made {
            Some(found) => plan(module@, pattern@, root, bindings_view(env@)) == Some(found@),
            None => plan(module@, pattern@, root, bindings_view(env@)) is None,
        },
{
    if root >= module.operation_count() || env.len() != pattern.nodes.len() {
        return None;
    }
    let ghost start = bindings_view(env@);
    let mut working = env;
    let mut created: Vec<Operation> = Vec::new();
    let mut at: usize = pattern.matcher_len;
    proof {
        assert(created_view(created@) =~= Seq::empty());
    }
    while at < pattern.nodes.len()
        invariant
            root < module@.operations.len(),
            module@.wf(),
            working@.len() == pattern.nodes@.len(),
            start == bindings_view(env@),
            start.len() == pattern.nodes@.len(),
            plan_from(
                module@,
                root,
                pattern@.nodes,
                start,
                Seq::empty(),
                pattern.matcher_len as int,
            ) == plan_from(
                module@,
                root,
                pattern@.nodes,
                bindings_view(working@),
                created_view(created@),
                at as int,
            ),
        decreases pattern.nodes.len() - at,
    {
        proof {
            assert(pattern@.nodes =~= Seq::new(
                pattern.nodes@.len(),
                |k: int| pattern.nodes@[k]@,
            ));
        }
        let ghost bound = bindings_view(working@);
        let ghost made = created_view(created@);
        if !plan_one(module, root, &pattern.nodes, &mut working, &mut created, at) {
            proof {
                assert(plan_node(module@, root, pattern@.nodes, bound, made, at as int) is None);
                assert(plan_from(module@, root, pattern@.nodes, bound, made, at as int) is None);
            }
            return None;
        }
        at += 1;
    }
    let replacement = match values_of(&working, &pattern.replacement, pattern.nodes.len()) {
        Some(replacement) => replacement,
        None => {
            return None;
        },
    };
    if replacement.len() != module.operation(root).results.len() || !are_usable(
        module,
        &created,
        root,
        &replacement,
    ) {
        return None;
    }
    Some(Plan { operations: created, replacement })
}

/// A plan made from a match on a well-formed module can be carried out
/// without leaving an index out of range.
pub proof fn lemma_plan_in_range(
    module: ModuleView,
    pattern: RewritePatternView,
    root: usize,
    env: Seq<BindingView>,
)
    requires
        module.operations.len() <= usize::MAX,
        plan(module, pattern, root, env) is Some,
    ensures
        plan_in_range(module, root, plan(module, pattern, root, env)->0),
{
    let made = plan(module, pattern, root, env)->0;
    lemma_plan_from_in_range(
        module,
        root,
        pattern.nodes,
        env,
        Seq::empty(),
        pattern.matcher_len as int,
    );
    assert forall|k: int| 0 <= k < made.replacement.len() implies extended(
        module,
        made.operations,
    ).defines(#[trigger] made.replacement[k]) by {
        assert(usable(module, made.operations, root, made.replacement[k]));
    }
}

/// Whether the operations `created` could stand in a plan for `root`: each
/// stands in the block of `root`, owns no regions, and reads only what the
/// module or the operations created so far define.
pub open spec fn created_in_range(module: ModuleView, root: usize, created: Seq<OperationView>) -> bool {
    &&& module.operations.len() + created.len() <= usize::MAX
    &&& forall|k: int|
        0 <= k < created.len() ==> {
            let op = #[trigger] created[k];
            &&& op.parent == module.operations[root as int].parent
            &&& op.regions.len() == 0
            &&& forall|j: int|
                0 <= j < op.operands.len() ==> extended(module, created).defines(
                    #[trigger] op.operands[j],
                )
        }
}

/// The new operations of a planning that went well.
pub open spec fn planned_operations(
    outcome: Option<(Seq<BindingView>, Seq<OperationView>)>,
) -> Seq<OperationView>
    recommends
        outcome is Some,
{
    let (bound, created) = outcome->0;
    created
}

/// Planning keeps the list of new operations in range.
pub proof fn lemma_plan_from_in_range(
    module: ModuleView,
    root: usize,
    nodes: Seq<PatternNodeView>,
    env: Seq<BindingView>,
    created: Seq<OperationView>,
    at: int,
)
    requires
        created_in_range(module, root, created),
        plan_from(module, root, nodes, env, created, at) is Some,
    ensures
        created_in_range(
            module,
            root,
            planned_operations(plan_from(module, root, nodes, env, created, at)),
        ),
    decreases nodes.len() - at,
{
    if at < 0 || at >= nodes.len() {
    } else {
        let (next, more) = plan_node(module, root, nodes, env, created, at)->0;
        if more != created {
            let op = planned_operation(module, root, env, created, at, nodes[at])->0;
            assert(more == created.push(op));
            assert forall|k: int| 0 <= k < more.len() implies {
                let item = #[trigger] more[k];
                &&& item.parent == module.operations[root as int].parent
                &&& item.regions.len() == 0
                &&& forall|j: int|
                    0 <= j < item.operands.len() ==> extended(module, more).defines(
                        #[trigger] item.operands[j],
                    )
            } by {
                let item = more[k];
                assert forall|j: int| 0 <= j < item.operands.len() implies extended(
                    module,
                    more,
                ).defines(#[trigger] item.operands[j]) by {
                    if k < created.len() {
                        assert(item == created[k]);
                        lemma_extended_defines(module, created, op, item.operands[j]);
                    } else {
                        assert(usable(module, created, root, op.operands[j]));
                        lemma_extended_defines(module, created, op, item.operands[j]);
                    }
                }
            }
        }
        lemma_plan_from_in_range(module, root, nodes, next, more, at + 1);
    }
}

/// What is defined stays defined when one more operation is created.
pub proof fn lemma_extended_defines(
    module: ModuleView,
    created: Seq<OperationView>,
    op: OperationView,
    value: ValueRef,
)
    requires
        extended(module, created).defines(value),
    ensures
        extended(module, created.push(op)).defines(value),
{
    let before = extended(module, created);
    let after = extended(module, created.push(op));
    match value {
        ValueRef::OperationResult { operation, index } => {
            assert(after.operations[operation as int] == before.operations[operation as int]);
        },
        _ => {},
    }
}

} // verus!
