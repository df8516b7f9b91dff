//! Patterns written down as modules: the module that rewrites `felt.add`
//! into arithmetic modulo 13, and the compiling of any such module into
//! patterns.
//!
//! A pattern is an operation `pdl.pattern` in the body of a module, with
//! its benefit in the attribute `benefit`. Its block describes what to look
//! for: `pdl.type`, `pdl.operand` and `pdl.attribute` stand for a type, a
//! value and an attribute value, `pdl.operation` for an operation and
//! `pdl.result` for a result of one. The block ends with `pdl.rewrite`,
//! which names the operation to replace. The block of that describes, in
//! the same way, what to build, and ends with `pdl.replace` or `pdl.erase`.
//!
//! A `pdl.operation` lists the values of its operands, then of its
//! attributes, then of the types of its results; the attribute
//! `operandSegmentSizes` says how many there are of each, `opName` names
//! the operation, and `attributeValueNames` the attributes.

use vstd::prelude::*;
use crate::attribute::{
    attribute_named, clone_attribute, clone_texts, find_attribute, named_attributes_view,
    texts_view, Attribute, AttributeView, NamedAttribute,
};
use crate::builder::Builder;
use crate::error::Error;
use crate::scope::structured;
use crate::module_notation::{parse, parsed};
use crate::ir::{BlockView, Module, ModuleView, Operation, OperationView, ValueRef};
use crate::pattern::{
    patterns_view, Pattern, PatternNode, PatternNodeView, PatternView, RewritePattern,
    RewritePatternView,
};
use crate::rewrite::position_in;
use crate::types::{clone_type, types_view, Type, TypeView};

verus! {

/// The text that `op` holds under `name`.
pub open spec fn text_of(op: OperationView, name: Seq<char>) -> Option<Seq<char>> {
    match attribute_named(op.attributes, name) {
        Some(AttributeView::Text(text)) => Some(text),
        _ => None,
    }
}

/// The integer that `op` holds under `name`.
pub open spec fn integer_of(op: OperationView, name: Seq<char>) -> Option<u64> {
    match attribute_named(op.attributes, name) {
        Some(AttributeView::Integer { value, ty }) => Some(value),
        _ => None,
    }
}

/// The node that stands for `value`: the place among `owners` of the
/// operation whose first result `value` is.
pub open spec fn node_of(owners: Seq<usize>, value: ValueRef) -> Option<usize> {
    match value {
        ValueRef::OperationResult { operation, index } => {
            if index == 0 && position_in(owners, operation) < owners.len() {
                Some(position_in(owners, operation) as usize)
            } else {
                None
            }
        },
        _ => None,
    }
}

/// The nodes that stand for `values`, in order, if each has one.
pub open spec fn nodes_of(owners: Seq<usize>, values: Seq<ValueRef>) -> Option<Seq<usize>> {
    if forall|k: int| 0 <= k < values.len() ==> node_of(owners, #[trigger] values[k]) is Some {
        Some(Seq::new(values.len(), |k: int| node_of(owners, values[k])->0))
    } else {
        None
    }
}

/// The three sizes that `op` holds under `operandSegmentSizes`, if they
/// are not negative and add up to the number of its operands.
pub open spec fn segments_of(op: OperationView) -> Option<(int, int, int)> {
    match attribute_named(op.attributes, "operandSegmentSizes"@) {
        Some(AttributeView::IntegerArray(sizes)) => {
            if sizes.len() == 3 && sizes[0] >= 0 && sizes[1] >= 0 && sizes[2] >= 0 && sizes[0]
                + sizes[1] + sizes[2] == op.operands.len() {
                Some((sizes[0] as int, sizes[1] as int, sizes[2] as int))
            } else {
                None
            }
        },
        _ => None,
    }
}

/// The names that `op` holds under `attributeValueNames`.
pub open spec fn attribute_names_of(op: OperationView) -> Option<Seq<Seq<char>>> {
    match attribute_named(op.attributes, "attributeValueNames"@) {
        Some(AttributeView::TextArray(names)) => Some(names),
        _ => None,
    }
}

/// The node of a `pdl.operation`.
pub open spec fn operation_node(owners: Seq<usize>, op: OperationView) -> Option<PatternNodeView> {
    match (text_of(op, "opName"@), segments_of(op), attribute_names_of(op)) {
        (Some(name), Some((operand_count, attribute_count, result_count)), Some(names)) => {
            if names.len() == attribute_count {
                match (
                    nodes_of(owners, op.operands.subrange(0, operand_count)),
                    nodes_of(
                        owners,
                        op.operands.subrange(operand_count, operand_count + attribute_count),
                    ),
                    nodes_of(
                        owners,
                        op.operands.subrange(
                            operand_count + attribute_count,
                            op.operands.len() as int,
                        ),
                    ),
                ) {
                    (Some(operands), Some(attribute_values), Some(results)) => Some(
                        PatternNodeView::Operation {
                            name,
                            operands,
                            attribute_names: names,
                            attribute_values,
                            results,
                        },
                    ),
                    _ => None,
                }
            } else {
                None
            }
        },
        _ => None,
    }
}

/// The node of a `pdl.result`: the result, of the place in its attribute
/// `index`, of the operation that its only operand stands for.
pub open spec fn result_node(owners: Seq<usize>, op: OperationView) -> Option<PatternNodeView> {
    if op.operands.len() == 1 {
        match (node_of(owners, op.operands[0]), integer_of(op, "index"@)) {
            (Some(operation), Some(index)) => {
                if index <= usize::MAX {
                    Some(PatternNodeView::Result { operation, index: index as usize })
                } else {
                    None
                }
            },
            _ => None,
        }
    } else {
        None
    }
}

/// The node that `op` stands for, if it is one of the five operations that
/// stand for a node.
pub open spec fn node_for(owners: Seq<usize>, op: OperationView) -> Option<PatternNodeView> {
    if op.name == "pdl.type"@ {
        Some(
            PatternNodeView::Type {
                constant: match attribute_named(op.attributes, "constantType"@) {
                    Some(AttributeView::Type(ty)) => Some(ty),
                    _ => None,
                },
            },
        )
    } else if op.name == "pdl.operand"@ {
        Some(PatternNodeView::Value)
    } else if op.name == "pdl.attribute"@ {
        Some(PatternNodeView::Attribute { value: attribute_named(op.attributes, "value"@) })
    } else if op.name == "pdl.operation"@ {
        operation_node(owners, op)
    } else if op.name == "pdl.result"@ {
        result_node(owners, op)
    } else {
        None
    }
}

/// The nodes of a pattern under construction, and for each node the
/// operation of the module that it stands for.
pub struct Nodes {
    pub nodes: Seq<PatternNodeView>,
    pub owners: Seq<usize>,
}

/// The nodes after the first `upto` of `entries`, each of which must stand
/// for a node, were added to `start`.
pub open spec fn collected(
    module: ModuleView,
    entries: Seq<usize>,
    upto: int,
    start: Nodes,
) -> Option<Nodes>
    decreases upto,
{
    if upto <= 0 {
        Some(start)
    } else {
        match collected(module, entries, upto - 1, start) {
            None => None,
            Some(so_far) => match node_for(
                so_far.owners,
                module.operations[entries[upto - 1] as int],
            ) {
                Some(node) => Some(
                    Nodes {
                        nodes: so_far.nodes.push(node),
                        owners: so_far.owners.push(entries[upto - 1]),
                    },
                ),
                None => None,
            },
        }
    }
}

/// The number of results of the operation node at `root`.
pub open spec fn result_count(nodes: Seq<PatternNodeView>, root: usize) -> Option<nat> {
    if root < nodes.len() {
        match nodes[root as int] {
            PatternNodeView::Operation { results, .. } => Some(results.len()),
            _ => None,
        }
    } else {
        None
    }
}

/// The pattern that ends with the operation `last`, a `pdl.replace` or a
/// `pdl.erase` of the root.
///
/// Replacing by an operation adds one result node for each result of the
/// root; replacing by values uses the nodes of those values.
pub open spec fn finished(
    so_far: Nodes,
    benefit: u16,
    root: usize,
    matcher_len: usize,
    last: OperationView,
) -> Option<RewritePatternView> {
    if last.name == "pdl.erase"@ {
        if last.operands.len() == 1 && node_of(so_far.owners, last.operands[0]) == Some(root) {
            Some(
                RewritePatternView {
                    benefit,
                    nodes: so_far.nodes,
                    root,
                    matcher_len,
                    replacement: Seq::empty(),
                },
            )
        } else {
            None
        }
    } else if last.name == "pdl.replace"@ {
        match segments_of(last) {
            Some((targets, operations, values)) => {
                if targets == 1 && node_of(so_far.owners, last.operands[0]) == Some(root) {
                    if operations == 1 && values == 0 {
                        match (
                            node_of(so_far.owners, last.operands[1]),
                            result_count(so_far.nodes, root),
                        ) {
                            (Some(source), Some(count)) => {
                                if so_far.nodes.len() + count <= usize::MAX {
                                    Some(
                                        RewritePatternView {
                                            benefit,
                                            nodes: so_far.nodes + Seq::new(
                                                count,
                                                |k: int|
                                                    PatternNodeView::Result {
                                                        operation: source,
                                                        index: k as usize,
                                                    },
                                            ),
                                            root,
                                            matcher_len,
                                            replacement: Seq::new(
                                                count,
                                                |k: int| (so_far.nodes.len() + k) as usize,
                                            ),
                                        },
                                    )
                                } else {
                                    None
                                }
                            },
                            _ => None,
                        }
                    } else if operations == 0 {
                        match nodes_of(
                            so_far.owners,
                            last.operands.subrange(1, last.operands.len() as int),
                        ) {
                            Some(replacement) => Some(
                                RewritePatternView {
                                    benefit,
                                    nodes: so_far.nodes,
                                    root,
                                    matcher_len,
                                    replacement,
                                },
                            ),
                            None => None,
                        }
                    } else {
                        None
                    }
                } else {
                    None
                }
            },
            None => None,
        }
    } else {
        None
    }
}

/// The entries of the only block of `op`, if it has just one.
pub open spec fn body_of(module: ModuleView, op: OperationView) -> Option<Seq<usize>> {
    match op.sole_block() {
        Some(block) => if block < module.blocks.len() {
            Some(module.blocks[block as int].operations)
        } else {
            None
        },
        None => None,
    }
}

/// The pattern that the operation `op`, a `pdl.pattern`, describes.
pub open spec fn compiled_pattern(module: ModuleView, op: OperationView) -> Option<
    RewritePatternView,
> {
    match (integer_of(op, "benefit"@), body_of(module, op)) {
        (Some(benefit), Some(entries)) => {
            if benefit <= u16::MAX && entries.len() >= 1 {
                let rewrite = module.operations[entries.last() as int];
                match collected(
                    module,
                    entries,
                    entries.len() - 1,
                    Nodes { nodes: Seq::empty(), owners: Seq::empty() },
                ) {
                    Some(matcher) => {
                        if rewrite.name == "pdl.rewrite"@ && rewrite.operands.len() >= 1 {
                            match (
                                node_of(matcher.owners, rewrite.operands[0]),
                                body_of(module, rewrite),
                            ) {
                                (Some(root), Some(inner)) => {
                                    if inner.len() >= 1 && matcher.nodes.len() <= usize::MAX {
                                        match collected(module, inner, inner.len() - 1, matcher) {
                                            Some(all) => finished(
                                                all,
                                                benefit as u16,
                                                root,
                                                matcher.nodes.len() as usize,
                                                module.operations[inner.last() as int],
                                            ),
                                            None => None,
                                        }
                                    } else {
                                        None
                                    }
                                },
                                _ => None,
                            }
                        } else {
                            None
                        }
                    },
                    None => None,
                }
            } else {
                None
            }
        },
        _ => None,
    }
}

/// The patterns that the first `upto` operations of the body of `module`
/// describe: one for each `pdl.pattern` among them that is not erased, in
/// order. There are none if one of these is not in order.
pub open spec fn patterns_upto(module: ModuleView, upto: int) -> Option<Seq<PatternView>>
    decreases upto,
{
    if upto <= 0 {
        Some(Seq::empty())
    } else {
        match patterns_upto(module, upto - 1) {
            None => None,
            Some(patterns) => {
                let op = module.operations[module.blocks[0].operations[upto - 1] as int];
                if op.name == "pdl.pattern"@ && !op.erased {
                    match compiled_pattern(module, op) {
                        Some(pattern) => Some(patterns.push(PatternView::Rewrite(pattern))),
                        None => None,
                    }
                } else {
                    Some(patterns)
                }
            },
        }
    }
}

/// The patterns that `module` describes, in order.
pub open spec fn patterns_in(module: ModuleView) -> Option<Seq<PatternView>> {
    patterns_upto(module, module.blocks[0].operations.len() as int)
}

/// The type of the values that stand for types.
pub open spec fn type_kind() -> TypeView {
    TypeView::Opaque("pdl.type"@)
}

/// The type of the values that stand for values.
pub open spec fn value_kind() -> TypeView {
    TypeView::Opaque("pdl.value"@)
}

/// The type of the values that stand for attribute values.
pub open spec fn attribute_kind() -> TypeView {
    TypeView::Opaque("pdl.attribute"@)
}

/// The type of the values that stand for operations.
pub open spec fn operation_kind() -> TypeView {
    TypeView::Opaque("pdl.operation"@)
}

/// The first result of the operation `operation`.
pub open spec fn first_result(operation: usize) -> ValueRef {
    ValueRef::OperationResult { operation, index: 0 }
}

/// A `pdl.operation` in the block `parent` that stands for the operation
/// `name` on `operands`, with the attributes named `names`; `sizes` says
/// how many of `operands` are operands, attribute values and result types.
pub open spec fn described_operation(
    name: Seq<char>,
    operands: Seq<ValueRef>,
    sizes: Seq<i32>,
    names: Seq<Seq<char>>,
    parent: usize,
) -> OperationView {
    OperationView {
        name: "pdl.operation"@,
        operands,
        results: seq![operation_kind()],
        attributes: seq![
            ("opName"@, AttributeView::Text(name)),
            ("operandSegmentSizes"@, AttributeView::IntegerArray(sizes)),
            ("attributeValueNames"@, AttributeView::TextArray(names)),
        ],
        regions: Seq::empty(),
        parent,
        erased: false,
    }
}

/// A `pdl.result` in the block `parent` that stands for the first result of
/// the operation that `source` stands for.
pub open spec fn described_result(source: usize, parent: usize) -> OperationView {
    OperationView {
        name: "pdl.result"@,
        operands: seq![first_result(source)],
        results: seq![value_kind()],
        attributes: seq![
            ("index"@, AttributeView::Integer { value: 0, ty: TypeView::Integer(32) }),
        ],
        regions: Seq::empty(),
        parent,
        erased: false,
    }
}

/// An operation without operands, attributes and regions that gives one
/// value of the type `kind`.
pub open spec fn placeholder(name: Seq<char>, kind: TypeView, parent: usize) -> OperationView {
    OperationView {
        name,
        operands: Seq::empty(),
        results: seq![kind],
        attributes: Seq::empty(),
        regions: Seq::empty(),
        parent,
        erased: false,
    }
}

/// The module with the one pattern that rewrites `felt.add(a, b)` into
/// `arith.remui(arith.addi(a, b), 13)`.
///
/// Operation 0 is the pattern, of benefit 1, with block 1. Operations 1 to
/// 3 stand for the type of the result and for the two operands, operation 4
/// for the `felt.add` to look for. Operation 5 is the rewrite, with block
/// 2: operations 6 and 7 stand for the sum and its result, 8 to 10 for the
/// literal 13 and its result, 11 for the remainder, and operation 12
/// replaces the `felt.add` by the remainder.
pub open spec fn pattern_module() -> ModuleView {
    ModuleView {
        operations: seq![
            OperationView {
                name: "pdl.pattern"@,
                operands: Seq::empty(),
                results: Seq::empty(),
                attributes: seq![
                    ("benefit"@, AttributeView::Integer { value: 1, ty: TypeView::Integer(16) }),
                ],
                regions: seq![seq![1usize]],
                parent: 0,
                erased: false,
            },
            placeholder("pdl.type"@, type_kind(), 1),
            placeholder("pdl.operand"@, value_kind(), 1),
            placeholder("pdl.operand"@, value_kind(), 1),
            described_operation(
                "felt.add"@,
                seq![first_result(2), first_result(3), first_result(1)],
                seq![2i32, 0i32, 1i32],
                Seq::empty(),
                1,
            ),
            OperationView {
                name: "pdl.rewrite"@,
                operands: seq![first_result(4)],
                results: Seq::empty(),
                attributes: seq![
                    ("operandSegmentSizes"@, AttributeView::IntegerArray(seq![1i32, 0i32])),
                ],
                regions: seq![seq![2usize]],
                parent: 1,
                erased: false,
            },
            described_operation(
                "arith.addi"@,
                seq![first_result(2), first_result(3), first_result(1)],
                seq![2i32, 0i32, 1i32],
                Seq::empty(),
                2,
            ),
            described_result(6, 2),
            OperationView {
                name: "pdl.attribute"@,
                operands: Seq::empty(),
                results: seq![attribute_kind()],
                attributes: seq![
                    ("value"@, AttributeView::Integer { value: 13, ty: TypeView::Integer(32) }),
                ],
                regions: Seq::empty(),
                parent: 2,
                erased: false,
            },
            described_operation(
                "arith.constant"@,
                seq![first_result(8), first_result(1)],
                seq![0i32, 1i32, 1i32],
                seq!["value"@],
                2,
            ),
            described_result(9, 2),
            described_operation(
                "arith.remui"@,
                seq![first_result(7), first_result(10), first_result(1)],
                seq![2i32, 0i32, 1i32],
                Seq::empty(),
                2,
            ),
            OperationView {
                name: "pdl.replace"@,
                operands: seq![first_result(4), first_result(11)],
                results: Seq::empty(),
                attributes: seq![
                    ("operandSegmentSizes"@, AttributeView::IntegerArray(seq![1i32, 1i32, 0i32])),
                ],
                regions: Seq::empty(),
                parent: 2,
                erased: false,
            },
        ],
        blocks: seq![
            BlockView { arguments: Seq::empty(), operations: seq![0usize], parent: None },
            BlockView {
                arguments: Seq::empty(),
                operations: seq![1usize, 2usize, 3usize, 4usize, 5usize],
                parent: Some((0usize, 0usize)),
            },
            BlockView {
                arguments: Seq::empty(),
                operations: seq![6usize, 7usize, 8usize, 9usize, 10usize, 11usize, 12usize],
                parent: Some((5usize, 0usize)),
            },
        ],
    }
}

/// A list of one type.
fn one_type(ty: Type) -> (types: Vec<Type>)
    ensures
        types_view(types@) == seq![ty@],
{
    let mut types: Vec<Type> = Vec::new();
    types.push(ty);
    proof {
        assert(types_view(types@) =~= seq![ty@]);
    }
    types
}

/// The first results of the operations `sources`, in order.
fn first_results(sources: &Vec<usize>) -> (values: Vec<ValueRef>)
    ensures
        values@ == Seq::new(sources@.len(), |k: int| first_result(sources@[k])),
{
    let mut values: Vec<ValueRef> = Vec::new();
    let mut k: usize = 0;
    while k < sources.len()
        invariant
            k <= sources.len(),
            values@.len() == k,
            forall|j: int| 0 <= j < k ==> values@[j] == first_result(sources@[j]),
        decreases sources.len() - k,
    {
        values.push(ValueRef::OperationResult { operation: sources[k], index: 0 });
        k += 1;
    }
    proof {
        assert(values@ =~= Seq::new(sources@.len(), |k: int| first_result(sources@[k])));
    }
    values
}

/// The attributes of a `pdl.operation` that stands for the operation
/// `name`.
fn operation_attributes(name: &str, sizes: Vec<i32>, names: Vec<String>) -> (attributes: Vec<
    NamedAttribute,
>)
    ensures
        named_attributes_view(attributes@) == seq![
            ("opName"@, AttributeView::Text(name@)),
            ("operandSegmentSizes"@, AttributeView::IntegerArray(sizes@)),
            ("attributeValueNames"@, AttributeView::TextArray(texts_view(names@))),
        ],
{
    let mut attributes: Vec<NamedAttribute> = Vec::new();
    attributes.push(NamedAttribute::new("opName", Attribute::Text(String::from_str(name))));
    attributes.push(NamedAttribute::new("operandSegmentSizes", Attribute::IntegerArray(sizes)));
    attributes.push(NamedAttribute::new("attributeValueNames", Attribute::TextArray(names)));
    proof {
        assert(named_attributes_view(attributes@) =~= seq![
            ("opName"@, AttributeView::Text(name@)),
            ("operandSegmentSizes"@, AttributeView::IntegerArray(sizes@)),
            ("attributeValueNames"@, AttributeView::TextArray(texts_view(names@))),
        ]);
    }
    attributes
}

/// A list of one attribute.
fn one_attribute(name: &str, value: Attribute) -> (attributes: Vec<NamedAttribute>)
    ensures
        named_attributes_view(attributes@) == seq![(name@, value@)],
{
    let mut attributes: Vec<NamedAttribute> = Vec::new();
    attributes.push(NamedAttribute::new(name, value));
    proof {
        assert(named_attributes_view(attributes@) =~= seq![(name@, value@)]);
    }
    attributes
}

/// The list of the three sizes `first`, `second` and `third`.
fn three_sizes(first: i32, second: i32, third: i32) -> (sizes: Vec<i32>)
    ensures
        sizes@ == seq![first, second, third],
{
    let mut sizes: Vec<i32> = Vec::new();
    sizes.push(first);
    sizes.push(second);
    sizes.push(third);
    proof {
        assert(sizes@ =~= seq![first, second, third]);
    }
    sizes
}

/// The textual form of the module with the pattern that rewrites `felt.add`.
pub open spec fn pattern_module_text() -> Seq<char> {
    "module\n\
        13 op 11:pdl.pattern 0 0 0 0 1 7:benefit n1 i16 1 1 1 \n\
        op 8:pdl.type 1 0 0 1 o8:pdl.type 0 0 \n\
        op 11:pdl.operand 1 0 0 1 o9:pdl.value 0 0 \n\
        op 11:pdl.operand 1 0 0 1 o9:pdl.value 0 0 \n\
        op 13:pdl.operation 1 0 3 r2 0 r3 0 r1 0 1 o13:pdl.operation 3 6:opName t8:felt.add 19:operandSegmentSizes I3 +2 +0 +1 19:attributeValueNames T0 0 \n\
        op 11:pdl.rewrite 1 0 1 r4 0 0 1 19:operandSegmentSizes I2 +1 +0 1 1 2 \n\
        op 13:pdl.operation 2 0 3 r2 0 r3 0 r1 0 1 o13:pdl.operation 3 6:opName t10:arith.addi 19:operandSegmentSizes I3 +2 +0 +1 19:attributeValueNames T0 0 \n\
        op 10:pdl.result 2 0 1 r6 0 1 o9:pdl.value 1 5:index n0 i32 0 \n\
        op 13:pdl.attribute 2 0 0 1 o13:pdl.attribute 1 5:value n13 i32 0 \n\
        op 13:pdl.operation 2 0 2 r8 0 r1 0 1 o13:pdl.operation 3 6:opName t14:arith.constant 19:operandSegmentSizes I3 +0 +1 +1 19:attributeValueNames T1 5:value 0 \n\
        op 10:pdl.result 2 0 1 r9 0 1 o9:pdl.value 1 5:index n0 i32 0 \n\
        op 13:pdl.operation 2 0 3 r7 0 r10 0 r1 0 1 o13:pdl.operation 3 6:opName t11:arith.remui 19:operandSegmentSizes I3 +2 +0 +1 19:attributeValueNames T0 0 \n\
        op 11:pdl.replace 2 0 2 r4 0 r11 0 0 1 19:operandSegmentSizes I3 +1 +1 +0 0 \n\
        3 block 0 - 1 0 \n\
        block 0 ^0 0 5 1 2 3 4 5 \n\
        block 0 ^5 0 7 6 7 8 9 10 11 12 \n"@
}

/// Reads the module with the pattern that rewrites `felt.add` from its textual form.
///
/// `MalformedOperation` is reported should the text not be the textual form
/// of a well-formed module.
pub fn load_pattern_module() -> (outcome: Result<Module, Error>)
    ensures
        match outcome {
            Ok(module) => parsed(pattern_module_text()) == Some(module@) && module@.wf(),
            Err(error) => error == Error::MalformedOperation && parsed(pattern_module_text()) is None,
        },
{
    parse(
        "module\n\
        13 op 11:pdl.pattern 0 0 0 0 1 7:benefit n1 i16 1 1 1 \n\
        op 8:pdl.type 1 0 0 1 o8:pdl.type 0 0 \n\
        op 11:pdl.operand 1 0 0 1 o9:pdl.value 0 0 \n\
        op 11:pdl.operand 1 0 0 1 o9:pdl.value 0 0 \n\
        op 13:pdl.operation 1 0 3 r2 0 r3 0 r1 0 1 o13:pdl.operation 3 6:opName t8:felt.add 19:operandSegmentSizes I3 +2 +0 +1 19:attributeValueNames T0 0 \n\
        op 11:pdl.rewrite 1 0 1 r4 0 0 1 19:operandSegmentSizes I2 +1 +0 1 1 2 \n\
        op 13:pdl.operation 2 0 3 r2 0 r3 0 r1 0 1 o13:pdl.operation 3 6:opName t10:arith.addi 19:operandSegmentSizes I3 +2 +0 +1 19:attributeValueNames T0 0 \n\
        op 10:pdl.result 2 0 1 r6 0 1 o9:pdl.value 1 5:index n0 i32 0 \n\
        op 13:pdl.attribute 2 0 0 1 o13:pdl.attribute 1 5:value n13 i32 0 \n\
        op 13:pdl.operation 2 0 2 r8 0 r1 0 1 o13:pdl.operation 3 6:opName t14:arith.constant 19:operandSegmentSizes I3 +0 +1 +1 19:attributeValueNames T1 5:value 0 \n\
        op 10:pdl.result 2 0 1 r9 0 1 o9:pdl.value 1 5:index n0 i32 0 \n\
        op 13:pdl.operation 2 0 3 r7 0 r10 0 r1 0 1 o13:pdl.operation 3 6:opName t11:arith.remui 19:operandSegmentSizes I3 +2 +0 +1 19:attributeValueNames T0 0 \n\
        op 11:pdl.replace 2 0 2 r4 0 r11 0 0 1 19:operandSegmentSizes I3 +1 +1 +0 0 \n\
        3 block 0 - 1 0 \n\
        block 0 ^0 0 5 1 2 3 4 5 \n\
        block 0 ^5 0 7 6 7 8 9 10 11 12 \n",
    )
}

/// Builds the module with the pattern that rewrites `felt.add`.
pub fn build_pattern_module() -> (module: Module)
    ensures
        module@ == pattern_module(),
        module@.wf(),
        structured(module@),
{
    let mut builder = Builder::new();
    // The pattern, of benefit 1.
    let pattern = builder.new_operation(
        "pdl.pattern",
        Vec::new(),
        Vec::new(),
        one_attribute("benefit", Attribute::Integer { value: 1, ty: Type::Integer(16) }),
        1,
    ).unwrap();
    proof {
        assert(builder@.module.blocks[0].operations =~= seq![0usize]);
        assert(builder@.can_append_block(pattern, 0));
    }
    builder.append_block(pattern, 0, Vec::new()).unwrap();
    proof {
        assert(builder@.stack =~= seq![0usize, 1usize]);
        assert(types_view(Seq::<Type>::empty()) =~= Seq::<TypeView>::empty());
        assert(named_attributes_view(Seq::<NamedAttribute>::empty()) =~= Seq::empty());
    }
    // What to look for: the type of the result, the two operands, and the
    // operation `felt.add` on them.
    let result_type = builder.new_operation(
        "pdl.type",
        Vec::new(),
        one_type(Type::opaque("pdl.type")),
        Vec::new(),
        0,
    ).unwrap();
    let left = builder.new_operation(
        "pdl.operand",
        Vec::new(),
        one_type(Type::opaque("pdl.value")),
        Vec::new(),
        0,
    ).unwrap();
    let right = builder.new_operation(
        "pdl.operand",
        Vec::new(),
        one_type(Type::opaque("pdl.value")),
        Vec::new(),
        0,
    ).unwrap();
    let mut sources: Vec<usize> = Vec::new();
    sources.push(left);
    sources.push(right);
    sources.push(result_type);
    let values = first_results(&sources);
    proof {
        let state = builder@;
        assert(values@ =~= seq![first_result(2), first_result(3), first_result(1)]);
        assert(state.stack[1] == 1);
        lemma_visible_in_pattern(state, 1);
        lemma_visible_in_pattern(state, 2);
        lemma_visible_in_pattern(state, 3);
        assert(state.all_visible(values@));
    }
    let root = builder.new_operation(
        "pdl.operation",
        values,
        one_type(Type::opaque("pdl.operation")),
        operation_attributes("felt.add", three_sizes(2, 0, 1), Vec::new()),
        0,
    ).unwrap();
    // What to build in its place.
    let mut sizes: Vec<i32> = Vec::new();
    sizes.push(1);
    sizes.push(0);
    let mut targets: Vec<usize> = Vec::new();
    targets.push(root);
    let values = first_results(&targets);
    proof {
        let state = builder@;
        assert(sizes@ =~= seq![1i32, 0i32]);
        assert(texts_view(Seq::<String>::empty()) =~= Seq::<Seq<char>>::empty());
        assert(values@ =~= seq![first_result(4)]);
        assert(state.stack[1] == 1);
        lemma_visible_in_pattern(state, 4);
        assert(state.all_visible(values@));
    }
    let rewrite = builder.new_operation(
        "pdl.rewrite",
        values,
        Vec::new(),
        one_attribute("operandSegmentSizes", Attribute::IntegerArray(sizes)),
        1,
    ).unwrap();
    proof {
        assert(builder@.module.blocks[1].operations =~= seq![
            1usize,
            2usize,
            3usize,
            4usize,
            5usize,
        ]);
        assert(builder@.can_append_block(rewrite, 0));
    }
    builder.append_block(rewrite, 0, Vec::new()).unwrap();
    proof {
        assert(builder@.stack =~= seq![0usize, 1usize, 2usize]);
    }
    // The sum of the two operands, of the type of the replaced result.
    let mut sources: Vec<usize> = Vec::new();
    sources.push(left);
    sources.push(right);
    sources.push(result_type);
    let values = first_results(&sources);
    proof {
        let state = builder@;
        assert(values@ =~= seq![first_result(2), first_result(3), first_result(1)]);
        lemma_visible_in_rewrite(state, 1);
        lemma_visible_in_rewrite(state, 2);
        lemma_visible_in_rewrite(state, 3);
        assert(state.all_visible(values@));
    }
    let sum = builder.new_operation(
        "pdl.operation",
        values,
        one_type(Type::opaque("pdl.operation")),
        operation_attributes("arith.addi", three_sizes(2, 0, 1), Vec::new()),
        0,
    ).unwrap();
    let mut sources: Vec<usize> = Vec::new();
    sources.push(sum);
    let values = first_results(&sources);
    proof {
        let state = builder@;
        assert(values@ =~= seq![first_result(6)]);
        lemma_visible_in_rewrite(state, 6);
        assert(state.all_visible(values@));
    }
    let sum_value = builder.new_operation(
        "pdl.result",
        values,
        one_type(Type::opaque("pdl.value")),
        one_attribute("index", Attribute::Integer { value: 0, ty: Type::Integer(32) }),
        0,
    ).unwrap();
    // The literal 13: its value, the operation that gives it, and its result.
    let modulus = builder.new_operation(
        "pdl.attribute",
        Vec::new(),
        one_type(Type::opaque("pdl.attribute")),
        one_attribute("value", Attribute::Integer { value: 13, ty: Type::Integer(32) }),
        0,
    ).unwrap();
    let mut sources: Vec<usize> = Vec::new();
    sources.push(modulus);
    sources.push(result_type);
    let values = first_results(&sources);
    let mut names: Vec<String> = Vec::new();
    names.push(String::from_str("value"));
    proof {
        let state = builder@;
        assert(values@ =~= seq![first_result(8), first_result(1)]);
        assert(texts_view(names@) =~= seq!["value"@]);
        lemma_visible_in_rewrite(state, 8);
        lemma_visible_in_rewrite(state, 1);
        assert(state.all_visible(values@));
    }
    let literal = builder.new_operation(
        "pdl.operation",
        values,
        one_type(Type::opaque("pdl.operation")),
        operation_attributes("arith.constant", three_sizes(0, 1, 1), names),
        0,
    ).unwrap();
    let mut sources: Vec<usize> = Vec::new();
    sources.push(literal);
    let values = first_results(&sources);
    proof {
        let state = builder@;
        assert(values@ =~= seq![first_result(9)]);
        lemma_visible_in_rewrite(state, 9);
        assert(state.all_visible(values@));
    }
    let literal_value = builder.new_operation(
        "pdl.result",
        values,
        one_type(Type::opaque("pdl.value")),
        one_attribute("index", Attribute::Integer { value: 0, ty: Type::Integer(32) }),
        0,
    ).unwrap();
    // The remainder of the sum by the literal.
    let mut sources: Vec<usize> = Vec::new();
    sources.push(sum_value);
    sources.push(literal_value);
    sources.push(result_type);
    let values = first_results(&sources);
    proof {
        let state = builder@;
        assert(values@ =~= seq![first_result(7), first_result(10), first_result(1)]);
        lemma_visible_in_rewrite(state, 7);
        lemma_visible_in_rewrite(state, 10);
        lemma_visible_in_rewrite(state, 1);
        assert(state.all_visible(values@));
    }
    let remainder = builder.new_operation(
        "pdl.operation",
        values,
        one_type(Type::opaque("pdl.operation")),
        operation_attributes("arith.remui", three_sizes(2, 0, 1), Vec::new()),
        0,
    ).unwrap();
    // The remainder takes the place of the `felt.add`.
    let mut sources: Vec<usize> = Vec::new();
    sources.push(root);
    sources.push(remainder);
    let values = first_results(&sources);
    proof {
        let state = builder@;
        assert(values@ =~= seq![first_result(4), first_result(11)]);
        lemma_visible_in_rewrite(state, 4);
        lemma_visible_in_rewrite(state, 11);
        assert(state.all_visible(values@));
    }
    builder.new_operation(
        "pdl.replace",
        values,
        Vec::new(),
        one_attribute("operandSegmentSizes", Attribute::IntegerArray(three_sizes(1, 1, 0))),
        0,
    ).unwrap();
    let module = builder.finish();
    proof {
        let built = module@;
        let wanted = pattern_module();
        assert(built.operations.len() == 13);
        assert(built.blocks.len() == 3);
        assert(built.operations[0].regions =~= wanted.operations[0].regions);
        assert(built.operations[0].operands =~= wanted.operations[0].operands);
        assert(built.operations[0] == wanted.operations[0]);
        assert(built.operations[1].regions =~= wanted.operations[1].regions);
        assert(built.operations[1] == wanted.operations[1]);
        assert(built.operations[2].regions =~= wanted.operations[2].regions);
        assert(built.operations[2] == wanted.operations[2]);
        assert(built.operations[3].regions =~= wanted.operations[3].regions);
        assert(built.operations[3] == wanted.operations[3]);
        assert(built.operations[4].regions =~= wanted.operations[4].regions);
        assert(built.operations[4] == wanted.operations[4]);
        assert(built.operations[5].regions =~= wanted.operations[5].regions);
        assert(built.operations[5] == wanted.operations[5]);
        assert(built.operations[6].regions =~= wanted.operations[6].regions);
        assert(built.operations[6] == wanted.operations[6]);
        assert(built.operations[7].regions =~= wanted.operations[7].regions);
        assert(built.operations[7] == wanted.operations[7]);
        assert(built.operations[8].regions =~= wanted.operations[8].regions);
        assert(built.operations[8] == wanted.operations[8]);
        assert(built.operations[9].regions =~= wanted.operations[9].regions);
        assert(built.operations[9] == wanted.operations[9]);
        assert(built.operations[10].regions =~= wanted.operations[10].regions);
        assert(built.operations[10] == wanted.operations[10]);
        assert(built.operations[11].regions =~= wanted.operations[11].regions);
        assert(built.operations[11] == wanted.operations[11]);
        assert(built.operations[12].regions =~= wanted.operations[12].regions);
        assert(built.operations[12] == wanted.operations[12]);
        assert(built.operations =~= wanted.operations);
        assert(built.blocks[0].operations =~= wanted.blocks[0].operations);
        assert(built.blocks[1].operations =~= wanted.blocks[1].operations);
        assert(built.blocks[2].operations =~= wanted.blocks[2].operations);
        assert(built.blocks =~= wanted.blocks);
    }
    module
}

/// While the block of the pattern is the innermost open block, the first
/// result of an operation of that block may be read.
proof fn lemma_visible_in_pattern(state: crate::builder::BuilderView, operation: usize)
    requires
        state.stack == seq![0usize, 1usize],
        state.module.blocks.len() >= 2,
        state.module.blocks[0].parent is None,
        state.module.blocks[1].parent == Some((0usize, 0usize)),
        0 < operation < state.module.operations.len(),
        state.module.operations[operation as int].parent == 1,
        state.module.operations[operation as int].results.len() >= 1,
    ensures
        state.visible(first_result(operation)),
{
    assert(state.stack[1] == 1);
    assert forall|depth: int| 0 <= depth < state.stack.len() implies !state.owned_at(
        depth,
        operation,
    ) by {}
}

/// While the block of the rewrite is the innermost open block, the first
/// result of an operation of that block, or of the block of the pattern
/// other than the rewrite itself, may be read.
proof fn lemma_visible_in_rewrite(state: crate::builder::BuilderView, operation: usize)
    requires
        state.stack == seq![0usize, 1usize, 2usize],
        state.module.blocks.len() >= 3,
        state.module.blocks[0].parent is None,
        state.module.blocks[1].parent == Some((0usize, 0usize)),
        state.module.blocks[2].parent == Some((5usize, 0usize)),
        0 < operation < state.module.operations.len(),
        operation != 5,
        state.module.operations[operation as int].parent == 1
            || state.module.operations[operation as int].parent == 2,
        state.module.operations[operation as int].results.len() >= 1,
    ensures
        state.visible(first_result(operation)),
{
    assert(state.stack[1] == 1);
    assert(state.stack[2] == 2);
    assert forall|depth: int| 0 <= depth < state.stack.len() implies !state.owned_at(
        depth,
        operation,
    ) by {}
}

/// The text that `op` holds under `name`.
fn read_text(op: &Operation, name: &str) -> (found: Option<String>)
    ensures
        match found {
            Some(text) => text_of(op@, name@) == Some(text@),
            None => text_of(op@, name@) is None,
        },
{
    match find_attribute(&op.attributes, name) {
        Some(at) => match &op.attributes[at].value {
            Attribute::Text(text) => Some(text.clone()),
            _ => None,
        },
        None => None,
    }
}

/// The integer that `op` holds under `name`.
fn read_integer(op: &Operation, name: &str) -> (found: Option<u64>)
    ensures
        found == integer_of(op@, name@),
{
    match find_attribute(&op.attributes, name) {
        Some(at) => match &op.attributes[at].value {
            Attribute::Integer { value, ty } => Some(*value),
            _ => None,
        },
        None => None,
    }
}

/// The three sizes that `op` holds under `operandSegmentSizes`.
fn read_segments(op: &Operation) -> (found: Option<(usize, usize, usize)>)
    ensures
        match found {
            Some((first, second, third)) => segments_of(op@) == Some(
                (first as int, second as int, third as int),
            ) && first + second + third == op.operands@.len(),
            None => segments_of(op@) is None,
        },
{
    match find_attribute(&op.attributes, "operandSegmentSizes") {
        Some(at) => match &op.attributes[at].value {
            Attribute::IntegerArray(sizes) => {
                if sizes.len() != 3 || sizes[0] < 0 || sizes[1] < 0 || sizes[2] < 0 {
                    return None;
                }
                let first = sizes[0] as usize;
                let second = sizes[1] as usize;
                let third = sizes[2] as usize;
                let count = op.operands.len();
                if first > count || second > count - first || third != count - first - second {
                    return None;
                }
                Some((first, second, third))
            },
            _ => None,
        },
        None => None,
    }
}

/// The node that stands for `value`.
fn find_node(owners: &Vec<usize>, value: ValueRef) -> (found: Option<usize>)
    ensures
        found == node_of(owners@, value),
{
    match value {
        ValueRef::OperationResult { operation, index } => {
            if index != 0 {
                return None;
            }
            let mut at: usize = 0;
            proof {
                assert(owners@.subrange(0, owners@.len() as int) =~= owners@);
            }
            while at < owners.len()
                invariant
                    at <= owners.len(),
                    index == 0,
                    value == (ValueRef::OperationResult { operation, index }),
                    position_in(owners@, operation) == at + position_in(
                        owners@.subrange(at as int, owners@.len() as int),
                        operation,
                    ),
                decreases owners.len() - at,
            {
                let ghost rest = owners@.subrange(at as int, owners@.len() as int);
                proof {
                    assert(rest[0] == owners@[at as int]);
                    assert(rest.drop_first() =~= owners@.subrange(at + 1, owners@.len() as int));
                }
                if owners[at] == operation {
                    return Some(at);
                }
                at += 1;
            }
            None
        },
        _ => None,
    }
}

/// The nodes that stand for the operands from `from` up to `to`, in order.
fn find_nodes(owners: &Vec<usize>, operands: &Vec<ValueRef>, from: usize, to: usize) -> (found: Option<
    Vec<usize>,
>)
    requires
        from <= to <= operands@.len(),
    ensures
        match found {
            Some(nodes) => nodes_of(owners@, operands@.subrange(from as int, to as int)) == Some(
                nodes@,
            ),
            None => nodes_of(owners@, operands@.subrange(from as int, to as int)) is None,
        },
{
    let ghost values = operands@.subrange(from as int, to as int);
    let mut nodes: Vec<usize> = Vec::new();
    let mut k: usize = from;
    while k < to
        invariant
            from <= k <= to <= operands@.len(),
            values == operands@.subrange(from as int, to as int),
            nodes@.len() == k - from,
            forall|j: int| 0 <= j < k - from ==> node_of(owners@, #[trigger] values[j]) is Some,
            forall|j: int|
                0 <= j < k - from ==> (#[trigger] nodes@[j]) == node_of(owners@, values[j])->0,
        decreases to - k,
    {
        assert(values[k - from] == operands@[k as int]);
        match find_node(owners, operands[k]) {
            Some(node) => {
                nodes.push(node);
            },
            None => {
                return None;
            },
        }
        k += 1;
    }
    proof {
        assert(nodes@ =~= nodes_of(owners@, values)->0);
    }
    Some(nodes)
}

/// The node of the `pdl.operation` `op`.
fn read_operation_node(owners: &Vec<usize>, op: &Operation) -> (found: Option<PatternNode>)
    ensures
        match found {
            Some(node) => operation_node(owners@, op@) == Some(node@),
            None => operation_node(owners@, op@) is None,
        },
{
    let name = match read_text(op, "opName") {
        Some(name) => name,
        None => {
            return None;
        },
    };
    let (operand_count, attribute_count, result_count) = match read_segments(op) {
        Some(sizes) => sizes,
        None => {
            return None;
        },
    };
    let names = match find_attribute(&op.attributes, "attributeValueNames") {
        Some(at) => match &op.attributes[at].value {
            Attribute::TextArray(names) => clone_texts(names),
            _ => {
                return None;
            },
        },
        None => {
            return None;
        },
    };
    if names.len() != attribute_count {
        return None;
    }
    let operands = match find_nodes(owners, &op.operands, 0, operand_count) {
        Some(nodes) => nodes,
        None => {
            return None;
        },
    };
    let attribute_values = match find_nodes(
        owners,
        &op.operands,
        operand_count,
        operand_count + attribute_count,
    ) {
        Some(nodes) => nodes,
        None => {
            return None;
        },
    };
    let results = match find_nodes(
        owners,
        &op.operands,
        operand_count + attribute_count,
        op.operands.len(),
    ) {
        Some(nodes) => nodes,
        None => {
            return None;
        },
    };
    Some(
        PatternNode::Operation {
            name,
            operands,
            attribute_names: names,
            attribute_values,
            results,
        },
    )
}

/// The node that `op` stands for.
fn read_node(owners: &Vec<usize>, op: &Operation) -> (found: Option<PatternNode>)
    ensures
        match found {
            Some(node) => node_for(owners@, op@) == Some(node@),
            None => node_for(owners@, op@) is None,
        },
{
    if op.has_name("pdl.type") {
        let constant = match find_attribute(&op.attributes, "constantType") {
            Some(at) => match &op.attributes[at].value {
                Attribute::Type(ty) => Some(clone_type(ty)),
                _ => None,
            },
            None => None,
        };
        Some(PatternNode::Type { constant })
    } else if op.has_name("pdl.operand") {
        Some(PatternNode::Value)
    } else if op.has_name("pdl.attribute") {
        let value = match find_attribute(&op.attributes, "value") {
            Some(at) => Some(clone_attribute(&op.attributes[at].value)),
            None => None,
        };
        Some(PatternNode::Attribute { value })
    } else if op.has_name("pdl.operation") {
        read_operation_node(owners, op)
    } else if op.has_name("pdl.result") {
        if op.operands.len() != 1 {
            return None;
        }
        let operation = match find_node(owners, op.operands[0]) {
            Some(node) => node,
            None => {
                return None;
            },
        };
        let index = match read_integer(op, "index") {
            Some(index) => index,
            None => {
                return None;
            },
        };
        if index > usize::MAX as u64 {
            return None;
        }
        Some(PatternNode::Result { operation, index: index as usize })
    } else {
        None
    }
}

/// The views of a list of nodes, in order.
pub open spec fn nodes_view(nodes: Seq<PatternNode>) -> Seq<PatternNodeView> {
    Seq::new(nodes.len(), |k: int| nodes[k]@)
}

/// Adds the nodes of the first `upto` of `entries` to `nodes` and `owners`.
/// Says whether each of them stands for a node.
fn collect(
    module: &Module,
    entries: &Vec<usize>,
    upto: usize,
    nodes: &mut Vec<PatternNode>,
    owners: &mut Vec<usize>,
) -> (done: bool)
    requires
        upto <= entries@.len(),
        forall|k: int| 0 <= k < entries@.len() ==> (#[trigger] entries@[k]) < module@.operations.len(),
    ensures
        match collected(
            module@,
            entries@,
            upto as int,
            Nodes { nodes: nodes_view(old(nodes)@), owners: old(owners)@ },
        ) {
            Some(all) => done && nodes_view(final(nodes)@) == all.nodes && final(owners)@
                == all.owners,
            None => !done,
        },
{
    let ghost start = Nodes { nodes: nodes_view(nodes@), owners: owners@ };
    let mut k: usize = 0;
    while k < upto
        invariant
            k <= upto <= entries@.len(),
            forall|j: int|
                0 <= j < entries@.len() ==> (#[trigger] entries@[j]) < module@.operations.len(),
            start == (Nodes { nodes: nodes_view(old(nodes)@), owners: old(owners)@ }),
            collected(module@, entries@, k as int, start) == Some(
                Nodes { nodes: nodes_view(nodes@), owners: owners@ },
            ),
        decreases upto - k,
    {
        let op = module.operation(entries[k]);
        match read_node(owners, op) {
            Some(node) => {
                let ghost before = nodes_view(nodes@);
                nodes.push(node);
                owners.push(entries[k]);
                proof {
                    assert(nodes_view(nodes@) =~= before.push(node@));
                }
            },
            None => {
                proof {
                    assert(collected(module@, entries@, k + 1, start) is None);
                    lemma_collected_stays_none(module@, entries@, k + 1, upto as int, start);
                }
                return false;
            },
        }
        k += 1;
    }
    true
}

/// Once the entries up to one place give no nodes, those up to a later
/// place give none either.
pub proof fn lemma_collected_stays_none(
    module: ModuleView,
    entries: Seq<usize>,
    lower: int,
    upper: int,
    start: Nodes,
)
    requires
        lower <= upper,
        collected(module, entries, lower, start) is None,
    ensures
        collected(module, entries, upper, start) is None,
    decreases upper - lower,
{
    if lower < upper {
        lemma_collected_stays_none(module, entries, lower, upper - 1, start);
    }
}

/// Once the operations up to one place describe no patterns, those up to a
/// later place describe none either.
pub proof fn lemma_patterns_upto_stays_none(module: ModuleView, lower: int, upper: int)
    requires
        lower <= upper,
        patterns_upto(module, lower) is None,
    ensures
        patterns_upto(module, upper) is None,
    decreases upper - lower,
{
    if lower < upper {
        lemma_patterns_upto_stays_none(module, lower, upper - 1);
    }
}

/// The entries of the only block of `op`.
fn read_body<'a>(module: &'a Module, op: &Operation) -> (found: Option<&'a Vec<usize>>)
    requires
        module@.wf(),
    ensures
        match found {
            Some(entries) => {
                &&& body_of(module@, op@) == Some(entries@)
                &&& forall|k: int|
                    0 <= k < entries@.len() ==> (#[trigger] entries@[k]) < module@.operations.len()
            },
            None => body_of(module@, op@) is None,
        },
{
    match op.sole_block() {
        Some(block) => {
            if block < module.block_count() {
                proof {
                    assert(module@.block_in_range(block as int));
                }
                Some(&module.block(block).operations)
            } else {
                None
            }
        },
        None => None,
    }
}

/// The pattern that ends with the operation `last`.
fn finish_pattern(
    nodes: Vec<PatternNode>,
    owners: &Vec<usize>,
    benefit: u16,
    root: usize,
    matcher_len: usize,
    last: &Operation,
) -> (found: Option<RewritePattern>)
    ensures
        match found {
            Some(pattern) => finished(
                Nodes { nodes: nodes_view(nodes@), owners: owners@ },
                benefit,
                root,
                matcher_len,
                last@,
            ) == Some(pattern@),
            None => finished(
                Nodes { nodes: nodes_view(nodes@), owners: owners@ },
                benefit,
                root,
                matcher_len,
                last@,
            ) is None,
        },
{
    let ghost so_far = Nodes { nodes: nodes_view(nodes@), owners: owners@ };
    if last.has_name("pdl.erase") {
        if last.operands.len() != 1 {
            return None;
        }
        match find_node(owners, last.operands[0]) {
            Some(target) => {
                if target != root {
                    return None;
                }
            },
            None => {
                return None;
            },
        }
        let pattern = RewritePattern { benefit, nodes, root, matcher_len, replacement: Vec::new() };
        proof {
            assert(pattern@.nodes =~= so_far.nodes);
            assert(pattern@.replacement =~= Seq::empty());
        }
        return Some(pattern);
    }
    if !last.has_name("pdl.replace") {
        return None;
    }
    let (targets, operations, values) = match read_segments(last) {
        Some(sizes) => sizes,
        None => {
            return None;
        },
    };
    if targets != 1 {
        return None;
    }
    match find_node(owners, last.operands[0]) {
        Some(target) => {
            if target != root {
                return None;
            }
        },
        None => {
            return None;
        },
    }
    if operations == 1 && values == 0 {
        let source = match find_node(owners, last.operands[1]) {
            Some(source) => source,
            None => {
                return None;
            },
        };
        if root >= nodes.len() {
            return None;
        }
        assert(so_far.nodes[root as int] == nodes@[root as int]@);
        let count = match &nodes[root] {
            PatternNode::Operation { results, .. } => results.len(),
            _ => {
                return None;
            },
        };
        let base = nodes.len();
        if count > usize::MAX - base {
            return None;
        }
        let mut all = nodes;
        let mut replacement: Vec<usize> = Vec::new();
        let mut k: usize = 0;
        while k < count
            invariant
                k <= count,
                base + count <= usize::MAX,
                base == so_far.nodes.len(),
                all@.len() == base + k,
                replacement@.len() == k,
                forall|j: int| 0 <= j < base ==> (#[trigger] all@[j])@ == so_far.nodes[j],
                forall|j: int|
                    base <= j < base + k ==> (#[trigger] all@[j])@ == (PatternNodeView::Result {
                        operation: source,
                        index: (j - base) as usize,
                    }),
                forall|j: int| 0 <= j < k ==> (#[trigger] replacement@[j]) == base + j,
            decreases count - k,
        {
            all.push(PatternNode::Result { operation: source, index: k });
            replacement.push(base + k);
            k += 1;
        }
        let pattern = RewritePattern { benefit, nodes: all, root, matcher_len, replacement };
        proof {
            let wanted = finished(so_far, benefit, root, matcher_len, last@)->0;
            assert(pattern@.nodes =~= wanted.nodes);
            assert(pattern@.replacement =~= wanted.replacement);
        }
        Some(pattern)
    } else if operations == 0 {
        let replacement = match find_nodes(owners, &last.operands, 1, last.operands.len()) {
            Some(replacement) => replacement,
            None => {
                return None;
            },
        };
        let pattern = RewritePattern { benefit, nodes, root, matcher_len, replacement };
        proof {
            assert(pattern@.nodes =~= so_far.nodes);
        }
        Some(pattern)
    } else {
        None
    }
}

/// The pattern that the operation `op`, a `pdl.pattern`, describes.
fn compile_pattern(module: &Module, op: &Operation) -> (found: Option<RewritePattern>)
    requires
        module@.wf(),
    ensures
        match found {
            Some(pattern) => compiled_pattern(module@, op@) == Some(pattern@),
            None => compiled_pattern(module@, op@) is None,
        },
{
    let benefit = match read_integer(op, "benefit") {
        Some(benefit) => benefit,
        None => {
            return None;
        },
    };
    let entries = match read_body(module, op) {
        Some(entries) => entries,
        None => {
            return None;
        },
    };
    if benefit > 0xffff || entries.len() < 1 {
        return None;
    }
    let mut nodes: Vec<PatternNode> = Vec::new();
    let mut owners: Vec<usize> = Vec::new();
    proof {
        assert(nodes_view(nodes@) =~= Seq::empty());
    }
    if !collect(module, entries, entries.len() - 1, &mut nodes, &mut owners) {
        return None;
    }
    let rewrite = module.operation(entries[entries.len() - 1]);
    if !rewrite.has_name("pdl.rewrite") || rewrite.operands.len() < 1 {
        return None;
    }
    let root = match find_node(&owners, rewrite.operands[0]) {
        Some(root) => root,
        None => {
            return None;
        },
    };
    let inner = match read_body(module, rewrite) {
        Some(inner) => inner,
        None => {
            return None;
        },
    };
    if inner.len() < 1 {
        return None;
    }
    let matcher_len = nodes.len();
    if !collect(module, inner, inner.len() - 1, &mut nodes, &mut owners) {
        return None;
    }
    let last = module.operation(inner[inner.len() - 1]);
    finish_pattern(nodes, &owners, benefit as u16, root, matcher_len, last)
}

/// Compiles the patterns that `module` describes, in order; none if a
/// description is not in order.
pub fn compile_patterns(module: &Module) -> (found: Option<Vec<Pattern>>)
    requires
        module@.wf(),
    ensures
        match found {
            Some(patterns) => patterns_in(module@) == Some(patterns_view(patterns@)),
            None => patterns_in(module@) is None,
        },
{
    proof {
        assert(module@.block_in_range(0));
    }
    let entries = &module.block(0).operations;
    let mut patterns: Vec<Pattern> = Vec::new();
    proof {
        assert(patterns_view(patterns@) =~= Seq::empty());
    }
    let mut k: usize = 0;
    while k < entries.len()
        invariant
            k <= entries.len(),
            module@.wf(),
            entries@ == module@.blocks[0].operations,
            forall|j: int|
                0 <= j < entries@.len() ==> (#[trigger] entries@[j]) < module@.operations.len(),
            patterns_upto(module@, k as int) == Some(patterns_view(patterns@)),
        decreases entries.len() - k,
    {
        let op = module.operation(entries[k]);
        if op.has_name("pdl.pattern") && !op.erased {
            match compile_pattern(module, op) {
                Some(pattern) => {
                    let ghost before = patterns_view(patterns@);
                    patterns.push(Pattern::Rewrite(pattern));
                    proof {
                        assert(patterns_view(patterns@) =~= before.push(
                            PatternView::Rewrite(pattern@),
                        ));
                    }
                },
                None => {
                    proof {
                        assert(patterns_upto(module@, k + 1) is None);
                        lemma_patterns_upto_stays_none(module@, k + 1, entries@.len() as int);
                    }
                    return None;
                },
            }
        }
        k += 1;
    }
    Some(patterns)
}

} // verus!
