//! Dialects written down as modules: the module that defines the dialect
//! `felt`, and the reading of dialect definitions out of any module.
//!
//! A dialect is defined by an operation `irdl.dialect` in the body of a
//! module, named by its attribute `sym_name`. The only block of its only
//! region holds one `irdl.operation` for each operation of the dialect,
//! named likewise. In the block of such an operation, `irdl.is` gives a
//! value that stands for exactly the type in its attribute `expected`, and
//! `irdl.any` one that stands for any type; `irdl.operands` and
//! `irdl.results` list such values, with one variadicity marker for each in
//! their attribute `variadicity`.

use vstd::prelude::*;
use crate::attribute::{
    attribute_named, find_attribute, Attribute, AttributeView, NamedAttribute, Variadicity,
};
use crate::builder::Builder;
use crate::constraint::{slots_view, Slot, SlotView, TypeConstraint, TypeConstraintView};
use crate::error::Error;
use crate::scope::structured;
use crate::module_notation::{parse, parsed};
use crate::ir::{BlockView, Module, ModuleView, Operation, OperationView, ValueRef};
use crate::registry::{
    lemma_some_position, position_of, Context, ContextView, Dialect, DialectView,
    OperationConstraint, OperationConstraintView,
};
use crate::types::{clone_type, types_view, Type, TypeView};

verus! {

/// The type of the values that stand for constraints.
pub open spec fn constraint_type() -> TypeView {
    TypeView::Opaque("irdl.attribute"@)
}

/// The module that defines the dialect `felt` with the operation `add`,
/// which takes two 32-bit integers and gives one.
///
/// Operation 0 is the dialect, with block 1; operation 1 is the operation
/// `add`, with block 2; operation 2 stands for the type of 32-bit integers,
/// and operations 3 and 4 list the operands and the results.
pub open spec fn dialect_module() -> ModuleView {
    let is_i32 = ValueRef::OperationResult { operation: 2, index: 0 };
    ModuleView {
        operations: seq![
            OperationView {
                name: "irdl.dialect"@,
                operands: Seq::empty(),
                results: Seq::empty(),
                attributes: seq![("sym_name"@, AttributeView::Text("felt"@))],
                regions: seq![seq![1usize]],
                parent: 0,
                erased: false,
            },
            OperationView {
                name: "irdl.operation"@,
                operands: Seq::empty(),
                results: Seq::empty(),
                attributes: seq![("sym_name"@, AttributeView::Text("add"@))],
                regions: seq![seq![2usize]],
                parent: 1,
                erased: false,
            },
            OperationView {
                name: "irdl.is"@,
                operands: Seq::empty(),
                results: seq![constraint_type()],
                attributes: seq![("expected"@, AttributeView::Type(TypeView::Integer(32)))],
                regions: Seq::empty(),
                parent: 2,
                erased: false,
            },
            OperationView {
                name: "irdl.operands"@,
                operands: seq![is_i32, is_i32],
                results: Seq::empty(),
                attributes: seq![
                    (
                        "variadicity"@,
                        AttributeView::VariadicityArray(
                            seq![Variadicity::Single, Variadicity::Single],
                        ),
                    ),
                ],
                regions: Seq::empty(),
                parent: 2,
                erased: false,
            },
            OperationView {
                name: "irdl.results"@,
                operands: seq![is_i32],
                results: Seq::empty(),
                attributes: seq![
                    ("variadicity"@, AttributeView::VariadicityArray(seq![Variadicity::Single])),
                ],
                regions: Seq::empty(),
                parent: 2,
                erased: false,
            },
        ],
        blocks: seq![
            BlockView { arguments: Seq::empty(), operations: seq![0usize], parent: None },
            BlockView {
                arguments: Seq::empty(),
                operations: seq![1usize],
                parent: Some((0usize, 0usize)),
            },
            BlockView {
                arguments: Seq::empty(),
                operations: seq![2usize, 3usize, 4usize],
                parent: Some((1usize, 0usize)),
            },
        ],
    }
}

/// The textual form of the module that defines the dialect `felt`.
pub open spec fn dialect_module_text() -> Seq<char> {
    "module\n\
        5 op 12:irdl.dialect 0 0 0 0 1 8:sym_name t4:felt 1 1 1 \n\
        op 14:irdl.operation 1 0 0 0 1 8:sym_name t3:add 1 1 2 \n\
        op 7:irdl.is 2 0 0 1 o14:irdl.attribute 1 8:expected yi32 0 \n\
        op 13:irdl.operands 2 0 2 r2 0 r2 0 0 1 11:variadicity V2 s s 0 \n\
        op 12:irdl.results 2 0 1 r2 0 0 1 11:variadicity V1 s 0 \n\
        3 block 0 - 1 0 \n\
        block 0 ^0 0 1 1 \n\
        block 0 ^1 0 3 2 3 4 \n"@
}

/// Reads the module that defines the dialect `felt` from its textual form.
///
/// `MalformedOperation` is reported should the text not be the textual form
/// of a well-formed module.
pub fn load_dialect_module() -> (outcome: Result<Module, Error>)
    ensures
        match outcome {
            Ok(module) => parsed(dialect_module_text()) == Some(module@) && module@.wf(),
            Err(error) => error == Error::MalformedOperation && parsed(dialect_module_text()) is None,
        },
{
    parse(
        "module\n\
        5 op 12:irdl.dialect 0 0 0 0 1 8:sym_name t4:felt 1 1 1 \n\
        op 14:irdl.operation 1 0 0 0 1 8:sym_name t3:add 1 1 2 \n\
        op 7:irdl.is 2 0 0 1 o14:irdl.attribute 1 8:expected yi32 0 \n\
        op 13:irdl.operands 2 0 2 r2 0 r2 0 0 1 11:variadicity V2 s s 0 \n\
        op 12:irdl.results 2 0 1 r2 0 0 1 11:variadicity V1 s 0 \n\
        3 block 0 - 1 0 \n\
        block 0 ^0 0 1 1 \n\
        block 0 ^1 0 3 2 3 4 \n",
    )
}

/// Builds the module that defines the dialect `felt`.
pub fn build_dialect_module() -> (module: Module)
    ensures
        module@ == dialect_module(),
        module@.wf(),
        structured(module@),
{
    let mut builder = Builder::new();
    let mut attributes: Vec<NamedAttribute> = Vec::new();
    attributes.push(NamedAttribute::new("sym_name", Attribute::Text(String::from_str("felt"))));
    let dialect = builder.new_operation(
        "irdl.dialect",
        Vec::new(),
        Vec::new(),
        attributes,
        1,
    ).unwrap();
    let ghost with_dialect = builder@;
    proof {
        assert(with_dialect.module.blocks[0].operations =~= seq![0usize]);
        assert(with_dialect.can_append_block(dialect, 0));
    }
    builder.append_block(dialect, 0, Vec::new()).unwrap();
    let mut attributes: Vec<NamedAttribute> = Vec::new();
    attributes.push(NamedAttribute::new("sym_name", Attribute::Text(String::from_str("add"))));
    let operation = builder.new_operation(
        "irdl.operation",
        Vec::new(),
        Vec::new(),
        attributes,
        1,
    ).unwrap();
    let ghost with_operation = builder@;
    proof {
        assert(with_operation.stack =~= seq![0usize, 1usize]);
        assert(with_operation.module.blocks[1].operations =~= seq![1usize]);
        assert(with_operation.can_append_block(operation, 0));
    }
    builder.append_block(operation, 0, Vec::new()).unwrap();
    // The operation works on 32-bit integers only.
    let mut attributes: Vec<NamedAttribute> = Vec::new();
    attributes.push(NamedAttribute::new("expected", Attribute::Type(Type::Integer(32))));
    let mut kinds: Vec<Type> = Vec::new();
    kinds.push(Type::opaque("irdl.attribute"));
    let is_i32 = builder.new_operation("irdl.is", Vec::new(), kinds, attributes, 0).unwrap();
    let ghost with_is = builder@;
    let value = ValueRef::OperationResult { operation: is_i32, index: 0 };
    // It takes two operands, each a 32-bit integer.
    let mut operands: Vec<ValueRef> = Vec::new();
    operands.push(value);
    operands.push(value);
    let mut markers: Vec<Variadicity> = Vec::new();
    markers.push(Variadicity::Single);
    markers.push(Variadicity::Single);
    let mut attributes: Vec<NamedAttribute> = Vec::new();
    attributes.push(NamedAttribute::new("variadicity", Attribute::VariadicityArray(markers)));
    proof {
        assert(markers@ =~= seq![Variadicity::Single, Variadicity::Single]);
        assert(types_view(kinds@) =~= seq![constraint_type()]);
        assert(with_is.stack =~= seq![0usize, 1usize, 2usize]);
        assert(with_is.stack[2] == 2);
        assert(with_is.module.blocks[0].parent is None);
        assert(!with_is.owned_at(0, is_i32));
        assert(!with_is.owned_at(1, is_i32));
        assert(!with_is.owned_at(2, is_i32));
        assert(!with_is.encloses(is_i32));
        assert(with_is.visible(value));
        assert(with_is.all_visible(operands@));
    }
    builder.new_operation("irdl.operands", operands, Vec::new(), attributes, 0).unwrap();
    let ghost with_operands = builder@;
    // It gives one result, a 32-bit integer.
    let mut results: Vec<ValueRef> = Vec::new();
    results.push(value);
    let mut markers: Vec<Variadicity> = Vec::new();
    markers.push(Variadicity::Single);
    let mut attributes: Vec<NamedAttribute> = Vec::new();
    attributes.push(NamedAttribute::new("variadicity", Attribute::VariadicityArray(markers)));
    proof {
        assert(markers@ =~= seq![Variadicity::Single]);
        assert(with_operands.stack[2] == 2);
        assert(with_operands.module.blocks[0].parent is None);
        assert(!with_operands.owned_at(0, is_i32));
        assert(!with_operands.owned_at(1, is_i32));
        assert(!with_operands.owned_at(2, is_i32));
        assert(!with_operands.encloses(is_i32));
        assert(with_operands.visible(value));
        assert(with_operands.all_visible(results@));
    }
    builder.new_operation("irdl.results", results, Vec::new(), attributes, 0).unwrap();
    let module = builder.finish();
    proof {
        let built = module@;
        let wanted = dialect_module();
        assert(types_view(Seq::<Type>::empty()) =~= Seq::<TypeView>::empty());
        assert(built.operations.len() == 5);
        assert(built.blocks.len() == 3);
        assert(built.operations[0].attributes =~= wanted.operations[0].attributes);
        assert(built.operations[0].regions =~= wanted.operations[0].regions);
        assert(built.operations[0].operands =~= wanted.operations[0].operands);
        assert(built.operations[0].results =~= wanted.operations[0].results);
        assert(built.operations[0] == wanted.operations[0]);
        assert(built.operations[1].attributes =~= wanted.operations[1].attributes);
        assert(built.operations[1].regions =~= wanted.operations[1].regions);
        assert(built.operations[1].operands =~= wanted.operations[1].operands);
        assert(built.operations[1].results =~= wanted.operations[1].results);
        assert(built.operations[1] == wanted.operations[1]);
        assert(built.operations[2].attributes =~= wanted.operations[2].attributes);
        assert(built.operations[2].regions =~= wanted.operations[2].regions);
        assert(built.operations[2].operands =~= wanted.operations[2].operands);
        assert(built.operations[2].results =~= wanted.operations[2].results);
        assert(built.operations[2] == wanted.operations[2]);
        assert(built.operations[3].attributes =~= wanted.operations[3].attributes);
        assert(built.operations[3].regions =~= wanted.operations[3].regions);
        assert(built.operations[3].operands =~= wanted.operations[3].operands);
        assert(built.operations[3].results =~= wanted.operations[3].results);
        assert(built.operations[3] == wanted.operations[3]);
        assert(built.operations[4].attributes =~= wanted.operations[4].attributes);
        assert(built.operations[4].regions =~= wanted.operations[4].regions);
        assert(built.operations[4].operands =~= wanted.operations[4].operands);
        assert(built.operations[4].results =~= wanted.operations[4].results);
        assert(built.operations[4] == wanted.operations[4]);
        assert(built.operations =~= wanted.operations);
        assert(built.blocks[0].operations =~= wanted.blocks[0].operations);
        assert(built.blocks[1].operations =~= wanted.blocks[1].operations);
        assert(built.blocks[2].operations =~= wanted.blocks[2].operations);
        assert(built.blocks =~= wanted.blocks);
    }
    module
}

/// The name that an operation carries in its attribute `sym_name`.
pub open spec fn symbol_of(op: OperationView) -> Option<Seq<char>> {
    match attribute_named(op.attributes, "sym_name"@) {
        Some(AttributeView::Text(name)) => Some(name),
        _ => None,
    }
}

/// The predicate that `value` stands for: `value` must be the first result
/// of an `irdl.is` with a type in its attribute `expected`, or of an
/// `irdl.any`.
pub open spec fn predicate_of(module: ModuleView, value: ValueRef) -> Option<TypeConstraintView> {
    match value {
        ValueRef::OperationResult { operation, index } => {
            if index == 0 && operation < module.operations.len() {
                let op = module.operations[operation as int];
                if op.name == "irdl.is"@ {
                    match attribute_named(op.attributes, "expected"@) {
                        Some(AttributeView::Type(ty)) => Some(TypeConstraintView::Is(ty)),
                        _ => None,
                    }
                } else if op.name == "irdl.any"@ {
                    Some(TypeConstraintView::Any)
                } else {
                    None
                }
            } else {
                None
            }
        },
        _ => None,
    }
}

/// The slots that an `irdl.operands` or `irdl.results` lists: one for each
/// of its operands, with the marker at the same place of its attribute
/// `variadicity`.
pub open spec fn listed_slots(module: ModuleView, op: OperationView) -> Option<Seq<SlotView>> {
    match attribute_named(op.attributes, "variadicity"@) {
        Some(AttributeView::VariadicityArray(markers)) => {
            if markers.len() == op.operands.len() && forall|k: int|
                0 <= k < op.operands.len() ==> predicate_of(module, #[trigger] op.operands[k])
                    is Some {
                Some(
                    Seq::new(
                        op.operands.len(),
                        |k: int|
                            SlotView {
                                accepts: predicate_of(module, op.operands[k])->0,
                                variadicity: markers[k],
                            },
                    ),
                )
            } else {
                None
            }
        },
        _ => None,
    }
}

/// Whether `at` is the first place in `entries` of an operation named `name`.
pub open spec fn is_first_named(
    module: ModuleView,
    entries: Seq<usize>,
    name: Seq<char>,
    at: int,
) -> bool {
    &&& 0 <= at < entries.len()
    &&& module.operations[entries[at] as int].name == name
    &&& forall|j: int| 0 <= j < at ==> module.operations[#[trigger] entries[j] as int].name != name
}

/// The slots that the first operation named `name` among `entries` lists;
/// no slots if there is no such operation.
pub open spec fn slots_listed_by(module: ModuleView, entries: Seq<usize>, name: Seq<char>) -> Option<
    Seq<SlotView>,
> {
    if exists|at: int| is_first_named(module, entries, name, at) {
        let at = choose|at: int| is_first_named(module, entries, name, at);
        listed_slots(module, module.operations[entries[at] as int])
    } else {
        Some(Seq::empty())
    }
}

/// The constraint that the block of an `irdl.operation` describes.
pub open spec fn described_constraint(module: ModuleView, block: BlockView) -> Option<
    OperationConstraintView,
> {
    match (
        slots_listed_by(module, block.operations, "irdl.operands"@),
        slots_listed_by(module, block.operations, "irdl.results"@),
    ) {
        (Some(operands), Some(results)) => Some(OperationConstraintView { operands, results }),
        _ => None,
    }
}

/// The name and the constraint that the operation `op`, an
/// `irdl.operation`, defines.
pub open spec fn defined_operation(module: ModuleView, op: OperationView) -> Option<
    (Seq<char>, OperationConstraintView),
> {
    match (symbol_of(op), op.sole_block()) {
        (Some(name), Some(block)) => {
            if block < module.blocks.len() {
                match described_constraint(module, module.blocks[block as int]) {
                    Some(constraint) => Some((name, constraint)),
                    None => None,
                }
            } else {
                None
            }
        },
        _ => None,
    }
}

/// The dialect of the name `name` that the first `upto` of `entries`
/// define: one operation for each `irdl.operation` among them that is not
/// erased, in order. There is none if one of these is not in order or
/// repeats a name.
pub open spec fn dialect_upto(
    module: ModuleView,
    entries: Seq<usize>,
    name: Seq<char>,
    upto: int,
) -> Option<DialectView>
    decreases upto,
{
    if upto <= 0 {
        Some(DialectView { name, names: Seq::empty(), constraints: Seq::empty() })
    } else {
        match dialect_upto(module, entries, name, upto - 1) {
            None => None,
            Some(dialect) => {
                let op = module.operations[entries[upto - 1] as int];
                if op.name == "irdl.operation"@ && !op.erased {
                    match defined_operation(module, op) {
                        Some((operation, constraint)) => {
                            if dialect.defines(operation) {
                                None
                            } else {
                                Some(
                                    DialectView {
                                        name: dialect.name,
                                        names: dialect.names.push(operation),
                                        constraints: dialect.constraints.push(constraint),
                                    },
                                )
                            }
                        },
                        None => None,
                    }
                } else {
                    Some(dialect)
                }
            },
        }
    }
}

/// The dialect that the operation `op`, an `irdl.dialect`, defines.
pub open spec fn defined_dialect(module: ModuleView, op: OperationView) -> Option<DialectView> {
    match (symbol_of(op), op.sole_block()) {
        (Some(name), Some(block)) => {
            if block < module.blocks.len() {
                let entries = module.blocks[block as int].operations;
                dialect_upto(module, entries, name, entries.len() as int)
            } else {
                None
            }
        },
        _ => None,
    }
}

/// The dialects that the first `upto` operations of the body of `module`
/// define: one for each `irdl.dialect` among them that is not erased, in
/// order. There are none if one of these is not in order.
pub open spec fn dialects_upto(module: ModuleView, upto: int) -> Option<Seq<DialectView>>
    decreases upto,
{
    if upto <= 0 {
        Some(Seq::empty())
    } else {
        match dialects_upto(module, upto - 1) {
            None => None,
            Some(dialects) => {
                let op = module.operations[module.blocks[0].operations[upto - 1] as int];
                if op.name == "irdl.dialect"@ && !op.erased {
                    match defined_dialect(module, op) {
                        Some(dialect) => Some(dialects.push(dialect)),
                        None => None,
                    }
                } else {
                    Some(dialects)
                }
            },
        }
    }
}

/// The dialects that `module` defines, in order.
pub open spec fn dialects_in(module: ModuleView) -> Option<Seq<DialectView>> {
    dialects_upto(module, module.blocks[0].operations.len() as int)
}

/// The predicate that `value` stands for.
fn read_predicate(module: &Module, value: ValueRef) -> (found: Option<TypeConstraint>)
    ensures
        match found {
            Some(predicate) => predicate_of(module@, value) == Some(predicate@),
            None => predicate_of(module@, value) is None,
        },
{
    match value {
        ValueRef::OperationResult { operation, index } => {
            if index != 0 || operation >= module.operation_count() {
                return None;
            }
            let op = module.operation(operation);
            if op.has_name("irdl.is") {
                match find_attribute(&op.attributes, "expected") {
                    Some(at) => match &op.attributes[at].value {
                        Attribute::Type(ty) => Some(TypeConstraint::Is(clone_type(ty))),
                        _ => None,
                    },
                    None => None,
                }
            } else if op.has_name("irdl.any") {
                Some(TypeConstraint::Any)
            } else {
                None
            }
        },
        _ => None,
    }
}

/// The slots that `op`, an `irdl.operands` or `irdl.results`, lists.
fn read_slots(module: &Module, op: &Operation) -> (found: Option<Vec<Slot>>)
    ensures
        match found {
            Some(slots) => listed_slots(module@, op@) == Some(slots_view(slots@)),
            None => listed_slots(module@, op@) is None,
        },
{
    let markers = match find_attribute(&op.attributes, "variadicity") {
        Some(at) => match &op.attributes[at].value {
            Attribute::VariadicityArray(markers) => markers,
            _ => {
                return None;
            },
        },
        None => {
            return None;
        },
    };
    if markers.len() != op.operands.len() {
        return None;
    }
    let mut slots: Vec<Slot> = Vec::new();
    let mut k: usize = 0;
    while k < op.operands.len()
        invariant
            k <= op.operands.len(),
            markers.len() == op.operands.len(),
            slots@.len() == k,
            forall|j: int| 0 <= j < k ==> predicate_of(module@, #[trigger] op.operands@[j]) is Some,
            forall|j: int|
                0 <= j < k ==> (#[trigger] slots@[j])@ == (SlotView {
                    accepts: predicate_of(module@, op.operands@[j])->0,
                    variadicity: markers@[j],
                }),
        decreases op.operands.len() - k,
    {
        match read_predicate(module, op.operands[k]) {
            Some(accepts) => {
                slots.push(Slot { accepts, variadicity: markers[k] });
            },
            None => {
                assert(predicate_of(module@, op@.operands[k as int]) is None);
                return None;
            },
        }
        k += 1;
    }
    proof {
        assert(slots_view(slots@) =~= listed_slots(module@, op@)->0);
    }
    Some(slots)
}

/// The slots that the first operation named `name` among `entries` lists.
fn read_listed(module: &Module, entries: &Vec<usize>, name: &str) -> (found: Option<Vec<Slot>>)
    requires
        forall|k: int| 0 <= k < entries@.len() ==> (#[trigger] entries@[k]) < module@.operations.len(),
    ensures
        match found {
            Some(slots) => slots_listed_by(module@, entries@, name@) == Some(slots_view(slots@)),
            None => slots_listed_by(module@, entries@, name@) is None,
        },
{
    let mut at: usize = 0;
    while at < entries.len()
        invariant
            at <= entries.len(),
            forall|k: int|
                0 <= k < entries@.len() ==> (#[trigger] entries@[k]) < module@.operations.len(),
            forall|j: int|
                0 <= j < at ==> module@.operations[#[trigger] entries@[j] as int].name != name@,
        decreases entries.len() - at,
    {
        let op = module.operation(entries[at]);
        if op.has_name(name) {
            proof {
                assert(is_first_named(module@, entries@, name@, at as int));
                let chosen = choose|c: int| is_first_named(module@, entries@, name@, c);
                if chosen < at {
                    assert(module@.operations[entries@[chosen] as int].name != name@);
                } else if at < chosen {
                    assert(module@.operations[entries@[at as int] as int].name == name@);
                }
            }
            return read_slots(module, op);
        }
        at += 1;
    }
    let slots: Vec<Slot> = Vec::new();
    proof {
        assert(slots_view(slots@) =~= Seq::empty());
    }
    Some(slots)
}

/// The name and the constraint that `op`, an `irdl.operation`, defines.
fn read_operation(module: &Module, op: &Operation) -> (found: Option<(String, OperationConstraint)>)
    requires
        module@.wf(),
    ensures
        match found {
            Some((name, constraint)) => defined_operation(module@, op@) == Some(
                (name@, constraint@),
            ),
            None => defined_operation(module@, op@) is None,
        },
{
    let name = match read_symbol(op) {
        Some(name) => name,
        None => {
            return None;
        },
    };
    let block = match op.sole_block() {
        Some(block) => block,
        None => {
            return None;
        },
    };
    if block >= module.block_count() {
        return None;
    }
    proof {
        assert(module@.block_in_range(block as int));
    }
    let entries = &module.block(block).operations;
    let operands = match read_listed(module, entries, "irdl.operands") {
        Some(operands) => operands,
        None => {
            return None;
        },
    };
    let results = match read_listed(module, entries, "irdl.results") {
        Some(results) => results,
        None => {
            return None;
        },
    };
    Some((name, OperationConstraint::new(operands, results)))
}

/// The name that an operation carries in its attribute `sym_name`.
fn read_symbol(op: &Operation) -> (found: Option<String>)
    ensures
        match found {
            Some(name) => symbol_of(op@) == Some(name@),
            None => symbol_of(op@) is None,
        },
{
    match find_attribute(&op.attributes, "sym_name") {
        Some(at) => match &op.attributes[at].value {
            Attribute::Text(name) => Some(name.clone()),
            _ => None,
        },
        None => None,
    }
}

/// The dialect that `op`, an `irdl.dialect`, defines.
fn read_dialect(module: &Module, op: &Operation) -> (found: Option<Dialect>)
    requires
        module@.wf(),
    ensures
        match found {
            Some(dialect) => defined_dialect(module@, op@) == Some(dialect@) && dialect@.wf(),
            None => defined_dialect(module@, op@) is None,
        },
{
    let name = match read_symbol(op) {
        Some(name) => name,
        None => {
            return None;
        },
    };
    let block = match op.sole_block() {
        Some(block) => block,
        None => {
            return None;
        },
    };
    if block >= module.block_count() {
        return None;
    }
    proof {
        assert(module@.block_in_range(block as int));
    }
    let entries = &module.block(block).operations;
    let mut dialect = Dialect::new(name.as_str());
    let mut k: usize = 0;
    while k < entries.len()
        invariant
            k <= entries.len(),
            module@.wf(),
            dialect@.wf(),
            symbol_of(op@) == Some(name@),
            op@.sole_block() == Some(block),
            block < module@.blocks.len(),
            entries@ == module@.blocks[block as int].operations,
            forall|j: int|
                0 <= j < entries@.len() ==> (#[trigger] entries@[j]) < module@.operations.len(),
            dialect_upto(module@, entries@, name@, k as int) == Some(dialect@),
        decreases entries.len() - k,
    {
        let inner = module.operation(entries[k]);
        if inner.has_name("irdl.operation") && !inner.erased {
            match read_operation(module, inner) {
                Some((operation, constraint)) => {
                    if !dialect.define(operation.as_str(), constraint) {
                        proof {
                            assert(dialect_upto(module@, entries@, name@, k + 1) is None);
                            lemma_dialect_upto_stays_none(
                                module@,
                                entries@,
                                name@,
                                k + 1,
                                entries@.len() as int,
                            );
                        }
                        return None;
                    }
                },
                None => {
                    proof {
                        assert(dialect_upto(module@, entries@, name@, k + 1) is None);
                        lemma_dialect_upto_stays_none(
                            module@,
                            entries@,
                            name@,
                            k + 1,
                            entries@.len() as int,
                        );
                    }
                    return None;
                },
            }
        }
        k += 1;
    }
    Some(dialect)
}

/// Once the entries up to one place define no dialect, those up to a later
/// place define none either.
pub proof fn lemma_dialect_upto_stays_none(
    module: ModuleView,
    entries: Seq<usize>,
    name: Seq<char>,
    lower: int,
    upper: int,
)
    requires
        lower <= upper,
        dialect_upto(module, entries, name, lower) is None,
    ensures
        dialect_upto(module, entries, name, upper) is None,
    decreases upper - lower,
{
    if lower < upper {
        lemma_dialect_upto_stays_none(module, entries, name, lower, upper - 1);
    }
}

/// Once the operations up to one place define no dialects, those up to a
/// later place define none either.
pub proof fn lemma_dialects_upto_stays_none(module: ModuleView, lower: int, upper: int)
    requires
        lower <= upper,
        dialects_upto(module, lower) is None,
    ensures
        dialects_upto(module, upper) is None,
    decreases upper - lower,
{
    if lower < upper {
        lemma_dialects_upto_stays_none(module, lower, upper - 1);
    }
}

/// The dialects that `module` defines, in order; none if a definition is
/// not in order.
pub fn read_dialects(module: &Module) -> (found: Option<Vec<Dialect>>)
    requires
        module@.wf(),
    ensures
        match found {
            Some(dialects) => {
                &&& dialects_in(module@) == Some(Seq::new(dialects@.len(), |k: int| dialects@[k]@))
                &&& forall|k: int| 0 <= k < dialects@.len() ==> (#[trigger] dialects@[k])@.wf()
            },
            None => dialects_in(module@) is None,
        },
{
    proof {
        assert(module@.block_in_range(0));
    }
    let entries = &module.block(0).operations;
    let mut dialects: Vec<Dialect> = Vec::new();
    let mut k: usize = 0;
    while k < entries.len()
        invariant
            k <= entries.len(),
            module@.wf(),
            entries@ == module@.blocks[0].operations,
            forall|j: int|
                0 <= j < entries@.len() ==> (#[trigger] entries@[j]) < module@.operations.len(),
            dialects_upto(module@, k as int) == Some(
                Seq::new(dialects@.len(), |j: int| dialects@[j]@),
            ),
            forall|j: int| 0 <= j < dialects@.len() ==> (#[trigger] dialects@[j])@.wf(),
        decreases entries.len() - k,
    {
        let op = module.operation(entries[k]);
        if op.has_name("irdl.dialect") && !op.erased {
            match read_dialect(module, op) {
                Some(dialect) => {
                    let ghost before = Seq::new(dialects@.len(), |j: int| dialects@[j]@);
                    dialects.push(dialect);
                    proof {
                        assert(Seq::new(dialects@.len(), |j: int| dialects@[j]@) =~= before.push(
                            dialect@,
                        ));
                    }
                },
                None => {
                    proof {
                        assert(dialects_upto(module@, k + 1) is None);
                        lemma_dialects_upto_stays_none(module@, k + 1, entries@.len() as int);
                    }
                    return None;
                },
            }
        }
        k += 1;
    }
    Some(dialects)
}

/// The first place before `limit` of a dialect of the name `name`.
fn named_before(dialects: &Vec<Dialect>, limit: usize, name: &str) -> (found: Option<usize>)
    requires
        limit <= dialects@.len(),
    ensures
        match found {
            Some(at) => at < limit && dialects@[at as int]@.name == name@,
            None => forall|j: int| 0 <= j < limit ==> (#[trigger] dialects@[j])@.name != name@,
        },
{
    let wanted = String::from_str(name);
    let mut at: usize = 0;
    while at < limit
        invariant
            at <= limit <= dialects@.len(),
            wanted@ == name@,
            forall|j: int| 0 <= j < at ==> (#[trigger] dialects@[j])@.name != name@,
        decreases limit - at,
    {
        let other = String::from_str(dialects[at].name());
        if other == wanted {
            return Some(at);
        }
        at += 1;
    }
    None
}

/// The context with the dialects `dialects` registered after its own.
pub open spec fn with_dialects(context: ContextView, dialects: Seq<DialectView>) -> ContextView {
    ContextView { dialects: context.dialects + dialects }
}

/// Registers the dialects that `module` defines, all or none.
///
/// `MalformedOperation` is reported where a definition in the module is not
/// in order, `DuplicateDialect` where two of the dialects, or one of them
/// and a registered one, have one name. The context then stays as it is.
pub fn load_irdl_dialects(context: &mut Context, module: &Module) -> (outcome: Result<(), Error>)
    requires
        old(context)@.wf(),
        module@.wf(),
    ensures
        final(context)@.wf(),
        match outcome {
            Ok(()) => {
                &&& dialects_in(module@) is Some
                &&& final(context)@ == with_dialects(old(context)@, dialects_in(module@)->0)
            },
            Err(error) => {
                &&& final(context)@ == old(context)@
                &&& match dialects_in(module@) {
                    None => error == Error::MalformedOperation,
                    Some(dialects) => error == Error::DuplicateDialect && !with_dialects(
                        old(context)@,
                        dialects,
                    ).wf(),
                }
            },
        },
{
    let dialects = match read_dialects(module) {
        Some(dialects) => dialects,
        None => {
            return Err(Error::MalformedOperation);
        },
    };
    let ghost found = Seq::new(dialects@.len(), |k: int| dialects@[k]@);
    let ghost before = context@;
    let ghost after = with_dialects(before, found);
    // Look for a name that is taken before anything is registered.
    let mut k: usize = 0;
    while k < dialects.len()
        invariant
            k <= dialects.len(),
            context@ == before,
            before == old(context)@,
            before.wf(),
            dialects_in(module@) == Some(found),
            found == Seq::new(dialects@.len(), |j: int| dialects@[j]@),
            after == with_dialects(before, found),
            forall|j: int| 0 <= j < dialects@.len() ==> (#[trigger] dialects@[j])@.wf(),
            forall|i: int, j: int|
                0 <= i < j < before.dialects.len() + k ==> (#[trigger] after.dialects[i]).name != (
                #[trigger] after.dialects[j]).name,
        decreases dialects.len() - k,
    {
        let name = dialects[k].name();
        let ghost here = before.dialects.len() + k;
        assert(after.dialects[here] == dialects@[k as int]@);
        if context.has_dialect(name) {
            proof {
                let at = position_of(before.names(), name@)->0;
                assert(before.names()[at] == before.dialects[at].name);
                assert(after.dialects[at] == before.dialects[at]);
                assert(after.dialects[at].name == after.dialects[here].name);
                assert(!after.wf());
            }
            return Err(Error::DuplicateDialect);
        }
        match named_before(&dialects, k, name) {
            Some(first) => {
                proof {
                    let at = before.dialects.len() + first;
                    assert(after.dialects[at] == dialects@[first as int]@);
                    assert(after.dialects[at].name == after.dialects[here].name);
                    assert(!after.wf());
                }
                return Err(Error::DuplicateDialect);
            },
            None => {},
        }
        proof {
            assert forall|i: int, j: int| 0 <= i < j < here + 1 implies (
            #[trigger] after.dialects[i]).name != (#[trigger] after.dialects[j]).name by {
                if j == here {
                    if i < before.dialects.len() {
                        assert(after.dialects[i] == before.dialects[i]);
                        assert(before.names()[i] == before.dialects[i].name);
                        if before.dialects[i].name == name@ {
                            lemma_some_position(before.names(), name@, i);
                        }
                    } else {
                        assert(after.dialects[i] == dialects@[i - before.dialects.len()]@);
                    }
                }
            }
        }
        k += 1;
    }
    proof {
        assert forall|i: int| 0 <= i < after.dialects.len() implies (
        #[trigger] after.dialects[i]).wf() by {
            if i < before.dialects.len() {
                assert(after.dialects[i] == before.dialects[i]);
            } else {
                assert(after.dialects[i] == dialects@[i - before.dialects.len()]@);
            }
        }
        assert(after.wf());
    }
    // No name is taken: every registration goes through.
    let mut rest = dialects;
    let mut done: usize = 0;
    while rest.len() > 0
        invariant
            done + rest@.len() == found.len(),
            found.len() <= usize::MAX,
            before == old(context)@,
            dialects_in(module@) == Some(found),
            after == with_dialects(before, found),
            after.wf(),
            context@.wf(),
            Seq::new(rest@.len(), |j: int| rest@[j]@) == found.subrange(
                done as int,
                found.len() as int,
            ),
            context@.dialects == before.dialects + found.subrange(0, done as int),
            forall|j: int| 0 <= j < rest@.len() ==> (#[trigger] rest@[j])@.wf(),
        decreases rest.len(),
    {
        let ghost remaining = rest@;
        let ghost views = Seq::new(remaining.len(), |j: int| remaining[j]@);
        let ghost held = context@;
        let dialect = rest.remove(0);
        proof {
            let tail = found.subrange(done as int, found.len() as int);
            assert(views.len() == remaining.len());
            assert(tail.len() == found.len() - done);
            assert(views[0] == remaining[0]@);
            assert(tail[0] == found[done as int]);
            assert(dialect@ == found[done as int]);
            assert(Seq::new(rest@.len(), |j: int| rest@[j]@) =~= found.subrange(
                done + 1,
                found.len() as int,
            )) by {
                assert forall|j: int| 0 <= j < rest@.len() implies rest@[j]@ == found[done + 1
                    + j] by {
                    assert(rest@[j] == remaining[j + 1]);
                    assert(views[j + 1] == remaining[j + 1]@);
                    assert(tail[j + 1] == found[done + 1 + j]);
                }
            }
            assert forall|j: int| 0 <= j < rest@.len() implies (#[trigger] rest@[j])@.wf() by {
                assert(rest@[j] == remaining[j + 1]);
            }
            // The name is free: it differs from every name registered so far.
            let here = before.dialects.len() + done;
            assert(after.dialects[here] == found[done as int]);
            assert forall|i: int| 0 <= i < held.names().len() implies held.names()[i]
                != dialect@.name by {
                assert(held.names()[i] == held.dialects[i].name);
                assert(held.dialects[i] == after.dialects[i]);
            }
            crate::registry::lemma_position_missing(held.names(), dialect@.name);
        }
        let outcome = context.register_dialect(dialect);
        proof {
            assert(outcome is Ok);
            assert(context@.dialects =~= before.dialects + found.subrange(0, done + 1));
        }
        done += 1;
    }
    proof {
        assert(found.subrange(0, found.len() as int) =~= found);
        assert(context@.dialects == after.dialects);
    }
    Ok(())
}

} // verus!
