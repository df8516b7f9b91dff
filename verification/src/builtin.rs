//! The rules that are built in: folding arithmetic on integer literals, and
//! erasing arithmetic whose results nothing reads.
//!
//! Both know a fixed set of operations: the literal `arith.constant`, which
//! holds its value in the attribute `value`, and the arithmetic operations
//! `arith.addi`, `arith.subi`, `arith.muli` and `arith.remui`. These have no
//! effect but their result. Every other operation is taken to have one.

use vstd::prelude::*;
use vstd::arithmetic::div_mod::lemma_mod_add_multiples_vanish;
use vstd::arithmetic::power2::{lemma2_to64, lemma_pow2_unfold, pow2};
use crate::attribute::{attribute_named, find_attribute, Attribute, AttributeView, NamedAttribute};
use crate::ir::{Module, ModuleView, Operation, OperationView, ValueRef};
use crate::plan::{extended, is_result_of, plan_in_range, Plan, PlanView};
use crate::types::{clone_type, types_equal, Type, TypeView};

verus! {

/// Whether `name` is that of the literal operation.
pub open spec fn is_literal_name(name: Seq<char>) -> bool {
    name == "arith.constant"@
}

/// Whether `name` is that of an arithmetic operation that can be folded.
pub open spec fn is_arithmetic_name(name: Seq<char>) -> bool {
    name == "arith.addi"@ || name == "arith.subi"@ || name == "arith.muli"@ || name
        == "arith.remui"@
}

/// The result of the arithmetic operation `name` on `left` and `right`, as
/// integers of `width` bits without sign: sum, difference and product are
/// taken modulo two to the power of `width`. A remainder by zero has none.
pub open spec fn folded(name: Seq<char>, left: int, right: int, width: nat) -> Option<int> {
    if name == "arith.addi"@ {
        Some((left + right) % (pow2(width) as int))
    } else if name == "arith.subi"@ {
        Some((left - right) % (pow2(width) as int))
    } else if name == "arith.muli"@ {
        Some((left * right) % (pow2(width) as int))
    } else if name == "arith.remui"@ {
        if right != 0 {
            Some(left % right)
        } else {
            None
        }
    } else {
        None
    }
}

/// The integer literal that `value` is, with its type: `value` must be the
/// only result of a literal operation that is not erased, whose attribute
/// `value` is an integer of the type of that result.
pub open spec fn literal(module: ModuleView, value: ValueRef) -> Option<(u64, TypeView)> {
    match value {
        ValueRef::OperationResult { operation, index } => {
            if index == 0 && module.is_live(operation as int) {
                let op = module.operations[operation as int];
                if is_literal_name(op.name) && op.results.len() == 1 {
                    match attribute_named(op.attributes, "value"@) {
                        Some(AttributeView::Integer { value: number, ty }) => {
                            if ty == op.results[0] {
                                Some((number, ty))
                            } else {
                                None
                            }
                        },
                        _ => None,
                    }
                } else {
                    None
                }
            } else {
                None
            }
        },
        _ => None,
    }
}

/// The literal operation of the value `number` and the type `ty`, in the
/// block `parent`.
pub open spec fn literal_operation(number: u64, ty: TypeView, parent: usize) -> OperationView {
    OperationView {
        name: "arith.constant"@,
        operands: Seq::empty(),
        results: seq![ty],
        attributes: seq![("value"@, AttributeView::Integer { value: number, ty })],
        regions: Seq::empty(),
        parent,
        erased: false,
    }
}

/// The number that the operation `candidate` folds to, if it folds: it must
/// be an arithmetic operation, not erased, with one result of an integer
/// type of 1 to 64 bits, on two literals of that type whose values fit the
/// type.
pub open spec fn folds_to(module: ModuleView, candidate: usize) -> Option<u64> {
    if module.is_live(candidate as int) {
        let op = module.operations[candidate as int];
        if op.operands.len() == 2 && op.results.len() == 1 {
            match (op.results[0], literal(module, op.operands[0]), literal(module, op.operands[1])) {
                (TypeView::Integer(width), Some((left, left_type)), Some((right, right_type))) => {
                    if left_type == op.results[0] && right_type == op.results[0] && 1 <= width
                        <= 64 && left < pow2(width as nat) && right < pow2(width as nat) {
                        match folded(op.name, left as int, right as int, width as nat) {
                            Some(number) => Some(number as u64),
                            None => None,
                        }
                    } else {
                        None
                    }
                },
                _ => None,
            }
        } else {
            None
        }
    } else {
        None
    }
}

/// The plan that folds the operation `candidate`, if it folds: one new
/// literal, whose result takes the place of the result of `candidate`.
pub open spec fn fold_plan(module: ModuleView, candidate: usize) -> Option<PlanView> {
    match folds_to(module, candidate) {
        Some(number) => {
            if module.operations.len() < usize::MAX {
                let op = module.operations[candidate as int];
                Some(
                    PlanView {
                        operations: seq![literal_operation(number, op.results[0], op.parent)],
                        replacement: seq![
                            ValueRef::OperationResult {
                                operation: module.operations.len() as usize,
                                index: 0,
                            },
                        ],
                    },
                )
            } else {
                None
            }
        },
        None => None,
    }
}

/// Whether the operand `place` of the operation `reader` is a result of
/// `candidate`, and `reader` is not erased.
pub open spec fn reads_at(module: ModuleView, candidate: usize, reader: int, place: int) -> bool {
    &&& module.is_live(reader)
    &&& 0 <= place < module.operations[reader].operands.len()
    &&& is_result_of(module.operations[reader].operands[place], candidate)
}

/// Whether an operation that is not erased reads a result of `candidate`.
pub open spec fn is_read(module: ModuleView, candidate: usize) -> bool {
    exists|reader: int, place: int| reads_at(module, candidate, reader, place)
}

/// Whether the operation `candidate` may be erased as unused: it is a
/// literal or an arithmetic operation, not erased, owns no region, and
/// nothing reads a result of it.
pub open spec fn is_unused(module: ModuleView, candidate: usize) -> bool {
    &&& module.is_live(candidate as int)
    &&& {
        let op = module.operations[candidate as int];
        &&& is_literal_name(op.name) || is_arithmetic_name(op.name)
        &&& op.regions.len() == 0
    }
    &&& !is_read(module, candidate)
}

/// The plan that erases the operation `candidate`, if it is unused: nothing
/// new, and nothing in the place of its results.
pub open spec fn erase_plan(module: ModuleView, candidate: usize) -> Option<PlanView> {
    if is_unused(module, candidate) {
        Some(PlanView { operations: Seq::empty(), replacement: Seq::empty() })
    } else {
        None
    }
}

/// Whether `name` is the string `literal`.
fn is_named(name: &String, literal: &str) -> (same: bool)
    ensures
        same == (name@ == literal@),
{
    let wanted = String::from_str(literal);
    *name == wanted
}

/// Two to the power of `width`.
fn power_of_two(width: u32) -> (power: u128)
    requires
        width <= 64,
    ensures
        power == pow2(width as nat),
        power <= 0x1_0000_0000_0000_0000,
{
    let mut power: u128 = 1;
    let mut done: u32 = 0;
    proof {
        lemma2_to64();
    }
    while done < width
        invariant
            done <= width <= 64,
            power == pow2(done as nat),
            power <= pow2(64),
            pow2(64) == 0x1_0000_0000_0000_0000,
        decreases width - done,
    {
        proof {
            lemma_pow2_unfold((done + 1) as nat);
            if done + 1 < 64 {
                vstd::arithmetic::power2::lemma_pow2_strictly_increases((done + 1) as nat, 64);
            }
        }
        power = power * 2;
        done += 1;
    }
    power
}

/// The result of the arithmetic operation `name` on `left` and `right`, as
/// integers of `width` bits without sign.
fn fold(name: &String, left: u64, right: u64, width: u32) -> (number: Option<u64>)
    requires
        1 <= width <= 64,
        left < pow2(width as nat),
        right < pow2(width as nat),
    ensures
        match folded(name@, left as int, right as int, width as nat) {
            Some(value) => number == Some(value as u64) && 0 <= value <= u64::MAX,
            None => number is None,
        },
{
    let modulus = power_of_two(width);
    let wide_left = left as u128;
    let wide_right = right as u128;
    if is_named(name, "arith.addi") {
        let sum = (wide_left + wide_right) % modulus;
        Some(sum as u64)
    } else if is_named(name, "arith.subi") {
        let difference = (wide_left + modulus - wide_right) % modulus;
        proof {
            lemma_mod_add_multiples_vanish(left as int - right as int, modulus as int);
            assert(modulus as int + (left as int - right as int) == wide_left + modulus
                - wide_right);
        }
        Some(difference as u64)
    } else if is_named(name, "arith.muli") {
        assert(wide_left * wide_right <= 0xffff_ffff_ffff_ffff * 0xffff_ffff_ffff_ffff)
            by (nonlinear_arith)
            requires
                wide_left <= 0xffff_ffff_ffff_ffff,
                wide_right <= 0xffff_ffff_ffff_ffff,
        ;
        let product = (wide_left * wide_right) % modulus;
        Some(product as u64)
    } else if is_named(name, "arith.remui") {
        if right != 0 {
            Some(left % right)
        } else {
            None
        }
    } else {
        None
    }
}

/// The integer literal that `value` is, with its type.
fn literal_of<'a>(module: &'a Module, value: ValueRef) -> (found: Option<(u64, &'a Type)>)
    ensures
        match found {
            Some((number, ty)) => literal(module@, value) == Some((number, ty@)),
            None => literal(module@, value) is None,
        },
{
    match value {
        ValueRef::OperationResult { operation, index } => {
            if index != 0 || operation >= module.operation_count() {
                return None;
            }
            let op = module.operation(operation);
            if op.erased || !is_named(&op.name, "arith.constant") || op.results.len() != 1 {
                return None;
            }
            match find_attribute(&op.attributes, "value") {
                Some(at) => match &op.attributes[at].value {
                    Attribute::Integer { value: number, ty } => {
                        if types_equal(ty, &op.results[0]) {
                            Some((*number, &op.results[0]))
                        } else {
                            None
                        }
                    },
                    _ => None,
                },
                None => None,
            }
        },
        _ => None,
    }
}

/// The number that the operation `candidate` folds to, if it folds.
fn fold_operation(module: &Module, candidate: usize) -> (number: Option<u64>)
    ensures
        number == folds_to(module@, candidate),
{
    if candidate >= module.operation_count() {
        return None;
    }
    let op = module.operation(candidate);
    if op.erased || op.operands.len() != 2 || op.results.len() != 1 {
        return None;
    }
    let width = match op.results[0].integer_width() {
        Some(width) => width,
        None => {
            return None;
        },
    };
    let (left, left_type) = match literal_of(module, op.operands[0]) {
        Some(found) => found,
        None => {
            return None;
        },
    };
    let (right, right_type) = match literal_of(module, op.operands[1]) {
        Some(found) => found,
        None => {
            return None;
        },
    };
    if !types_equal(left_type, &op.results[0]) || !types_equal(right_type, &op.results[0]) {
        return None;
    }
    if width < 1 || width > 64 {
        return None;
    }
    let modulus = power_of_two(width);
    if left as u128 >= modulus || right as u128 >= modulus {
        return None;
    }
    fold(&op.name, left, right, width)
}

/// The plan that folds the operation `candidate`, if it folds.
pub fn plan_fold(module: &Module, candidate: usize) -> (made: Option<Plan>)
    requires
        module@.wf(),
    ensures
        match made {
            Some(plan) => fold_plan(module@, candidate) == Some(plan@) && plan_in_range(
                module@,
                candidate,
                plan@,
            ),
            None => fold_plan(module@, candidate) is None,
        },
{
    let number = match fold_operation(module, candidate) {
        Some(number) => number,
        None => {
            return None;
        },
    };
    let count = module.operation_count();
    if count >= usize::MAX {
        return None;
    }
    let op = module.operation(candidate);
    let ty = clone_type(&op.results[0]);
    let mut results: Vec<Type> = Vec::new();
    results.push(clone_type(&op.results[0]));
    let mut attributes: Vec<NamedAttribute> = Vec::new();
    attributes.push(NamedAttribute::new("value", Attribute::Integer { value: number, ty }));
    let created = Operation {
        name: String::from_str("arith.constant"),
        operands: Vec::new(),
        results,
        attributes,
        regions: Vec::new(),
        parent: op.parent,
        erased: false,
    };
    let mut operations: Vec<Operation> = Vec::new();
    let mut replacement: Vec<ValueRef> = Vec::new();
    proof {
        let wanted = literal_operation(number, op@.results[0], op.parent);
        assert(created@.operands =~= wanted.operands);
        assert(created@.results =~= wanted.results);
        assert(created@.attributes =~= wanted.attributes);
        assert(created@.regions =~= wanted.regions);
        assert(created@ == wanted);
    }
    operations.push(created);
    replacement.push(ValueRef::OperationResult { operation: count, index: 0 });
    let plan = Plan { operations, replacement };
    proof {
        let wanted = fold_plan(module@, candidate)->0;
        assert(plan@.operations =~= wanted.operations);
        assert(plan@.replacement =~= wanted.replacement);
        assert(extended(module@, plan@.operations).operations[count as int]
            == plan@.operations[0]);
    }
    Some(plan)
}

/// Whether an operation that is not erased reads a result of `candidate`.
fn has_reader(module: &Module, candidate: usize) -> (read: bool)
    ensures
        read == is_read(module@, candidate),
{
    let count = module.operation_count();
    let mut reader: usize = 0;
    while reader < count
        invariant
            reader <= count,
            count == module@.operations.len(),
            forall|r: int, place: int| 0 <= r < reader ==> !reads_at(module@, candidate, r, place),
        decreases count - reader,
    {
        let op = module.operation(reader);
        if !op.erased {
            let mut place: usize = 0;
            while place < op.operands.len()
                invariant
                    place <= op.operands.len(),
                    reader < count,
                    count == module@.operations.len(),
                    op@ == module@.operations[reader as int],
                    !op.erased,
                    forall|p: int|
                        0 <= p < place ==> !reads_at(module@, candidate, reader as int, p),
                decreases op.operands.len() - place,
            {
                let own = match op.operands[place] {
                    ValueRef::OperationResult { operation, index } => operation == candidate,
                    _ => false,
                };
                if own {
                    assert(reads_at(module@, candidate, reader as int, place as int));
                    return true;
                }
                place += 1;
            }
        }
        reader += 1;
    }
    false
}

/// The plan that erases the operation `candidate`, if it is unused.
pub fn plan_erase(module: &Module, candidate: usize) -> (made: Option<Plan>)
    requires
        module@.wf(),
    ensures
        match made {
            Some(plan) => erase_plan(module@, candidate) == Some(plan@) && plan_in_range(
                module@,
                candidate,
                plan@,
            ),
            None => erase_plan(module@, candidate) is None,
        },
{
    if candidate >= module.operation_count() {
        return None;
    }
    let op = module.operation(candidate);
    if op.erased || op.regions.len() != 0 {
        return None;
    }
    let known = is_named(&op.name, "arith.constant") || is_named(&op.name, "arith.addi")
        || is_named(&op.name, "arith.subi") || is_named(&op.name, "arith.muli") || is_named(
        &op.name,
        "arith.remui",
    );
    if !known || has_reader(module, candidate) {
        return None;
    }
    let plan = Plan { operations: Vec::new(), replacement: Vec::new() };
    proof {
        assert(plan@.operations =~= Seq::empty());
        assert(plan@.replacement =~= Seq::empty());
    }
    Some(plan)
}

} // verus!
