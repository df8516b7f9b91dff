//! The dialects that every context starts with.
//!
//! `func` has functions and their return, `arith` integer arithmetic and
//! literals, `irdl` the operations that define dialects, and `pdl` those
//! that describe patterns.

use vstd::prelude::*;
use crate::attribute::Variadicity;
use crate::constraint::{slots_view, Slot, SlotView, TypeConstraint, TypeConstraintView};
use crate::registry::{
    lemma_position_missing, ContextView, Dialect, DialectView, OperationConstraint,
    OperationConstraintView,
};
use crate::types::{Type, TypeView};

verus! {

/// One value of a type that `accepts` holds of.
pub open spec fn single(accepts: TypeConstraintView) -> SlotView {
    SlotView { accepts, variadicity: Variadicity::Single }
}

/// At most one value of a type that `accepts` holds of.
pub open spec fn optional(accepts: TypeConstraintView) -> SlotView {
    SlotView { accepts, variadicity: Variadicity::Optional }
}

/// Any number of values of types that `accepts` holds of.
pub open spec fn variadic(accepts: TypeConstraintView) -> SlotView {
    SlotView { accepts, variadicity: Variadicity::Variadic }
}

/// Exactly the dialect-defined type of the name `name`.
pub open spec fn is_kind(name: Seq<char>) -> TypeConstraintView {
    TypeConstraintView::Is(TypeView::Opaque(name))
}

/// The constraint with the slots `operands` and `results`.
pub open spec fn constraint(operands: Seq<SlotView>, results: Seq<SlotView>) -> OperationConstraintView {
    OperationConstraintView { operands, results }
}

/// The dialect `func`: `func` takes and gives nothing, `return` takes any
/// number of values and gives nothing.
pub open spec fn func_dialect() -> DialectView {
    DialectView {
        name: "func"@,
        names: seq!["func"@, "return"@],
        constraints: seq![
            constraint(Seq::empty(), Seq::empty()),
            constraint(seq![variadic(TypeConstraintView::Any)], Seq::empty()),
        ],
    }
}

/// The constraint of an operation on two integers that gives one.
pub open spec fn binary() -> OperationConstraintView {
    constraint(
        seq![single(TypeConstraintView::AnyInteger), single(TypeConstraintView::AnyInteger)],
        seq![single(TypeConstraintView::AnyInteger)],
    )
}

/// The dialect `arith`: sum, difference, product and remainder of two
/// integers, and the literal, which takes nothing and gives one value.
pub open spec fn arith_dialect() -> DialectView {
    DialectView {
        name: "arith"@,
        names: seq!["addi"@, "subi"@, "muli"@, "remui"@, "constant"@],
        constraints: seq![
            binary(),
            binary(),
            binary(),
            binary(),
            constraint(Seq::empty(), seq![single(TypeConstraintView::Any)]),
        ],
    }
}

/// The dialect `irdl`: `dialect` and `operation` take and give nothing,
/// `is` and `any` give one constraint, `operands` and `results` take any
/// number of constraints.
pub open spec fn irdl_dialect() -> DialectView {
    DialectView {
        name: "irdl"@,
        names: seq!["dialect"@, "operation"@, "is"@, "any"@, "operands"@, "results"@],
        constraints: seq![
            constraint(Seq::empty(), Seq::empty()),
            constraint(Seq::empty(), Seq::empty()),
            constraint(Seq::empty(), seq![single(is_kind("irdl.attribute"@))]),
            constraint(Seq::empty(), seq![single(is_kind("irdl.attribute"@))]),
            constraint(seq![variadic(is_kind("irdl.attribute"@))], Seq::empty()),
            constraint(seq![variadic(is_kind("irdl.attribute"@))], Seq::empty()),
        ],
    }
}

/// The dialect `pdl`: the operations that describe a pattern.
pub open spec fn pdl_dialect() -> DialectView {
    DialectView {
        name: "pdl"@,
        names: seq![
            "pattern"@,
            "type"@,
            "operand"@,
            "attribute"@,
            "operation"@,
            "result"@,
            "rewrite"@,
            "replace"@,
            "erase"@,
        ],
        constraints: seq![
            constraint(Seq::empty(), Seq::empty()),
            constraint(Seq::empty(), seq![single(is_kind("pdl.type"@))]),
            constraint(seq![optional(is_kind("pdl.type"@))], seq![single(is_kind("pdl.value"@))]),
            constraint(
                seq![optional(is_kind("pdl.type"@))],
                seq![single(is_kind("pdl.attribute"@))],
            ),
            constraint(
                seq![variadic(TypeConstraintView::Any)],
                seq![single(is_kind("pdl.operation"@))],
            ),
            constraint(
                seq![single(is_kind("pdl.operation"@))],
                seq![single(is_kind("pdl.value"@))],
            ),
            constraint(seq![variadic(TypeConstraintView::Any)], Seq::empty()),
            constraint(seq![variadic(TypeConstraintView::Any)], Seq::empty()),
            constraint(seq![single(is_kind("pdl.operation"@))], Seq::empty()),
        ],
    }
}

/// The context that holds the four dialects `func`, `arith`, `irdl` and
/// `pdl`, in this order, and no other.
pub open spec fn initial_context() -> ContextView {
    ContextView { dialects: seq![func_dialect(), arith_dialect(), irdl_dialect(), pdl_dialect()] }
}

/// Exactly the dialect-defined type of the name `name`.
fn kind(name: &str) -> (accepts: TypeConstraint)
    ensures
        accepts@ == is_kind(name@),
{
    TypeConstraint::Is(Type::opaque(name))
}

/// The constraint without operands and with the results `results`.
fn gives(results: Vec<Slot>) -> (made: OperationConstraint)
    ensures
        made@ == constraint(Seq::empty(), slots_view(results@)),
{
    let operands: Vec<Slot> = Vec::new();
    proof {
        assert(slots_view(operands@) =~= Seq::empty());
    }
    OperationConstraint::new(operands, results)
}

/// No slots.
fn none() -> (slots: Vec<Slot>)
    ensures
        slots_view(slots@) == Seq::<SlotView>::empty(),
{
    let slots: Vec<Slot> = Vec::new();
    proof {
        assert(slots_view(slots@) =~= Seq::empty());
    }
    slots
}

/// The one slot `slot`.
fn one(slot: Slot) -> (slots: Vec<Slot>)
    ensures
        slots_view(slots@) == seq![slot@],
{
    let mut slots: Vec<Slot> = Vec::new();
    slots.push(slot);
    proof {
        assert(slots_view(slots@) =~= seq![slot@]);
    }
    slots
}

/// The two slots `first` and `second`.
fn two(first: Slot, second: Slot) -> (slots: Vec<Slot>)
    ensures
        slots_view(slots@) == seq![first@, second@],
{
    let mut slots: Vec<Slot> = Vec::new();
    slots.push(first);
    slots.push(second);
    proof {
        assert(slots_view(slots@) =~= seq![first@, second@]);
    }
    slots
}

/// The constraint of an operation on two integers that gives one.
fn binary_constraint() -> (made: OperationConstraint)
    ensures
        made@ == binary(),
{
    OperationConstraint::new(
        two(Slot::single(TypeConstraint::AnyInteger), Slot::single(TypeConstraint::AnyInteger)),
        one(Slot::single(TypeConstraint::AnyInteger)),
    )
}

/// Gives `dialect` the operation `operation`, whose name it must not have yet.
fn give(dialect: &mut Dialect, operation: &str, made: OperationConstraint)
    requires
        old(dialect)@.wf(),
        forall|k: int| 0 <= k < old(dialect)@.names.len() ==> old(dialect)@.names[k] != operation@,
    ensures
        final(dialect)@.wf(),
        final(dialect)@ == (DialectView {
            name: old(dialect)@.name,
            names: old(dialect)@.names.push(operation@),
            constraints: old(dialect)@.constraints.push(made@),
        }),
{
    proof {
        lemma_position_missing(dialect@.names, operation@);
    }
    dialect.define(operation, made);
}

/// The dialect `func`.
pub fn make_func_dialect() -> (dialect: Dialect)
    ensures
        dialect@ == func_dialect(),
        dialect@.wf(),
{
    let mut dialect = Dialect::new("func");
    give(&mut dialect, "func", OperationConstraint::new(none(), none()));
    proof {
        reveal_strlit("func");
        reveal_strlit("return");
        assert("func"@.len() != "return"@.len());
    }
    give(
        &mut dialect,
        "return",
        OperationConstraint::new(one(Slot::variadic(TypeConstraint::Any)), none()),
    );
    proof {
        assert(dialect@.names =~= func_dialect().names);
        assert(dialect@.constraints =~= func_dialect().constraints);
    }
    dialect
}

/// The dialect `arith`.
pub fn make_arith_dialect() -> (dialect: Dialect)
    ensures
        dialect@ == arith_dialect(),
        dialect@.wf(),
{
    proof {
        reveal_strlit("addi");
        reveal_strlit("subi");
        reveal_strlit("muli");
        reveal_strlit("remui");
        reveal_strlit("constant");
        assert("addi"@[0] != "subi"@[0]);
        assert("addi"@[0] != "muli"@[0]);
        assert("subi"@[0] != "muli"@[0]);
        assert("addi"@.len() != "remui"@.len());
        assert("addi"@.len() != "constant"@.len());
        assert("remui"@.len() != "constant"@.len());
    }
    let mut dialect = Dialect::new("arith");
    give(&mut dialect, "addi", binary_constraint());
    give(&mut dialect, "subi", binary_constraint());
    give(&mut dialect, "muli", binary_constraint());
    give(&mut dialect, "remui", binary_constraint());
    give(&mut dialect, "constant", gives(one(Slot::single(TypeConstraint::Any))));
    proof {
        assert(dialect@.names =~= arith_dialect().names);
        assert(dialect@.constraints =~= arith_dialect().constraints);
    }
    dialect
}

/// The dialect `irdl`.
pub fn make_irdl_dialect() -> (dialect: Dialect)
    ensures
        dialect@ == irdl_dialect(),
        dialect@.wf(),
{
    proof {
        reveal_strlit("dialect");
        reveal_strlit("operation");
        reveal_strlit("is");
        reveal_strlit("any");
        reveal_strlit("operands");
        reveal_strlit("results");
        assert("dialect"@.len() == 7);
        assert("operation"@.len() == 9);
        assert("is"@.len() == 2);
        assert("any"@.len() == 3);
        assert("operands"@.len() == 8);
        assert("results"@.len() == 7);
        assert("dialect"@[0] != "results"@[0]);
    }
    let mut dialect = Dialect::new("irdl");
    give(&mut dialect, "dialect", OperationConstraint::new(none(), none()));
    give(&mut dialect, "operation", OperationConstraint::new(none(), none()));
    give(&mut dialect, "is", gives(one(Slot::single(kind("irdl.attribute")))));
    give(&mut dialect, "any", gives(one(Slot::single(kind("irdl.attribute")))));
    give(
        &mut dialect,
        "operands",
        OperationConstraint::new(one(Slot::variadic(kind("irdl.attribute"))), none()),
    );
    give(
        &mut dialect,
        "results",
        OperationConstraint::new(one(Slot::variadic(kind("irdl.attribute"))), none()),
    );
    proof {
        assert(dialect@.names =~= irdl_dialect().names);
        assert(dialect@.constraints =~= irdl_dialect().constraints);
    }
    dialect
}

/// The names of the operations of `pdl` differ from one another.
proof fn lemma_pdl_names_differ()
    ensures
        "pattern"@ != "type"@,
        "pattern"@ != "operand"@,
        "pattern"@ != "attribute"@,
        "pattern"@ != "operation"@,
        "pattern"@ != "result"@,
        "pattern"@ != "rewrite"@,
        "pattern"@ != "replace"@,
        "pattern"@ != "erase"@,
        "type"@ != "operand"@,
        "type"@ != "attribute"@,
        "type"@ != "operation"@,
        "type"@ != "result"@,
        "type"@ != "rewrite"@,
        "type"@ != "replace"@,
        "type"@ != "erase"@,
        "operand"@ != "attribute"@,
        "operand"@ != "operation"@,
        "operand"@ != "result"@,
        "operand"@ != "rewrite"@,
        "operand"@ != "replace"@,
        "operand"@ != "erase"@,
        "attribute"@ != "operation"@,
        "attribute"@ != "result"@,
        "attribute"@ != "rewrite"@,
        "attribute"@ != "replace"@,
        "attribute"@ != "erase"@,
        "operation"@ != "result"@,
        "operation"@ != "rewrite"@,
        "operation"@ != "replace"@,
        "operation"@ != "erase"@,
        "result"@ != "rewrite"@,
        "result"@ != "replace"@,
        "result"@ != "erase"@,
        "rewrite"@ != "replace"@,
        "rewrite"@ != "erase"@,
        "replace"@ != "erase"@,
{
    reveal_strlit("pattern");
    reveal_strlit("type");
    reveal_strlit("operand");
    reveal_strlit("attribute");
    reveal_strlit("operation");
    reveal_strlit("result");
    reveal_strlit("rewrite");
    reveal_strlit("replace");
    reveal_strlit("erase");
    assert("pattern"@.len() == 7);
    assert("type"@.len() == 4);
    assert("operand"@.len() == 7);
    assert("attribute"@.len() == 9);
    assert("operation"@.len() == 9);
    assert("result"@.len() == 6);
    assert("rewrite"@.len() == 7);
    assert("replace"@.len() == 7);
    assert("erase"@.len() == 5);
    assert("pattern"@[0] != "operand"@[0]);
    assert("pattern"@[0] != "rewrite"@[0]);
    assert("pattern"@[0] != "replace"@[0]);
    assert("operand"@[0] != "rewrite"@[0]);
    assert("operand"@[0] != "replace"@[0]);
    assert("rewrite"@[2] != "replace"@[2]);
    assert("attribute"@[0] != "operation"@[0]);
}

/// The dialect `pdl`.
pub fn make_pdl_dialect() -> (dialect: Dialect)
    ensures
        dialect@ == pdl_dialect(),
        dialect@.wf(),
{
    proof {
        lemma_pdl_names_differ();
    }
    let mut dialect = Dialect::new("pdl");
    give(&mut dialect, "pattern", OperationConstraint::new(none(), none()));
    give(&mut dialect, "type", gives(one(Slot::single(kind("pdl.type")))));
    give(
        &mut dialect,
        "operand",
        OperationConstraint::new(
            one(Slot::optional(kind("pdl.type"))),
            one(Slot::single(kind("pdl.value"))),
        ),
    );
    give(
        &mut dialect,
        "attribute",
        OperationConstraint::new(
            one(Slot::optional(kind("pdl.type"))),
            one(Slot::single(kind("pdl.attribute"))),
        ),
    );
    give(
        &mut dialect,
        "operation",
        OperationConstraint::new(
            one(Slot::variadic(TypeConstraint::Any)),
            one(Slot::single(kind("pdl.operation"))),
        ),
    );
    give(
        &mut dialect,
        "result",
        OperationConstraint::new(
            one(Slot::single(kind("pdl.operation"))),
            one(Slot::single(kind("pdl.value"))),
        ),
    );
    give(
        &mut dialect,
        "rewrite",
        OperationConstraint::new(one(Slot::variadic(TypeConstraint::Any)), none()),
    );
    give(
        &mut dialect,
        "replace",
        OperationConstraint::new(one(Slot::variadic(TypeConstraint::Any)), none()),
    );
    give(
        &mut dialect,
        "erase",
        OperationConstraint::new(one(Slot::single(kind("pdl.operation"))), none()),
    );
    proof {
        assert(dialect@.names =~= pdl_dialect().names);
        assert(dialect@.constraints =~= pdl_dialect().constraints);
    }
    dialect
}

/// The names of the four dialects differ from one another.
pub proof fn lemma_dialect_names_differ()
    ensures
        "func"@ != "arith"@,
        "func"@ != "irdl"@,
        "func"@ != "pdl"@,
        "arith"@ != "irdl"@,
        "arith"@ != "pdl"@,
        "irdl"@ != "pdl"@,
{
    reveal_strlit("func");
    reveal_strlit("arith");
    reveal_strlit("irdl");
    reveal_strlit("pdl");
    assert("func"@.len() == 4);
    assert("arith"@.len() == 5);
    assert("irdl"@.len() == 4);
    assert("pdl"@.len() == 3);
    assert("func"@[0] != "irdl"@[0]);
}

} // verus!
