//! The canonical form of a module: what the built-in rules reduce it to.
//!
//! Folding and erasing always come to an end: each rewrite lowers a measure
//! of the module, so the canonical form is reached without any limit of
//! iterations, and canonicalizing a second time changes nothing.

use vstd::prelude::*;
use crate::builtin::{
    erase_plan, fold_plan, folds_to, is_arithmetic_name, is_literal_name, is_unused,
};
use crate::engine::{
    applies, applies_at, best, is_best, is_next, lemma_fixpoint_admits_no_rewrite,
    lemma_no_rewrite_changes_nothing, proposal, run, step,
};
use crate::ir::{ModuleView, OperationView};
use crate::pattern::PatternView;
use crate::plan::PlanView;
use crate::rewrite::{commit, inside, with_erased_subtree, with_inserted, with_redirected};

verus! {

/// The built-in set of patterns: folding first, erasing second.
pub open spec fn canonical_patterns() -> Seq<PatternView> {
    seq![PatternView::FoldConstants, PatternView::EraseUnused]
}

/// The canonical form of `module`: what the built-in patterns make of it.
pub open spec fn canonical_form(module: ModuleView) -> ModuleView {
    run(module, canonical_patterns(), measure(module)).0
}

/// Whether `module` is in canonical form: whether no built-in pattern
/// applies anywhere in it.
pub open spec fn is_canonical(module: ModuleView) -> bool {
    step(module, canonical_patterns()) is None
}

/// What an operation counts in the measure of a module: nothing if it is
/// erased, 1 if it is a literal, 2 otherwise.
pub open spec fn weight(op: OperationView) -> nat {
    if op.erased {
        0
    } else if is_literal_name(op.name) {
        1
    } else {
        2
    }
}

/// The sum of the weights of the first `count` of `operations`.
pub open spec fn weight_below(operations: Seq<OperationView>, count: int) -> nat
    decreases count,
{
    if count <= 0 {
        0
    } else {
        weight_below(operations, count - 1) + weight(operations[count - 1])
    }
}

/// The measure of a module: the sum of the weights of its operations. Every
/// rewrite by a built-in pattern lowers it.
pub open spec fn measure(module: ModuleView) -> nat {
    weight_below(module.operations, module.operations.len() as int)
}

/// Where no operation weighs more in `lighter` than in `heavier`, and the
/// one at `at` weighs less by `drop` at least, the sum is less by `drop` at
/// least.
pub proof fn lemma_weight_drops(
    heavier: Seq<OperationView>,
    lighter: Seq<OperationView>,
    count: int,
    at: int,
    drop: nat,
)
    requires
        0 <= at < count,
        forall|k: int| 0 <= k < count ==> weight(#[trigger] lighter[k]) <= weight(heavier[k]),
        weight(lighter[at]) + drop <= weight(heavier[at]),
    ensures
        weight_below(lighter, count) + drop <= weight_below(heavier, count),
    decreases count,
{
    if at == count - 1 {
        lemma_weight_no_more(heavier, lighter, count - 1);
    } else {
        lemma_weight_drops(heavier, lighter, count - 1, at, drop);
    }
}

/// Where no operation weighs more in `lighter` than in `heavier`, the sum
/// is no more either.
pub proof fn lemma_weight_no_more(
    heavier: Seq<OperationView>,
    lighter: Seq<OperationView>,
    count: int,
)
    requires
        forall|k: int| 0 <= k < count ==> weight(#[trigger] lighter[k]) <= weight(heavier[k]),
    ensures
        weight_below(lighter, count) <= weight_below(heavier, count),
    decreases count,
{
    if count > 0 {
        lemma_weight_no_more(heavier, lighter, count - 1);
    }
}

/// The names of the arithmetic operations are not that of the literal.
pub proof fn lemma_arithmetic_is_no_literal(name: Seq<char>)
    requires
        is_arithmetic_name(name),
    ensures
        !is_literal_name(name),
{
    reveal_strlit("arith.constant");
    reveal_strlit("arith.addi");
    reveal_strlit("arith.subi");
    reveal_strlit("arith.muli");
    reveal_strlit("arith.remui");
    assert("arith.constant"@.len() == 14);
    assert("arith.addi"@.len() == 10);
    assert("arith.subi"@.len() == 10);
    assert("arith.muli"@.len() == 10);
    assert("arith.remui"@.len() == 11);
}

/// Carrying out a plan that creates at most one operation, for a root that
/// is not erased, lowers the measure by the weight of the root, less the
/// weight of what is created.
pub proof fn lemma_commit_measure(module: ModuleView, root: usize, plan: PlanView)
    requires
        module.is_live(root as int),
        plan.operations.len() <= 1,
    ensures
        measure(commit(module, root, plan)) + weight(module.operations[root as int]) <= measure(
            module,
        ) + (if plan.operations.len() == 1 {
            weight(plan.operations[0])
        } else {
            0
        }),
{
    let inserted = with_inserted(module, root, plan.operations);
    let moved = with_redirected(inserted, root, plan.replacement);
    let after = with_erased_subtree(moved, root);
    let count = module.operations.len() as int;
    assert(after == commit(module, root, plan));
    assert(after.operations.len() == count + plan.operations.len());
    assert forall|k: int| 0 <= k < count implies weight(#[trigger] after.operations[k]) <= weight(
        module.operations[k],
    ) by {
        assert(inserted.operations[k] == module.operations[k]);
        assert(moved.operations[k].name == inserted.operations[k].name);
        assert(moved.operations[k].erased == inserted.operations[k].erased);
    }
    assert(inside(moved, root as int, root as int));
    assert(after.operations[root as int].erased);
    lemma_weight_drops(
        module.operations,
        after.operations,
        count,
        root as int,
        weight(module.operations[root as int]),
    );
    if plan.operations.len() == 1 {
        assert(inserted.operations[count] == plan.operations[0]);
        assert(moved.operations[count].name == plan.operations[0].name);
        assert(moved.operations[count].erased == plan.operations[0].erased);
        assert(weight(after.operations[count]) <= weight(plan.operations[0]));
    }
}

/// A rewrite by a built-in pattern lowers the measure of the module.
pub proof fn lemma_step_lowers_measure(module: ModuleView)
    requires
        step(module, canonical_patterns()) is Some,
    ensures
        measure(step(module, canonical_patterns())->0) < measure(module),
{
    let patterns = canonical_patterns();
    let candidate = (choose|candidate: int| is_next(module, patterns, candidate)) as usize;
    assert(is_next(module, patterns, candidate as int));
    let witness = choose|place: int| applies_at(module, patterns, candidate, place);
    assert(applies_at(module, patterns, candidate, witness));
    lemma_some_is_best(module, candidate);
    let place = best(module, patterns, candidate);
    assert(is_best(module, patterns, candidate, place));
    let plan = proposal(module, patterns[place], candidate)->0;
    let op = module.operations[candidate as int];
    if place == 0 {
        assert(fold_plan(module, candidate) == Some(plan));
        assert(folds_to(module, candidate) is Some);
        lemma_folded_is_arithmetic(module, candidate);
        lemma_arithmetic_is_no_literal(op.name);
        assert(weight(plan.operations[0]) <= 1);
        lemma_commit_measure(module, candidate, plan);
    } else {
        assert(place == 1);
        assert(erase_plan(module, candidate) == Some(plan));
        assert(is_unused(module, candidate));
        lemma_commit_measure(module, candidate, plan);
    }
}

/// An operation that folds is an arithmetic operation.
pub proof fn lemma_folded_is_arithmetic(module: ModuleView, candidate: usize)
    requires
        folds_to(module, candidate) is Some,
    ensures
        module.is_live(candidate as int),
        is_arithmetic_name(module.operations[candidate as int].name),
{
}

/// Where a built-in pattern applies at an operation, one of the two is the
/// one to take.
pub proof fn lemma_some_is_best(module: ModuleView, candidate: usize)
    requires
        applies(module, canonical_patterns(), candidate),
    ensures
        exists|place: int| is_best(module, canonical_patterns(), candidate, place),
{
    let patterns = canonical_patterns();
    if applies_at(module, patterns, candidate, 0) {
        assert(is_best(module, patterns, candidate, 0));
    } else {
        let witness = choose|place: int| applies_at(module, patterns, candidate, place);
        assert(witness == 1);
        assert(is_best(module, patterns, candidate, 1));
    }
}

/// With as many iterations as the measure of the module, the built-in
/// patterns reach a fixpoint.
pub proof fn lemma_canonical_run_converges(module: ModuleView, fuel: nat)
    requires
        measure(module) <= fuel,
    ensures
        run(module, canonical_patterns(), fuel).1,
    decreases fuel,
{
    match step(module, canonical_patterns()) {
        None => {},
        Some(next) => {
            lemma_step_lowers_measure(module);
            lemma_canonical_run_converges(next, (fuel - 1) as nat);
        },
    }
}

/// The canonical form of a module is in canonical form.
pub proof fn lemma_canonical_form_is_canonical(module: ModuleView)
    ensures
        is_canonical(canonical_form(module)),
{
    lemma_canonical_run_converges(module, measure(module));
    lemma_fixpoint_admits_no_rewrite(module, canonical_patterns(), measure(module));
}

/// A module in canonical form is its own canonical form.
pub proof fn lemma_canonical_is_unchanged(module: ModuleView)
    requires
        is_canonical(module),
    ensures
        canonical_form(module) == module,
{
    lemma_no_rewrite_changes_nothing(module, canonical_patterns(), measure(module));
}

/// Canonicalizing is idempotent: the canonical form of a canonical form is
/// that canonical form.
pub proof fn lemma_canonicalize_is_idempotent(module: ModuleView)
    ensures
        canonical_form(canonical_form(module)) == canonical_form(module),
{
    lemma_canonical_form_is_canonical(module);
    lemma_canonical_is_unchanged(canonical_form(module));
}

/// A module without operations is in canonical form.
pub proof fn lemma_empty_is_canonical(module: ModuleView)
    requires
        module.operations.len() == 0,
    ensures
        is_canonical(module),
        canonical_form(module) == module,
{
    assert forall|candidate: int| !is_next(module, canonical_patterns(), candidate) by {}
    lemma_canonical_is_unchanged(module);
}

} // verus!
