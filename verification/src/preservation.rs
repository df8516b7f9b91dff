//! Why rewriting keeps a module well-structured: a plan whose new
//! operations read only what is in scope for the replaced operation, and
//! whose replacement covers every use of its results, leaves a tree in
//! which every operation still reads only what is in scope.

use vstd::prelude::*;
use crate::builtin::{erase_plan, fold_plan, reads_at};
use crate::ir::{ModuleView, OperationView, ValueRef};
use crate::pattern::{BindingView, PatternNodeView, RewritePatternView};
use crate::plan::{
    extended, is_result_of, lemma_plan_in_range, plan, plan_from, plan_in_range, plan_node,
    planned_operation, planned_operations, usable, PlanView,
};
use crate::rewrite::{
    commit, enclosing, fresh_ids, inside, lemma_erased_wf, lemma_inserted_wf, lemma_redirected_wf,
    position_in, redirected, spliced, with_erased_subtree, with_inserted, with_redirected,
};
use crate::scope::{
    defined_before, entry_agrees, follows_owner, in_scope, is_listed, lemma_place_at_end,
    lemma_position_bounds, lemma_position_is, operand_in_scope, place_of, siblings, structured,
    tree_shaped, well_scoped,
};

verus! {

/// Whether `value` may be read by a new operation that is created as the
/// one numbered `limit`: it is no result of `root`, and it is a result of
/// a new operation created before, or in scope for `root`.
pub open spec fn earlier_or_in_scope(
    module: ModuleView,
    root: usize,
    limit: int,
    value: ValueRef,
) -> bool {
    &&& !is_result_of(value, root)
    &&& match value {
        ValueRef::OperationResult { operation, index } => {
            if operation >= module.operations.len() {
                operation < limit
            } else {
                in_scope(module, root as int, value)
            }
        },
        _ => in_scope(module, root as int, value),
    }
}

/// Whether `plan` keeps to the scope of `root`: no new operation is
/// erased, each reads only results of new operations created before it and
/// what is in scope for `root`, and the same holds of the values that take
/// the place of the results of `root`.
pub open spec fn plan_scoped(module: ModuleView, root: usize, plan: PlanView) -> bool {
    let base = module.operations.len() as int;
    &&& forall|k: int| 0 <= k < plan.operations.len() ==> !(#[trigger] plan.operations[k]).erased
    &&& forall|k: int, j: int|
        0 <= k < plan.operations.len() && 0 <= j < plan.operations[k].operands.len()
            ==> earlier_or_in_scope(module, root, base + k, #[trigger] plan.operations[k].operands[j])
    &&& forall|i: int|
        0 <= i < plan.replacement.len() ==> earlier_or_in_scope(
            module,
            root,
            base + plan.operations.len(),
            #[trigger] plan.replacement[i],
        )
}

/// Whether the operand `place` of the operation `id`, if it is a result of
/// `root`, is one for which `count` values stand ready to take its place.
pub open spec fn use_covered(module: ModuleView, root: usize, count: nat, id: int, place: int) -> bool {
    match module.operations[id].operands[place] {
        ValueRef::OperationResult { operation, index } => operation == root ==> index < count,
        _ => true,
    }
}

/// Whether `plan` has a value for the place of every result of `root` that
/// an operation that is not erased reads.
pub open spec fn covered(module: ModuleView, root: usize, plan: PlanView) -> bool {
    forall|id: int, place: int|
        module.is_live(id) && 0 <= place < module.operations[id].operands.len()
            ==> #[trigger] use_covered(module, root, plan.replacement.len(), id, place)
}

/// Where fresh numbers are entered into a list of lower numbers, every
/// number keeps its place before the point of entry, moves up by the number
/// of new entries behind it, and the fresh numbers stand in between.
pub proof fn lemma_position_spliced(entries: Seq<usize>, at: int, base: int, count: int, id: usize)
    requires
        0 <= at <= entries.len(),
        0 <= count,
        0 <= base,
        base + count <= usize::MAX,
        forall|k: int| 0 <= k < entries.len() ==> (#[trigger] entries[k]) < base,
    ensures
        ({
            let out = spliced(entries, at, fresh_ids(base, count));
            let old_place = position_in(entries, id);
            &&& id < base && old_place < at ==> position_in(out, id) == old_place
            &&& id < base && old_place >= at ==> position_in(out, id) == old_place + count
            &&& base <= id < base + count ==> position_in(out, id) == at + (id - base)
        }),
{
    let fresh = fresh_ids(base, count);
    let out = spliced(entries, at, fresh);
    let old_place = position_in(entries, id);
    lemma_position_bounds(entries, id);
    assert(out.len() == entries.len() + count);
    assert forall|k: int| 0 <= k < out.len() implies (#[trigger] out[k]) == (if k < at {
        entries[k]
    } else if k < at + count {
        (base + (k - at)) as usize
    } else {
        entries[k - count]
    }) by {}
    if id < base {
        if old_place < at {
            assert(out[old_place] == id);
            assert forall|k: int| 0 <= k < old_place implies out[k] != id by {}
            lemma_position_is(out, id, old_place);
        } else if old_place < entries.len() {
            assert(out[old_place + count] == id);
            assert forall|k: int| 0 <= k < old_place + count implies out[k] != id by {
                if k >= at + count {
                    assert(entries[k - count] != id);
                }
            }
            lemma_position_is(out, id, old_place + count);
        } else {
            assert forall|k: int| 0 <= k < out.len() implies out[k] != id by {
                if k < at {
                    assert(entries[k] != id);
                } else if k >= at + count {
                    assert(entries[k - count] != id);
                }
            }
            lemma_place_at_end(out, id);
        }
    } else if id < base + count {
        let hit = at + (id - base);
        assert(out[hit] == id);
        assert forall|k: int| 0 <= k < hit implies out[k] != id by {
            if k < at {
                assert(entries[k] < base);
            }
        }
        lemma_position_is(out, id, hit);
    }
}

/// Where an entry is taken out of a list, every other number keeps its
/// place before that entry and moves down by one behind it.
pub proof fn lemma_position_removed(entries: Seq<usize>, at: int, id: usize)
    requires
        0 <= at < entries.len(),
        entries[at] != id,
    ensures
        position_in(entries.remove(at), id) == if position_in(entries, id) < at {
            position_in(entries, id)
        } else {
            position_in(entries, id) - 1
        },
{
    let out = entries.remove(at);
    let old_place = position_in(entries, id);
    lemma_position_bounds(entries, id);
    assert forall|k: int| 0 <= k < out.len() implies (#[trigger] out[k]) == (if k < at {
        entries[k]
    } else {
        entries[k + 1]
    }) by {}
    if old_place < at {
        assert(out[old_place] == id);
        assert forall|k: int| 0 <= k < old_place implies out[k] != id by {}
        lemma_position_is(out, id, old_place);
    } else if old_place < entries.len() {
        assert(out[old_place - 1] == id);
        assert forall|k: int| 0 <= k < old_place - 1 implies out[k] != id by {
            if k >= at {
                assert(entries[k + 1] != id);
            }
        }
        lemma_position_is(out, id, old_place - 1);
    } else {
        assert forall|k: int| 0 <= k < out.len() implies out[k] != id by {
            if k < at {
                assert(entries[k] != id);
            } else {
                assert(entries[k + 1] != id);
            }
        }
        lemma_place_at_end(out, id);
    }
}

/// Whether two modules have the same blocks and, operation by operation,
/// the same place in them and the same state of erasure, whatever the
/// operations read.
pub open spec fn same_frame(first: ModuleView, second: ModuleView) -> bool {
    &&& first.blocks == second.blocks
    &&& first.operations.len() == second.operations.len()
    &&& forall|id: int|
        0 <= id < first.operations.len() ==> (#[trigger] first.operations[id]).parent
            == second.operations[id].parent && first.operations[id].erased
            == second.operations[id].erased
}

/// What is in scope does not depend on what the operations read.
pub proof fn lemma_scope_in_same_frame(
    first: ModuleView,
    second: ModuleView,
    reader: int,
    value: ValueRef,
)
    requires
        same_frame(first, second),
    ensures
        in_scope(first, reader, value) == in_scope(second, reader, value),
    decreases reader,
{
    if 0 <= reader < first.operations.len() {
        assert(first.operations[reader].parent == second.operations[reader].parent);
        match value {
            ValueRef::OperationResult { operation, index } => {
                if operation < first.operations.len() {
                    assert(first.operations[operation as int].parent
                        == second.operations[operation as int].parent);
                }
            },
            _ => {},
        }
        assert(defined_before(first, reader, value) == defined_before(second, reader, value));
        assert(enclosing(first, reader) == enclosing(second, reader));
        match enclosing(first, reader) {
            Some(owner) => {
                if owner < reader {
                    lemma_scope_in_same_frame(first, second, owner as int, value);
                }
            },
            None => {},
        }
    }
}

/// The shape of a module does not depend on what the operations read.
pub proof fn lemma_tree_in_same_frame(first: ModuleView, second: ModuleView)
    requires
        first.wf(),
        same_frame(first, second),
        tree_shaped(first),
    ensures
        tree_shaped(second),
{
    assert forall|id: int| 0 <= id < second.operations.len() implies #[trigger] is_listed(
        second,
        id,
    ) by {
        assert(is_listed(first, id));
        assert(first.operations[id].parent == second.operations[id].parent);
    }
    assert forall|block: int, place: int|
        0 <= block < second.blocks.len() && 0 <= place
            < second.blocks[block].operations.len() implies #[trigger] entry_agrees(
        second,
        block,
        place,
    ) by {
        assert(entry_agrees(first, block, place));
        assert(first.block_in_range(block));
        let entry = first.blocks[block].operations[place] as int;
        assert(first.operations[entry].parent == second.operations[entry].parent);
    }
    assert forall|id: int| 0 <= id < second.operations.len() implies #[trigger] follows_owner(
        second,
        id,
    ) by {
        assert(follows_owner(first, id));
        assert(first.operations[id].parent == second.operations[id].parent);
    }
}

/// What is needed of a module, an operation of it and a plan for the
/// rewrite to keep the module well-structured.
pub open spec fn fit_for(module: ModuleView, root: usize, plan: PlanView) -> bool {
    &&& structured(module)
    &&& module.is_live(root as int)
    &&& plan_in_range(module, root, plan)
    &&& plan_scoped(module, root, plan)
    &&& covered(module, root, plan)
}

/// The place of an operation of the module after new operations were
/// entered: where it was, or further back by their number if it stood in
/// the block of `root` and not before it.
pub proof fn lemma_inserted_place(module: ModuleView, root: usize, plan: PlanView, id: int)
    requires
        fit_for(module, root, plan),
        0 <= id < module.operations.len(),
    ensures
        ({
            let after = with_inserted(module, root, plan.operations);
            let at = place_of(module, root as int);
            let moved = module.operations[id].parent == module.operations[root as int].parent
                && place_of(module, id) >= at;
            &&& after.operations[id] == module.operations[id]
            &&& place_of(after, id) == if moved {
                place_of(module, id) + plan.operations.len()
            } else {
                place_of(module, id)
            }
        }),
{
    let after = with_inserted(module, root, plan.operations);
    let home = module.operations[root as int].parent as int;
    let entries = module.blocks[home].operations;
    let at = position_in(entries, root);
    let base = module.operations.len() as int;
    assert(module.operation_in_range(root as int));
    assert(module.operation_in_range(id));
    assert(module.block_in_range(home));
    lemma_position_bounds(entries, root);
    if module.operations[id].parent == home {
        lemma_position_spliced(entries, at, base, plan.operations.len() as int, id as usize);
    }
}

/// The place of a new operation after it was entered: the place of `root`
/// before, and as much further as operations were created before it.
pub proof fn lemma_created_place(module: ModuleView, root: usize, plan: PlanView, k: int)
    requires
        fit_for(module, root, plan),
        0 <= k < plan.operations.len(),
    ensures
        ({
            let after = with_inserted(module, root, plan.operations);
            let id = module.operations.len() + k;
            &&& after.operations[id] == plan.operations[k]
            &&& after.operations[id].parent == module.operations[root as int].parent
            &&& place_of(after, id) == place_of(module, root as int) + k
        }),
{
    let after = with_inserted(module, root, plan.operations);
    let home = module.operations[root as int].parent as int;
    let entries = module.blocks[home].operations;
    let at = position_in(entries, root);
    let base = module.operations.len() as int;
    assert(module.operation_in_range(root as int));
    assert(module.block_in_range(home));
    lemma_position_bounds(entries, root);
    lemma_position_spliced(entries, at, base, plan.operations.len() as int, (base + k) as usize);
}

/// Entering new operations leaves defined before an operation what was
/// defined before it.
pub proof fn lemma_inserted_defined_before(
    module: ModuleView,
    root: usize,
    plan: PlanView,
    reader: int,
    value: ValueRef,
)
    requires
        fit_for(module, root, plan),
        0 <= reader < module.operations.len(),
        defined_before(module, reader, value),
    ensures
        defined_before(with_inserted(module, root, plan.operations), reader, value),
{
    lemma_inserted_place(module, root, plan, reader);
    match value {
        ValueRef::OperationResult { operation, index } => {
            lemma_inserted_place(module, root, plan, operation as int);
        },
        _ => {},
    }
}

/// Entering new operations leaves the enclosing operation of every
/// operation of the module as it was.
pub proof fn lemma_inserted_enclosing(module: ModuleView, root: usize, plan: PlanView, id: int)
    requires
        fit_for(module, root, plan),
        0 <= id < module.operations.len(),
    ensures
        enclosing(with_inserted(module, root, plan.operations), id) == enclosing(module, id),
{
    assert(module.operation_in_range(root as int));
    assert(module.operation_in_range(id));
}

/// Entering new operations leaves in scope what was in scope.
pub proof fn lemma_inserted_scope_kept(
    module: ModuleView,
    root: usize,
    plan: PlanView,
    reader: int,
    value: ValueRef,
)
    requires
        fit_for(module, root, plan),
        in_scope(module, reader, value),
    ensures
        in_scope(with_inserted(module, root, plan.operations), reader, value),
    decreases reader,
{
    if defined_before(module, reader, value) {
        lemma_inserted_defined_before(module, root, plan, reader, value);
    } else {
        lemma_inserted_enclosing(module, root, plan, reader);
        let owner = enclosing(module, reader)->0;
        lemma_inserted_scope_kept(module, root, plan, owner as int, value);
    }
}

/// What is in scope for `root` is in scope for every operation that takes
/// its place.
pub proof fn lemma_scope_of_root_serves(
    module: ModuleView,
    root: usize,
    plan: PlanView,
    k: int,
    value: ValueRef,
)
    requires
        fit_for(module, root, plan),
        0 <= k < plan.operations.len(),
        in_scope(module, root as int, value),
    ensures
        in_scope(
            with_inserted(module, root, plan.operations),
            module.operations.len() + k,
            value,
        ),
{
    let after = with_inserted(module, root, plan.operations);
    let id = module.operations.len() + k;
    lemma_created_place(module, root, plan, k);
    assert(module.operation_in_range(root as int));
    if defined_before(module, root as int, value) {
        match value {
            ValueRef::OperationResult { operation, index } => {
                lemma_inserted_place(module, root, plan, operation as int);
            },
            _ => {},
        }
        assert(defined_before(after, id, value));
    } else {
        let owner = enclosing(module, root as int)->0;
        assert(enclosing(after, id) == Some(owner));
        lemma_inserted_scope_kept(module, root, plan, owner as int, value);
    }
}

/// A new operation reads only what is in scope for it.
pub proof fn lemma_created_operand_in_scope(
    module: ModuleView,
    root: usize,
    plan: PlanView,
    k: int,
    j: int,
)
    requires
        fit_for(module, root, plan),
        0 <= k < plan.operations.len(),
        0 <= j < plan.operations[k].operands.len(),
    ensures
        in_scope(
            with_inserted(module, root, plan.operations),
            module.operations.len() + k,
            plan.operations[k].operands[j],
        ),
{
    let after = with_inserted(module, root, plan.operations);
    let base = module.operations.len() as int;
    let value = plan.operations[k].operands[j];
    assert(earlier_or_in_scope(module, root, base + k, value));
    lemma_created_place(module, root, plan, k);
    match value {
        ValueRef::OperationResult { operation, index } => {
            if operation >= base {
                lemma_created_place(module, root, plan, operation - base);
                assert(!plan.operations[operation - base].erased);
                assert(defined_before(after, base + k, value));
            } else {
                lemma_scope_of_root_serves(module, root, plan, k, value);
            }
        },
        _ => {
            lemma_scope_of_root_serves(module, root, plan, k, value);
        },
    }
}

/// Entering the new operations of a plan gives a tree.
pub proof fn lemma_inserted_tree(module: ModuleView, root: usize, plan: PlanView)
    requires
        fit_for(module, root, plan),
    ensures
        tree_shaped(with_inserted(module, root, plan.operations)),
{
    let after = with_inserted(module, root, plan.operations);
    let home = module.operations[root as int].parent as int;
    let entries = module.blocks[home].operations;
    let at = position_in(entries, root);
    let base = module.operations.len() as int;
    let count = plan.operations.len() as int;
    let fresh = fresh_ids(base, count);
    let out = spliced(entries, at, fresh);
    assert(module.operation_in_range(root as int));
    assert(module.block_in_range(home));
    lemma_position_bounds(entries, root);
    assert(is_listed(module, root as int));
    assert(after.blocks[home].operations == out);
    assert forall|id: int| 0 <= id < after.operations.len() implies #[trigger] is_listed(
        after,
        id,
    ) by {
        if id < base {
            lemma_inserted_place(module, root, plan, id);
            assert(is_listed(module, id));
            assert(module.operation_in_range(id));
        } else {
            lemma_created_place(module, root, plan, id - base);
        }
    }
    assert forall|block: int, place: int|
        0 <= block < after.blocks.len() && 0 <= place
            < after.blocks[block].operations.len() implies #[trigger] entry_agrees(
        after,
        block,
        place,
    ) by {
        if block == home {
            if place < at {
                assert(out[place] == entries[place]);
                assert(entry_agrees(module, block, place));
                lemma_position_spliced(entries, at, base, count, entries[place]);
            } else if place < at + count {
                assert(out[place] == (base + (place - at)) as usize);
                lemma_created_place(module, root, plan, place - at);
                lemma_position_spliced(entries, at, base, count, (base + (place - at)) as usize);
            } else {
                assert(out[place] == entries[place - count]);
                assert(entry_agrees(module, block, place - count));
                lemma_position_spliced(entries, at, base, count, entries[place - count]);
            }
        } else {
            assert(module.block_in_range(block));
            assert(entry_agrees(module, block, place));
        }
    }
    assert forall|id: int| 0 <= id < after.operations.len() implies #[trigger] follows_owner(
        after,
        id,
    ) by {
        if id < base {
            assert(follows_owner(module, id));
            lemma_inserted_enclosing(module, root, plan, id);
        } else {
            lemma_created_place(module, root, plan, id - base);
            assert(enclosing(after, id) == enclosing(module, root as int));
            assert(follows_owner(module, root as int));
        }
    }
}

/// After the new operations of a plan were entered, every operation reads
/// only what is in scope.
pub proof fn lemma_inserted_scoped(module: ModuleView, root: usize, plan: PlanView)
    requires
        fit_for(module, root, plan),
    ensures
        well_scoped(with_inserted(module, root, plan.operations)),
{
    let after = with_inserted(module, root, plan.operations);
    let base = module.operations.len() as int;
    assert forall|id: int, place: int|
        after.is_live(id) && 0 <= place < after.operations[id].operands.len() implies #[trigger]
        operand_in_scope(after, id, place) by {
        if id < base {
            assert(after.operations[id] == module.operations[id]);
            assert(operand_in_scope(module, id, place));
            lemma_inserted_scope_kept(
                module,
                root,
                plan,
                id,
                module.operations[id].operands[place],
            );
        } else {
            assert(after.operations[id] == plan.operations[id - base]);
            lemma_created_operand_in_scope(module, root, plan, id - base, place);
        }
    }
}

/// What is in scope for an operation is in scope for every operation that
/// may read a result of it.
pub proof fn lemma_scope_passes_on(
    module: ModuleView,
    root: usize,
    index: usize,
    reader: int,
    value: ValueRef,
)
    requires
        module.wf(),
        tree_shaped(module),
        in_scope(module, reader, ValueRef::OperationResult { operation: root, index }),
        in_scope(module, root as int, value),
    ensures
        in_scope(module, reader, value),
    decreases reader,
{
    let result = ValueRef::OperationResult { operation: root, index };
    assert(module.operation_in_range(reader));
    if defined_before(module, reader, result) {
        assert(module.operation_in_range(root as int));
        if defined_before(module, root as int, value) {
            assert(defined_before(module, reader, value));
        } else {
            assert(enclosing(module, reader) == enclosing(module, root as int));
            assert(follows_owner(module, reader));
        }
    } else {
        let owner = enclosing(module, reader)->0;
        lemma_scope_passes_on(module, root, index, owner as int, value);
    }
}

/// After the new operations were entered, every value that takes the place
/// of a result of `root` is in scope for `root`.
pub proof fn lemma_replacement_in_scope(module: ModuleView, root: usize, plan: PlanView, i: int)
    requires
        fit_for(module, root, plan),
        0 <= i < plan.replacement.len(),
    ensures
        in_scope(
            with_inserted(module, root, plan.operations),
            root as int,
            plan.replacement[i],
        ),
{
    let after = with_inserted(module, root, plan.operations);
    let base = module.operations.len() as int;
    let value = plan.replacement[i];
    assert(earlier_or_in_scope(module, root, base + plan.operations.len(), value));
    lemma_inserted_place(module, root, plan, root as int);
    match value {
        ValueRef::OperationResult { operation, index } => {
            if operation >= base {
                lemma_created_place(module, root, plan, operation - base);
                assert(!plan.operations[operation - base].erased);
                assert(defined_before(after, root as int, value));
            } else {
                lemma_inserted_scope_kept(module, root, plan, root as int, value);
            }
        },
        _ => {
            lemma_inserted_scope_kept(module, root, plan, root as int, value);
        },
    }
}

/// After the uses of the results of `root` were redirected, the module is
/// a tree still, every operation reads only what is in scope, and no
/// operation that is not erased reads a result of `root`.
pub proof fn lemma_redirected_structured(module: ModuleView, root: usize, plan: PlanView)
    requires
        fit_for(module, root, plan),
    ensures
        ({
            let moved = with_redirected(
                with_inserted(module, root, plan.operations),
                root,
                plan.replacement,
            );
            &&& tree_shaped(moved)
            &&& well_scoped(moved)
            &&& forall|id: int, place: int|
                moved.is_live(id) && 0 <= place < moved.operations[id].operands.len()
                    ==> !is_result_of(#[trigger] moved.operations[id].operands[place], root)
        }),
{
    let inserted = with_inserted(module, root, plan.operations);
    let moved = with_redirected(inserted, root, plan.replacement);
    let base = module.operations.len() as int;
    lemma_inserted_wf(module, root, plan.operations);
    lemma_inserted_tree(module, root, plan);
    lemma_inserted_scoped(module, root, plan);
    assert(same_frame(inserted, moved));
    lemma_tree_in_same_frame(inserted, moved);
    assert forall|id: int, place: int|
        moved.is_live(id) && 0 <= place < moved.operations[id].operands.len() implies #[trigger]
        operand_in_scope(moved, id, place) && !is_result_of(
            moved.operations[id].operands[place],
            root,
        ) by {
        let before = inserted.operations[id].operands[place];
        let after = moved.operations[id].operands[place];
        assert(after == redirected(before, root, plan.replacement));
        assert(operand_in_scope(inserted, id, place));
        if id < base {
            assert(inserted.operations[id] == module.operations[id]);
            assert(use_covered(module, root, plan.replacement.len(), id, place));
        } else {
            assert(inserted.operations[id] == plan.operations[id - base]);
            assert(earlier_or_in_scope(module, root, id, plan.operations[id - base].operands[place]));
        }
        if is_result_of(before, root) {
            let index = before->OperationResult_index;
            assert(after == plan.replacement[index as int]);
            assert(earlier_or_in_scope(module, root, base + plan.operations.len(), after));
            lemma_replacement_in_scope(module, root, plan, index as int);
            lemma_scope_passes_on(inserted, root, index, id, after);
        }
        lemma_scope_in_same_frame(inserted, moved, id, after);
    }
    assert forall|id: int, place: int|
        moved.is_live(id) && 0 <= place < moved.operations[id].operands.len() implies !is_result_of(
        #[trigger] moved.operations[id].operands[place],
        root,
    ) by {
        assert(operand_in_scope(moved, id, place));
    }
}

/// An operation inside `root` has `root`'s number or a higher one.
pub proof fn lemma_inside_is_later(module: ModuleView, id: int, root: int)
    requires
        inside(module, id, root),
    ensures
        id >= root,
    decreases id,
{
    if id != root {
        let owner = enclosing(module, id)->0;
        lemma_inside_is_later(module, owner as int, root);
    }
}

/// Erasing `root` and all that it encloses leaves in scope, for an
/// operation outside of `root`, what was in scope for it and is no result
/// of `root`.
pub proof fn lemma_erased_scope_kept(module: ModuleView, root: usize, reader: int, value: ValueRef)
    requires
        module.wf(),
        module.operations.len() <= usize::MAX,
        tree_shaped(module),
        module.is_live(root as int),
        !inside(module, reader, root as int),
        !is_result_of(value, root),
        in_scope(module, reader, value),
    ensures
        in_scope(with_erased_subtree(module, root), reader, value),
    decreases reader,
{
    let after = with_erased_subtree(module, root);
    let home = module.operations[root as int].parent as int;
    let entries = module.blocks[home].operations;
    let at = position_in(entries, root);
    assert(module.operation_in_range(reader));
    assert(module.operation_in_range(root as int));
    lemma_position_bounds(entries, root);
    assert(is_listed(module, root as int));
    assert(enclosing(after, reader) == enclosing(module, reader));
    assert(follows_owner(module, reader));
    assert(inside(module, root as int, root as int));
    assert(reader != root);
    if defined_before(module, reader, value) {
        match value {
            ValueRef::OperationResult { operation, index } => {
                assert(module.operation_in_range(operation as int));
                assert(enclosing(module, operation as int) == enclosing(module, reader));
                assert(!inside(module, operation as int, root as int));
                assert(after.is_live(operation as int));
                if module.operations[reader].parent == home {
                    lemma_position_removed(entries, at, operation);
                    lemma_position_removed(entries, at, reader as usize);
                    lemma_position_bounds(entries, operation);
                    lemma_position_bounds(entries, reader as usize);
                    assert(place_of(after, operation as int) < place_of(after, reader));
                } else {
                    assert(siblings(after, reader) == siblings(module, reader));
                    assert(siblings(after, operation as int) == siblings(module, operation as int));
                }
                assert(defined_before(after, reader, value));
            },
            _ => {
                assert(defined_before(after, reader, value));
            },
        }
    } else {
        let owner = enclosing(module, reader)->0;
        lemma_erased_scope_kept(module, root, owner as int, value);
    }
}

/// Erasing `root` and all that it encloses leaves a tree.
pub proof fn lemma_erased_tree(module: ModuleView, root: usize)
    requires
        module.wf(),
        module.operations.len() <= usize::MAX,
        tree_shaped(module),
        module.is_live(root as int),
    ensures
        tree_shaped(with_erased_subtree(module, root)),
{
    let after = with_erased_subtree(module, root);
    let home = module.operations[root as int].parent as int;
    let entries = module.blocks[home].operations;
    let at = position_in(entries, root);
    assert(module.operation_in_range(root as int));
    assert(module.block_in_range(home));
    lemma_position_bounds(entries, root);
    assert(is_listed(module, root as int));
    let out = entries.remove(at);
    assert(after.blocks[home].operations == out);
    assert forall|id: int| 0 <= id < after.operations.len() implies #[trigger] is_listed(
        after,
        id,
    ) by {
        assert(is_listed(module, id));
        assert(module.operation_in_range(id));
        if after.is_live(id) && module.operations[id].parent == home {
            assert(inside(module, root as int, root as int));
            assert(id != root);
            lemma_position_removed(entries, at, id as usize);
        }
    }
    assert forall|block: int, place: int|
        0 <= block < after.blocks.len() && 0 <= place
            < after.blocks[block].operations.len() implies #[trigger] entry_agrees(
        after,
        block,
        place,
    ) by {
        assert(module.block_in_range(block));
        if block == home {
            let from = if place < at {
                place
            } else {
                place + 1
            };
            assert(out[place] == entries[from]);
            assert(entry_agrees(module, block, from));
            assert(entry_agrees(module, block, at));
            lemma_position_removed(entries, at, entries[from]);
        } else {
            assert(entry_agrees(module, block, place));
        }
    }
    assert forall|id: int| 0 <= id < after.operations.len() implies #[trigger] follows_owner(
        after,
        id,
    ) by {
        assert(follows_owner(module, id));
        assert(module.operation_in_range(id));
        assert(enclosing(after, id) == enclosing(module, id));
    }
}

/// Carrying out a plan that is fit for a well-structured module leaves the
/// module well-structured.
pub proof fn lemma_commit_keeps_structured(module: ModuleView, root: usize, plan: PlanView)
    requires
        fit_for(module, root, plan),
    ensures
        structured(commit(module, root, plan)),
{
    let inserted = with_inserted(module, root, plan.operations);
    let moved = with_redirected(inserted, root, plan.replacement);
    let after = with_erased_subtree(moved, root);
    lemma_inserted_wf(module, root, plan.operations);
    assert forall|k: int| 0 <= k < plan.replacement.len() implies inserted.defines(
        #[trigger] plan.replacement[k],
    ) by {
        assert(extended(module, plan.operations).defines(plan.replacement[k]));
    }
    lemma_redirected_wf(inserted, root, plan.replacement);
    lemma_erased_wf(moved, root);
    lemma_redirected_structured(module, root, plan);
    assert(moved.is_live(root as int));
    lemma_erased_tree(moved, root);
    assert forall|id: int, place: int|
        after.is_live(id) && 0 <= place < after.operations[id].operands.len() implies #[trigger]
        operand_in_scope(after, id, place) by {
        assert(moved.is_live(id));
        assert(!inside(moved, id, root as int));
        assert(operand_in_scope(moved, id, place));
        assert(!is_result_of(moved.operations[id].operands[place], root));
        lemma_erased_scope_kept(moved, root, id, moved.operations[id].operands[place]);
    }
}

/// Whether the operations `created` keep to the scope of `root`: none is
/// erased, and each reads only results of those created before it and what
/// is in scope for `root`.
pub open spec fn created_scoped(module: ModuleView, root: usize, created: Seq<OperationView>) -> bool {
    let base = module.operations.len() as int;
    &&& forall|k: int| 0 <= k < created.len() ==> !(#[trigger] created[k]).erased
    &&& forall|k: int, j: int|
        0 <= k < created.len() && 0 <= j < created[k].operands.len() ==> earlier_or_in_scope(
            module,
            root,
            base + k,
            #[trigger] created[k].operands[j],
        )
}

/// A usable value is one that a new operation may read.
pub proof fn lemma_usable_is_scoped(
    module: ModuleView,
    created: Seq<OperationView>,
    root: usize,
    value: ValueRef,
)
    requires
        usable(module, created, root, value),
    ensures
        earlier_or_in_scope(
            module,
            root,
            (module.operations.len() + created.len()) as int,
            value,
        ),
{
}

/// Planning keeps the new operations to the scope of `root`.
pub proof fn lemma_plan_from_scoped(
    module: ModuleView,
    root: usize,
    nodes: Seq<PatternNodeView>,
    env: Seq<BindingView>,
    created: Seq<OperationView>,
    at: int,
)
    requires
        created_scoped(module, root, created),
        plan_from(module, root, nodes, env, created, at) is Some,
    ensures
        created_scoped(
            module,
            root,
            planned_operations(plan_from(module, root, nodes, env, created, at)),
        ),
    decreases nodes.len() - at,
{
    if at < 0 || at >= nodes.len() {
    } else {
        let (next, more) = plan_node(module, root, nodes, env, created, at)->0;
        if more != created {
            let op = planned_operation(module, root, env, created, at, nodes[at])->0;
            assert(more == created.push(op));
            assert forall|k: int| 0 <= k < more.len() implies !(#[trigger] more[k]).erased by {
                if k < created.len() {
                    assert(more[k] == created[k]);
                }
            }
            assert forall|k: int, j: int|
                0 <= k < more.len() && 0 <= j < more[k].operands.len() implies earlier_or_in_scope(
                module,
                root,
                module.operations.len() + k,
                #[trigger] more[k].operands[j],
            ) by {
                if k < created.len() {
                    assert(more[k] == created[k]);
                    assert(earlier_or_in_scope(
                        module,
                        root,
                        module.operations.len() + k,
                        created[k].operands[j],
                    ));
                } else {
                    assert(usable(module, created, root, op.operands[j]));
                    lemma_usable_is_scoped(module, created, root, op.operands[j]);
                }
            }
        }
        lemma_plan_from_scoped(module, root, nodes, next, more, at + 1);
    }
}

/// In a well-formed module, as many values as an operation has results
/// cover every use of them.
pub proof fn lemma_all_results_cover(module: ModuleView, root: usize, plan: PlanView)
    requires
        module.wf(),
        root < module.operations.len(),
        plan.replacement.len() == module.operations[root as int].results.len(),
    ensures
        covered(module, root, plan),
{
    assert forall|id: int, place: int|
        module.is_live(id) && 0 <= place < module.operations[id].operands.len() implies #[trigger]
        use_covered(module, root, plan.replacement.len(), id, place) by {
        assert(module.operation_in_range(id));
        assert(module.defines(module.operations[id].operands[place]));
    }
}

/// The plan of a pattern for an operation of a well-structured module is
/// fit for it.
pub proof fn lemma_pattern_plan_is_fit(
    module: ModuleView,
    pattern: RewritePatternView,
    root: usize,
    env: Seq<BindingView>,
)
    requires
        structured(module),
        module.is_live(root as int),
        module.operations.len() <= usize::MAX,
        plan(module, pattern, root, env) is Some,
    ensures
        fit_for(module, root, plan(module, pattern, root, env)->0),
{
    let made = plan(module, pattern, root, env)->0;
    lemma_plan_in_range(module, pattern, root, env);
    lemma_plan_from_scoped(
        module,
        root,
        pattern.nodes,
        env,
        Seq::empty(),
        pattern.matcher_len as int,
    );
    assert forall|i: int| 0 <= i < made.replacement.len() implies earlier_or_in_scope(
        module,
        root,
        (module.operations.len() + made.operations.len()) as int,
        #[trigger] made.replacement[i],
    ) by {
        assert(usable(module, made.operations, root, made.replacement[i]));
        lemma_usable_is_scoped(module, made.operations, root, made.replacement[i]);
    }
    lemma_all_results_cover(module, root, made);
}

/// The plan that folds an operation of a well-structured module is fit for it.
pub proof fn lemma_fold_plan_is_fit(module: ModuleView, root: usize)
    requires
        structured(module),
        fold_plan(module, root) is Some,
        plan_in_range(module, root, fold_plan(module, root)->0),
    ensures
        fit_for(module, root, fold_plan(module, root)->0),
{
    let made = fold_plan(module, root)->0;
    lemma_all_results_cover(module, root, made);
}

/// The plan that erases an unused operation of a well-structured module is
/// fit for it.
pub proof fn lemma_erase_plan_is_fit(module: ModuleView, root: usize)
    requires
        structured(module),
        erase_plan(module, root) is Some,
        plan_in_range(module, root, erase_plan(module, root)->0),
    ensures
        fit_for(module, root, erase_plan(module, root)->0),
{
    let made = erase_plan(module, root)->0;
    assert forall|id: int, place: int|
        module.is_live(id) && 0 <= place < module.operations[id].operands.len() implies #[trigger]
        use_covered(module, root, made.replacement.len(), id, place) by {
        if is_result_of(module.operations[id].operands[place], root) {
            assert(reads_at(module, root, id, place));
        }
    }
}

} // verus!
