//! Carrying out a plan: the new operations are entered before the replaced
//! one, every use of its results is redirected, and it is erased together
//! with all that it encloses.

use vstd::prelude::*;
use crate::ir::{BlockView, Module, ModuleView, Operation, OperationView, ValueRef};
use crate::plan::{created_view, extended, plan_in_range, Plan, PlanView};

verus! {

/// The first place in `entries` that holds `id`, or the length of `entries`
/// if none does.
pub open spec fn position_in(entries: Seq<usize>, id: usize) -> int
    decreases entries.len(),
{
    if entries.len() == 0 {
        0
    } else if entries[0] == id {
        0
    } else {
        1 + position_in(entries.drop_first(), id)
    }
}

/// The numbers that `count` operations get when they are added to an arena
/// that holds `base` operations.
pub open spec fn fresh_ids(base: int, count: int) -> Seq<usize> {
    Seq::new(count as nat, |k: int| (base + k) as usize)
}

/// The entries of a block after `fresh` was entered at `at`.
pub open spec fn spliced(entries: Seq<usize>, at: int, fresh: Seq<usize>) -> Seq<usize> {
    entries.subrange(0, at) + fresh + entries.subrange(at, entries.len() as int)
}

/// The module after the operations `created` were added to the arena and
/// entered, in order, just before the operation `root` in its block; at the
/// end of the block, should the block not hold `root`.
pub open spec fn with_inserted(
    module: ModuleView,
    root: usize,
    created: Seq<OperationView>,
) -> ModuleView {
    let parent = module.operations[root as int].parent as int;
    let entries = module.blocks[parent].operations;
    let at = position_in(entries, root);
    let fresh = fresh_ids(module.operations.len() as int, created.len() as int);
    ModuleView {
        operations: module.operations + created,
        blocks: module.blocks.update(
            parent,
            BlockView { operations: spliced(entries, at, fresh), ..module.blocks[parent] },
        ),
    }
}

/// The value read in the place of `value` once the results of `root` are
/// replaced by `replacement`.
pub open spec fn redirected(value: ValueRef, root: usize, replacement: Seq<ValueRef>) -> ValueRef {
    match value {
        ValueRef::OperationResult { operation, index } => {
            if operation == root && index < replacement.len() {
                replacement[index as int]
            } else {
                value
            }
        },
        _ => value,
    }
}

/// A list of operands with every use of a result of `root` redirected.
pub open spec fn redirected_operands(
    operands: Seq<ValueRef>,
    root: usize,
    replacement: Seq<ValueRef>,
) -> Seq<ValueRef> {
    Seq::new(operands.len(), |k: int| redirected(operands[k], root, replacement))
}

/// The module in which every use of a result of `root` is redirected.
pub open spec fn with_redirected(
    module: ModuleView,
    root: usize,
    replacement: Seq<ValueRef>,
) -> ModuleView {
    ModuleView {
        operations: Seq::new(
            module.operations.len(),
            |id: int|
                OperationView {
                    operands: redirected_operands(
                        module.operations[id].operands,
                        root,
                        replacement,
                    ),
                    ..module.operations[id]
                },
        ),
        blocks: module.blocks,
    }
}

/// The operation that owns the block in which the operation `id` stands.
pub open spec fn enclosing(module: ModuleView, id: int) -> Option<usize> {
    let parent = module.operations[id].parent;
    if parent < module.blocks.len() {
        match module.blocks[parent as int].parent {
            Some((owner, region)) => Some(owner),
            None => None,
        }
    } else {
        None
    }
}

/// Whether the operation `id` is `root` or stands, at any depth, in a
/// region of `root`. An operation is numbered after the one that encloses it.
pub open spec fn inside(module: ModuleView, id: int, root: int) -> bool
    decreases id,
{
    if id == root {
        true
    } else if id < 0 {
        false
    } else {
        match enclosing(module, id) {
            Some(owner) => owner < id && inside(module, owner as int, root),
            None => false,
        }
    }
}

/// The module in which `root` and all that it encloses are erased, and
/// `root` is taken out of its block.
pub open spec fn with_erased_subtree(module: ModuleView, root: usize) -> ModuleView {
    let parent = module.operations[root as int].parent as int;
    let entries = module.blocks[parent].operations;
    let at = position_in(entries, root);
    ModuleView {
        operations: Seq::new(
            module.operations.len(),
            |id: int|
                OperationView {
                    erased: module.operations[id].erased || inside(module, id, root as int),
                    ..module.operations[id]
                },
        ),
        blocks: if at < entries.len() {
            module.blocks.update(
                parent,
                BlockView { operations: entries.remove(at), ..module.blocks[parent] },
            )
        } else {
            module.blocks
        },
    }
}

/// The module after `plan` was carried out for the operation `root`.
pub open spec fn commit(module: ModuleView, root: usize, plan: PlanView) -> ModuleView {
    with_erased_subtree(
        with_redirected(with_inserted(module, root, plan.operations), root, plan.replacement),
        root,
    )
}

/// The first place in `entries` that holds `id`, or the length of `entries`.
pub fn find_entry(entries: &Vec<usize>, id: usize) -> (at: usize)
    ensures
        at == position_in(entries@, id),
        at <= entries@.len(),
{
    let mut at: usize = 0;
    proof {
        assert(entries@.subrange(0, entries@.len() as int) =~= entries@);
    }
    while at < entries.len()
        invariant
            at <= entries.len(),
            position_in(entries@, id) == at + position_in(
                entries@.subrange(at as int, entries@.len() as int),
                id,
            ),
        decreases entries.len() - at,
    {
        let ghost rest = entries@.subrange(at as int, entries@.len() as int);
        proof {
            assert(rest[0] == entries@[at as int]);
            assert(rest.drop_first() =~= entries@.subrange(at + 1, entries@.len() as int));
        }
        if entries[at] == id {
            return at;
        }
        at += 1;
    }
    at
}

/// Adds `operations` to the arena and enters them before `root` in its block.
fn insert_operations(module: &mut Module, root: usize, operations: Vec<Operation>)
    requires
        old(module)@.wf(),
        root < old(module)@.operations.len(),
    ensures
        final(module)@ == with_inserted(old(module)@, root, created_view(operations@)),
{
    let ghost before = module@;
    let ghost all = created_view(operations@);
    proof {
        assert(before.operation_in_range(root as int));
    }
    let parent = module.operation(root).parent;
    let at = find_entry(&module.block(parent).operations, root);
    let ghost entries = before.blocks[parent as int].operations;
    let mut rest = operations;
    let mut done: usize = 0;
    proof {
        assert(all.subrange(0, 0) =~= Seq::empty());
        assert(before.operations + Seq::<OperationView>::empty() =~= before.operations);
        assert(spliced(entries, at as int, fresh_ids(before.operations.len() as int, 0))
            =~= entries);
        assert(before.blocks.update(
            parent as int,
            BlockView { operations: entries, ..before.blocks[parent as int] },
        ) =~= before.blocks);
        assert(all.subrange(0, all.len() as int) =~= all);
    }
    while rest.len() > 0
        invariant
            parent < before.blocks.len(),
            parent == before.operations[root as int].parent,
            entries == before.blocks[parent as int].operations,
            at == position_in(entries, root),
            at <= entries.len(),
            done <= all.len(),
            created_view(rest@) == all.subrange(done as int, all.len() as int),
            module@ == with_inserted(before, root, all.subrange(0, done as int)),
        decreases rest.len(),
    {
        let ghost prefix = all.subrange(0, done as int);
        let ghost remaining = rest@;
        let op = rest.remove(0);
        proof {
            let tail = all.subrange(done as int, all.len() as int);
            assert(created_view(remaining).len() == remaining.len());
            assert(tail.len() == all.len() - done);
            assert(created_view(remaining)[0] == remaining[0]@);
            assert(tail[0] == all[done as int]);
            assert(op@ == all[done as int]);
            assert forall|k: int| 0 <= k < rest@.len() implies (#[trigger] created_view(
                rest@,
            )[k]) == all[done + 1 + k] by {
                assert(rest@[k] == remaining[k + 1]);
                assert(created_view(remaining)[k + 1] == remaining[k + 1]@);
                assert(tail[k + 1] == all[done + 1 + k]);
            }
            assert(created_view(rest@) =~= all.subrange(done + 1, all.len() as int));
        }
        let id = module.push_operation(op);
        let length = module.block(parent).operations.len();
        assert(length == entries.len() + done);
        module.insert_into_block(parent, at + done, id);
        proof {
            module.lemma_counts_are_bounded();
            let next = all.subrange(0, done + 1);
            let base = before.operations.len() as int;
            assert(next =~= prefix.push(op@));
            assert(before.operations + next =~= (before.operations + prefix).push(op@));
            assert(id == base + done);
            assert(spliced(entries, at as int, fresh_ids(base, done as int)).insert(
                at + done,
                id,
            ) =~= spliced(entries, at as int, fresh_ids(base, done + 1)));
            assert(module@.blocks =~= with_inserted(before, root, next).blocks);
        }
        done += 1;
    }
    proof {
        assert(all.subrange(0, all.len() as int) =~= all);
    }
}

/// Redirects every use of a result of `root` to the value at the same place
/// of `replacement`.
fn redirect_uses(module: &mut Module, root: usize, replacement: &Vec<ValueRef>)
    ensures
        final(module)@ == with_redirected(old(module)@, root, replacement@),
{
    let ghost before = module@;
    let count = module.operation_count();
    let mut id: usize = 0;
    while id < count
        invariant
            id <= count,
            count == before.operations.len(),
            module@.blocks == before.blocks,
            module@.operations.len() == count,
            forall|j: int|
                0 <= j < id ==> (#[trigger] module@.operations[j]) == with_redirected(
                    before,
                    root,
                    replacement@,
                ).operations[j],
            forall|j: int| id <= j < count ==> (#[trigger] module@.operations[j]) == before.operations[j],
        decreases count - id,
    {
        let op = module.operation(id);
        let mut operands: Vec<ValueRef> = Vec::new();
        let mut k: usize = 0;
        while k < op.operands.len()
            invariant
                k <= op.operands.len(),
                operands@.len() == k,
                forall|j: int|
                    0 <= j < k ==> (#[trigger] operands@[j]) == redirected(
                        op.operands@[j],
                        root,
                        replacement@,
                    ),
            decreases op.operands.len() - k,
        {
            let value = match op.operands[k] {
                ValueRef::OperationResult { operation, index } => {
                    if operation == root && index < replacement.len() {
                        replacement[index]
                    } else {
                        op.operands[k]
                    }
                },
                other => other,
            };
            operands.push(value);
            k += 1;
        }
        proof {
            assert(operands@ =~= redirected_operands(op@.operands, root, replacement@));
        }
        module.set_operands(id, operands);
        id += 1;
    }
    proof {
        assert(module@.operations =~= with_redirected(before, root, replacement@).operations);
    }
}

/// Erases `root` and all that it encloses, and takes `root` out of its block.
fn erase_subtree(module: &mut Module, root: usize)
    requires
        old(module)@.wf(),
        root < old(module)@.operations.len(),
    ensures
        final(module)@ == with_erased_subtree(old(module)@, root),
{
    let ghost before = module@;
    let count = module.operation_count();
    // Mark the operations inside `root`: an operation comes after the one
    // that encloses it, so one pass in the order of the numbers finds all.
    let mut marks: Vec<bool> = Vec::new();
    let mut id: usize = 0;
    while id < count
        invariant
            id <= count,
            count == before.operations.len(),
            module@ == before,
            marks@.len() == id,
            forall|j: int| 0 <= j < id ==> (#[trigger] marks@[j]) == inside(before, j, root as int),
        decreases count - id,
    {
        let mut marked = id == root;
        if !marked {
            let parent = module.operation(id).parent;
            if parent < module.block_count() {
                match module.block(parent).parent {
                    Some((owner, _)) => {
                        if owner < id {
                            marked = marks[owner];
                        }
                    },
                    None => {},
                }
            }
        }
        marks.push(marked);
        id += 1;
    }
    let mut id: usize = 0;
    while id < count
        invariant
            id <= count,
            count == before.operations.len(),
            marks@.len() == count,
            forall|j: int| 0 <= j < count ==> (#[trigger] marks@[j]) == inside(before, j, root as int),
            module@.blocks == before.blocks,
            module@.operations.len() == count,
            forall|j: int|
                0 <= j < id ==> (#[trigger] module@.operations[j]) == with_erased_subtree(
                    before,
                    root,
                ).operations[j],
            forall|j: int| id <= j < count ==> (#[trigger] module@.operations[j]) == before.operations[j],
        decreases count - id,
    {
        if marks[id] {
            module.set_erased(id);
        }
        id += 1;
    }
    proof {
        assert(module@.operations =~= with_erased_subtree(before, root).operations);
        assert(before.operation_in_range(root as int));
    }
    let parent = module.operation(root).parent;
    let at = find_entry(&module.block(parent).operations, root);
    if at < module.block(parent).operations.len() {
        module.remove_from_block(parent, at);
    }
}

/// Carries out `plan` for the operation `root`.
///
/// All new operations exist before the first use is redirected, and the
/// replaced operation is erased last.
pub fn carry_out(module: &mut Module, root: usize, plan: Plan)
    requires
        old(module)@.wf(),
        plan_in_range(old(module)@, root, plan@),
    ensures
        final(module)@ == commit(old(module)@, root, plan@),
        final(module)@.wf(),
{
    let ghost before = module@;
    let ghost planned = plan@;
    let Plan { operations, replacement } = plan;
    insert_operations(module, root, operations);
    proof {
        lemma_inserted_wf(before, root, planned.operations);
    }
    let ghost inserted = module@;
    redirect_uses(module, root, &replacement);
    proof {
        lemma_redirected_wf(inserted, root, planned.replacement);
    }
    let ghost moved = module@;
    erase_subtree(module, root);
    proof {
        lemma_erased_wf(moved, root);
    }
}

/// The place that [`position_in`] gives lies within the entries or at their end.
pub proof fn lemma_position_in_bounds(entries: Seq<usize>, id: usize)
    ensures
        0 <= position_in(entries, id) <= entries.len(),
    decreases entries.len(),
{
    if entries.len() > 0 && entries[0] != id {
        lemma_position_in_bounds(entries.drop_first(), id);
    }
}

/// Entering the new operations of a plan keeps a module well-formed.
pub proof fn lemma_inserted_wf(module: ModuleView, root: usize, created: Seq<OperationView>)
    requires
        module.wf(),
        plan_in_range(module, root, PlanView { operations: created, replacement: Seq::empty() }),
    ensures
        with_inserted(module, root, created).wf(),
        with_inserted(module, root, created).operations == extended(module, created).operations,
        forall|value: ValueRef|
            extended(module, created).defines(value) ==> with_inserted(
                module,
                root,
                created,
            ).defines(value),
{
    let after = with_inserted(module, root, created);
    let parent = module.operations[root as int].parent as int;
    let entries = module.blocks[parent].operations;
    let at = position_in(entries, root);
    let base = module.operations.len() as int;
    let fresh = fresh_ids(base, created.len() as int);
    lemma_position_in_bounds(entries, root);
    assert(module.operation_in_range(root as int));
    assert forall|value: ValueRef| extended(module, created).defines(value) implies after.defines(
        value,
    ) by {}
    assert forall|id: int| 0 <= id < after.operations.len() implies #[trigger]
        after.operation_in_range(id) by {
        let op = after.operations[id];
        if id < base {
            assert(module.operation_in_range(id));
            assert forall|k: int| 0 <= k < op.operands.len() implies after.defines(
                #[trigger] op.operands[k],
            ) by {
                assert(module.defines(op.operands[k]));
            }
        } else {
            assert(op == created[id - base]);
        }
    }
    assert forall|id: int| 0 <= id < after.blocks.len() implies #[trigger] after.block_in_range(
        id,
    ) by {
        assert(module.block_in_range(id));
        if id == parent {
            let listed = after.blocks[id].operations;
            assert forall|k: int| 0 <= k < listed.len() implies (#[trigger] listed[k])
                < after.operations.len() by {
                if k < at {
                    assert(listed[k] == entries[k]);
                } else if k < at + fresh.len() {
                    assert(listed[k] == fresh[k - at]);
                } else {
                    assert(listed[k] == entries[k - fresh.len()]);
                }
            }
        }
    }
}

/// Redirecting uses to values that the module defines keeps it well-formed.
pub proof fn lemma_redirected_wf(module: ModuleView, root: usize, replacement: Seq<ValueRef>)
    requires
        module.wf(),
        forall|k: int| 0 <= k < replacement.len() ==> module.defines(#[trigger] replacement[k]),
    ensures
        with_redirected(module, root, replacement).wf(),
{
    let after = with_redirected(module, root, replacement);
    assert forall|value: ValueRef| module.defines(value) implies after.defines(value) by {}
    assert forall|id: int| 0 <= id < after.operations.len() implies #[trigger]
        after.operation_in_range(id) by {
        let op = after.operations[id];
        assert(module.operation_in_range(id));
        assert forall|k: int| 0 <= k < op.operands.len() implies after.defines(
            #[trigger] op.operands[k],
        ) by {
            let old_value = module.operations[id].operands[k];
            assert(module.defines(old_value));
            assert(op.operands[k] == redirected(old_value, root, replacement));
            assert(module.defines(op.operands[k]));
        }
    }
    assert forall|id: int| 0 <= id < after.blocks.len() implies #[trigger] after.block_in_range(
        id,
    ) by {
        assert(module.block_in_range(id));
    }
}

/// Erasing an operation and all that it encloses keeps a module well-formed.
pub proof fn lemma_erased_wf(module: ModuleView, root: usize)
    requires
        module.wf(),
        root < module.operations.len(),
    ensures
        with_erased_subtree(module, root).wf(),
{
    let after = with_erased_subtree(module, root);
    let parent = module.operations[root as int].parent as int;
    let entries = module.blocks[parent].operations;
    let at = position_in(entries, root);
    lemma_position_in_bounds(entries, root);
    assert(module.operation_in_range(root as int));
    assert forall|value: ValueRef| module.defines(value) implies after.defines(value) by {}
    assert forall|id: int| 0 <= id < after.operations.len() implies #[trigger]
        after.operation_in_range(id) by {
        let op = after.operations[id];
        assert(module.operation_in_range(id));
        assert forall|k: int| 0 <= k < op.operands.len() implies after.defines(
            #[trigger] op.operands[k],
        ) by {
            assert(module.defines(module.operations[id].operands[k]));
        }
    }
    assert forall|id: int| 0 <= id < after.blocks.len() implies #[trigger] after.block_in_range(
        id,
    ) by {
        assert(module.block_in_range(id));
        if id == parent && at < entries.len() {
            let listed = after.blocks[id].operations;
            assert forall|k: int| 0 <= k < listed.len() implies (#[trigger] listed[k])
                < after.operations.len() by {
                if k < at {
                    assert(listed[k] == entries[k]);
                } else {
                    assert(listed[k] == entries[k + 1]);
                }
            }
        }
    }
}

} // verus!
