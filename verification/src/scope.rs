//! Scopes: which values an operation may read, and the shape that a module
//! must have for that question to make sense.
//!
//! An operation may read the arguments of the block in which it stands and
//! the results of the operations that stand before it in that block, and
//! whatever the operation that encloses it may read. It may read nothing
//! else: nothing that is defined later, nothing out of a block beside its
//! own, and nothing of an operation that has been erased.

use vstd::prelude::*;
use crate::ir::{Module, ModuleView, ValueRef};
use crate::rewrite::{enclosing, find_entry, position_in};

verus! {

/// The entries of the block in which the operation `id` stands.
pub open spec fn siblings(module: ModuleView, id: int) -> Seq<usize> {
    module.blocks[module.operations[id].parent as int].operations
}

/// The place of the operation `id` among the entries of its block; the
/// number of those entries if it is not among them.
pub open spec fn place_of(module: ModuleView, id: int) -> int {
    position_in(siblings(module, id), id as usize)
}

/// Whether `value` is defined in the block of the operation `reader` and
/// before it: as an argument of that block, or as a result of an operation
/// that is not erased and stands before `reader` in that block.
pub open spec fn defined_before(module: ModuleView, reader: int, value: ValueRef) -> bool {
    match value {
        ValueRef::BlockArgument { block, index } => block == module.operations[reader].parent,
        ValueRef::OperationResult { operation, index } => {
            &&& module.is_live(operation as int)
            &&& module.operations[operation as int].parent == module.operations[reader].parent
            &&& place_of(module, operation as int) < place_of(module, reader)
        },
    }
}

/// Whether the operation `reader` may read `value`: whether `value` is
/// defined before `reader` in its block, or the operation that encloses
/// `reader` may read it.
pub open spec fn in_scope(module: ModuleView, reader: int, value: ValueRef) -> bool
    decreases reader,
{
    if reader < 0 || reader >= module.operations.len() {
        false
    } else if defined_before(module, reader, value) {
        true
    } else {
        match enclosing(module, reader) {
            Some(owner) => owner < reader && in_scope(module, owner as int, value),
            None => false,
        }
    }
}

/// Whether the operand `place` of the operation `id` is in scope.
pub open spec fn operand_in_scope(module: ModuleView, id: int, place: int) -> bool {
    in_scope(module, id, module.operations[id].operands[place])
}

/// Whether every operation that is not erased reads only what is in scope.
pub open spec fn well_scoped(module: ModuleView) -> bool {
    forall|id: int, place: int|
        module.is_live(id) && 0 <= place < module.operations[id].operands.len()
            ==> #[trigger] operand_in_scope(module, id, place)
}

/// Whether the operation `id`, if it is not erased, is among the entries of
/// its block.
pub open spec fn is_listed(module: ModuleView, id: int) -> bool {
    module.is_live(id) ==> place_of(module, id) < siblings(module, id).len()
}

/// Whether the entry `place` of the block `block` is an operation of that
/// block, and is entered there for the first time.
pub open spec fn entry_agrees(module: ModuleView, block: int, place: int) -> bool {
    let entries = module.blocks[block].operations;
    &&& module.operations[entries[place] as int].parent == block
    &&& position_in(entries, entries[place]) == place
}

/// Whether the operation `id` has a higher number than the operation that
/// encloses it.
pub open spec fn follows_owner(module: ModuleView, id: int) -> bool {
    match enclosing(module, id) {
        Some(owner) => owner < id,
        None => true,
    }
}

/// Whether the blocks and the operations of `module` form a tree: every
/// operation that is not erased is entered in its block, every entry of a
/// block is an operation of that block and is entered once, and every
/// operation has a higher number than the one that encloses it.
pub open spec fn tree_shaped(module: ModuleView) -> bool {
    &&& forall|id: int| 0 <= id < module.operations.len() ==> #[trigger] is_listed(module, id)
    &&& forall|block: int, place: int|
        0 <= block < module.blocks.len() && 0 <= place < module.blocks[block].operations.len()
            ==> #[trigger] entry_agrees(module, block, place)
    &&& forall|id: int| 0 <= id < module.operations.len() ==> #[trigger] follows_owner(module, id)
}

/// Whether `module` is well-structured: well-formed, a tree, and with every
/// operation reading only what is in scope.
pub open spec fn structured(module: ModuleView) -> bool {
    module.wf() && tree_shaped(module) && well_scoped(module)
}

/// The place of the operation `id` among the entries of its block.
fn place(module: &Module, id: usize) -> (at: usize)
    requires
        module@.wf(),
        id < module@.operations.len(),
    ensures
        at == place_of(module@, id as int),
{
    proof {
        assert(module@.operation_in_range(id as int));
    }
    let parent = module.operation(id).parent;
    find_entry(&module.block(parent).operations, id)
}

/// Whether `value` is defined in the block of the operation `reader` and
/// before it.
fn is_defined_before(module: &Module, reader: usize, value: ValueRef) -> (before: bool)
    requires
        module@.wf(),
        reader < module@.operations.len(),
    ensures
        before == defined_before(module@, reader as int, value),
{
    let home = module.operation(reader).parent;
    match value {
        ValueRef::BlockArgument { block, index } => block == home,
        ValueRef::OperationResult { operation, index } => {
            if operation >= module.operation_count() {
                return false;
            }
            let definer = module.operation(operation);
            if definer.erased || definer.parent != home {
                return false;
            }
            place(module, operation) < place(module, reader)
        },
    }
}

/// Whether the operation `reader` may read `value`.
pub fn is_in_scope(module: &Module, reader: usize, value: ValueRef) -> (visible: bool)
    requires
        module@.wf(),
    ensures
        visible == in_scope(module@, reader as int, value),
{
    if reader >= module.operation_count() {
        return false;
    }
    let mut at: usize = reader;
    loop
        invariant
            module@.wf(),
            at < module@.operations.len(),
            in_scope(module@, reader as int, value) == in_scope(module@, at as int, value),
        decreases at,
    {
        if is_defined_before(module, at, value) {
            return true;
        }
        proof {
            assert(module@.operation_in_range(at as int));
            assert(module@.block_in_range(module@.operations[at as int].parent as int));
        }
        let parent = module.operation(at).parent;
        match module.block(parent).parent {
            Some((owner, _)) => {
                if owner < at {
                    at = owner;
                } else {
                    return false;
                }
            },
            None => {
                return false;
            },
        }
    }
}

/// Whether every operation of `module` that is not erased reads only what
/// is in scope.
pub fn is_well_scoped(module: &Module) -> (scoped: bool)
    requires
        module@.wf(),
    ensures
        scoped == well_scoped(module@),
{
    let count = module.operation_count();
    let mut id: usize = 0;
    while id < count
        invariant
            id <= count,
            count == module@.operations.len(),
            module@.wf(),
            forall|other: int, at: int|
                0 <= other < id && module@.is_live(other) && 0 <= at
                    < module@.operations[other].operands.len() ==> #[trigger] operand_in_scope(
                    module@,
                    other,
                    at,
                ),
        decreases count - id,
    {
        let op = module.operation(id);
        if !op.erased {
            let mut at: usize = 0;
            while at < op.operands.len()
                invariant
                    at <= op.operands.len(),
                    id < count,
                    count == module@.operations.len(),
                    module@.wf(),
                    op@ == module@.operations[id as int],
                    !op.erased,
                    forall|k: int| 0 <= k < at ==> #[trigger] operand_in_scope(module@, id as int, k),
                decreases op.operands.len() - at,
            {
                if !is_in_scope(module, id, op.operands[at]) {
                    assert(!operand_in_scope(module@, id as int, at as int));
                    return false;
                }
                at += 1;
            }
        }
        id += 1;
    }
    true
}

/// Whether the blocks and the operations of `module` form a tree.
pub fn is_tree_shaped(module: &Module) -> (shaped: bool)
    requires
        module@.wf(),
    ensures
        shaped == tree_shaped(module@),
{
    let count = module.operation_count();
    let mut id: usize = 0;
    while id < count
        invariant
            id <= count,
            count == module@.operations.len(),
            module@.wf(),
            forall|other: int| 0 <= other < id ==> #[trigger] is_listed(module@, other),
            forall|other: int| 0 <= other < id ==> #[trigger] follows_owner(module@, other),
        decreases count - id,
    {
        proof {
            assert(module@.operation_in_range(id as int));
            assert(module@.block_in_range(module@.operations[id as int].parent as int));
        }
        let op = module.operation(id);
        let home = module.block(op.parent);
        if !op.erased && place(module, id) >= home.operations.len() {
            assert(!is_listed(module@, id as int));
            return false;
        }
        match home.parent {
            Some((owner, _)) => {
                if owner >= id {
                    assert(!follows_owner(module@, id as int));
                    return false;
                }
            },
            None => {},
        }
        id += 1;
    }
    let blocks = module.block_count();
    let mut block: usize = 0;
    while block < blocks
        invariant
            block <= blocks,
            blocks == module@.blocks.len(),
            module@.wf(),
            forall|b: int, at: int|
                0 <= b < block && 0 <= at < module@.blocks[b].operations.len()
                    ==> #[trigger] entry_agrees(module@, b, at),
        decreases blocks - block,
    {
        let entries = &module.block(block).operations;
        let mut at: usize = 0;
        while at < entries.len()
            invariant
                at <= entries.len(),
                block < blocks,
                blocks == module@.blocks.len(),
                module@.wf(),
                entries@ == module@.blocks[block as int].operations,
                forall|k: int| 0 <= k < at ==> #[trigger] entry_agrees(module@, block as int, k),
            decreases entries.len() - at,
        {
            proof {
                assert(module@.block_in_range(block as int));
            }
            let entry = entries[at];
            if module.operation(entry).parent != block || find_entry(entries, entry) != at {
                assert(!entry_agrees(module@, block as int, at as int));
                return false;
            }
            at += 1;
        }
        block += 1;
    }
    true
}

/// Whether `module` is well-structured. Every module that a builder
/// finishes is, and rewriting keeps it so.
pub fn is_structured(module: &Module) -> (sound: bool)
    ensures
        sound == structured(module@),
{
    module.is_well_formed() && is_tree_shaped(module) && is_well_scoped(module)
}

/// The place that [`position_in`] gives lies within the entries or at their end.
pub proof fn lemma_position_bounds(entries: Seq<usize>, id: usize)
    ensures
        0 <= position_in(entries, id) <= entries.len(),
        position_in(entries, id) < entries.len() ==> entries[position_in(entries, id)] == id,
        forall|k: int| 0 <= k < position_in(entries, id) ==> entries[k] != id,
    decreases entries.len(),
{
    if entries.len() > 0 && entries[0] != id {
        let rest = entries.drop_first();
        lemma_position_bounds(rest, id);
        let at = position_in(rest, id);
        assert forall|k: int| 0 <= k < position_in(entries, id) implies entries[k] != id by {
            if k > 0 {
                assert(rest[k - 1] == entries[k]);
            }
        }
        if at < rest.len() {
            assert(rest[at] == entries[at + 1]);
        }
    }
}

/// The first place that holds a number is its place.
pub proof fn lemma_position_is(entries: Seq<usize>, id: usize, at: int)
    requires
        0 <= at < entries.len(),
        entries[at] == id,
        forall|k: int| 0 <= k < at ==> entries[k] != id,
    ensures
        position_in(entries, id) == at,
{
    lemma_position_bounds(entries, id);
    let found = position_in(entries, id);
    if found < at {
        assert(entries[found] != id);
    } else if found > at {
        assert(entries[at] != id);
    }
}

/// A number that no entry holds has its place at the end.
pub proof fn lemma_place_at_end(entries: Seq<usize>, id: usize)
    requires
        forall|k: int| 0 <= k < entries.len() ==> entries[k] != id,
    ensures
        position_in(entries, id) == entries.len(),
{
    lemma_position_bounds(entries, id);
    let found = position_in(entries, id);
    if found < entries.len() {
        assert(entries[found] == id);
    }
}

/// The empty module is well-structured, whatever the arguments of its body.
pub proof fn lemma_empty_is_structured(module: ModuleView)
    requires
        module.wf(),
        module.operations.len() == 0,
        forall|block: int| 0 <= block < module.blocks.len() ==> (
        #[trigger] module.blocks[block]).operations.len() == 0,
    ensures
        structured(module),
{
}

} // verus!
