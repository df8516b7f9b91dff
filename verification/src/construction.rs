//! Why a module that is built front to back is well-structured: every step
//! of a builder keeps the module a tree and keeps every operation reading
//! only what is in scope.

use vstd::prelude::*;
use crate::attribute::AttributeView;
use crate::builder::BuilderView;
use crate::ir::{ModuleView, ValueRef};
use crate::rewrite::{enclosing, position_in};
use crate::scope::{
    defined_before, entry_agrees, follows_owner, in_scope, is_listed, lemma_place_at_end,
    lemma_position_bounds, lemma_position_is, operand_in_scope, structured, tree_shaped,
};
use crate::types::TypeView;

verus! {

/// Whether the open block at `depth` hangs on the one below it: whether it
/// belongs to the last operation of that block, and was made after that block.
pub open spec fn link_holds(state: BuilderView, depth: int) -> bool {
    let block = state.stack[depth];
    let below = state.stack[depth - 1];
    let entries = state.module.blocks[below as int].operations;
    match state.module.blocks[block as int].parent {
        Some((owner, region)) => {
            &&& below < block
            &&& owner < state.module.operations.len()
            &&& state.module.operations[owner as int].parent == below
            &&& entries.len() > 0
            &&& entries.last() == owner
        },
        None => false,
    }
}

/// Whether the open blocks form a chain from the body of the module to the
/// insertion point.
pub open spec fn chained(state: BuilderView) -> bool {
    &&& state.stack[0] == 0
    &&& state.module.blocks[0].parent is None
    &&& forall|depth: int| 1 <= depth < state.stack.len() ==> #[trigger] link_holds(state, depth)
}

/// Whether no operation of `module` is erased.
pub open spec fn all_live(module: ModuleView) -> bool {
    forall|id: int| 0 <= id < module.operations.len() ==> !(#[trigger] module.operations[id]).erased
}

/// Whether the builder is sound: whether its module is well-structured and
/// without erased operations, and its open blocks form a chain. Every
/// builder that starts from an empty module is sound at every step.
pub open spec fn sound(state: BuilderView) -> bool {
    state.wf() && structured(state.module) && all_live(state.module) && chained(state)
}

/// Whether `after` is `before` with one more operation, numbered
/// `before.operations.len()`, at the end of the arena and at the end of the
/// block `block`.
pub open spec fn appended(before: ModuleView, after: ModuleView, block: int) -> bool {
    let id = before.operations.len();
    &&& 0 <= block < before.blocks.len()
    &&& id < usize::MAX
    &&& after.operations.len() == id + 1
    &&& forall|k: int| 0 <= k < id ==> after.operations[k] == #[trigger] before.operations[k]
    &&& after.operations[id as int].parent == block
    &&& !after.operations[id as int].erased
    &&& after.blocks.len() == before.blocks.len()
    &&& forall|b: int|
        0 <= b < before.blocks.len() && b != block ==> after.blocks[b] == #[trigger] before.blocks[b]
    &&& after.blocks[block].parent == before.blocks[block].parent
    &&& after.blocks[block].arguments == before.blocks[block].arguments
    &&& after.blocks[block].operations == before.blocks[block].operations.push(id as usize)
}

/// Entering a number at the end of a list leaves every place before the
/// end where it was, and puts what was missing behind the new entry.
pub proof fn lemma_position_push(entries: Seq<usize>, fresh: usize, id: usize)
    requires
        forall|k: int| 0 <= k < entries.len() ==> entries[k] != fresh,
    ensures
        id != fresh && position_in(entries, id) < entries.len() ==> position_in(
            entries.push(fresh),
            id,
        ) == position_in(entries, id),
        id != fresh && position_in(entries, id) >= entries.len() ==> position_in(
            entries.push(fresh),
            id,
        ) == entries.len() + 1,
        position_in(entries.push(fresh), fresh) == entries.len(),
{
    let longer = entries.push(fresh);
    lemma_position_bounds(entries, id);
    lemma_position_is(longer, fresh, entries.len() as int);
    if id != fresh {
        let at = position_in(entries, id);
        if at < entries.len() {
            assert(longer[at] == entries[at]);
            assert forall|k: int| 0 <= k < at implies longer[k] != id by {
                assert(longer[k] == entries[k]);
            }
            lemma_position_is(longer, id, at);
        } else {
            assert forall|k: int| 0 <= k < longer.len() implies longer[k] != id by {
                if k < entries.len() {
                    assert(longer[k] == entries[k]);
                }
            }
            lemma_place_at_end(longer, id);
        }
    }
}

/// The entries of a well-formed module are all below the number of its
/// operations, so the next number is in no block.
pub proof fn lemma_next_is_nowhere(module: ModuleView, block: int)
    requires
        module.wf(),
        0 <= block < module.blocks.len(),
    ensures
        forall|k: int|
            0 <= k < module.blocks[block].operations.len() ==> module.blocks[block].operations[k]
                != module.operations.len(),
{
    assert(module.block_in_range(block));
}

/// Appending an operation leaves the place of every earlier operation
/// before the place of everything that it stood before.
pub proof fn lemma_defined_before_kept(
    before: ModuleView,
    after: ModuleView,
    block: int,
    reader: int,
    value: ValueRef,
)
    requires
        before.wf(),
        appended(before, after, block),
        0 <= reader < before.operations.len(),
        defined_before(before, reader, value),
    ensures
        defined_before(after, reader, value),
{
    let id = before.operations.len() as usize;
    assert(before.operation_in_range(reader));
    match value {
        ValueRef::OperationResult { operation, index } => {
            let home = before.operations[reader].parent as int;
            let entries = before.blocks[home].operations;
            if home == block {
                lemma_next_is_nowhere(before, block);
                lemma_position_push(entries, id, operation);
                lemma_position_push(entries, id, reader as usize);
                lemma_position_bounds(entries, reader as usize);
            }
        },
        _ => {},
    }
}

/// Appending an operation leaves in scope what was in scope.
pub proof fn lemma_scope_kept(
    before: ModuleView,
    after: ModuleView,
    block: int,
    reader: int,
    value: ValueRef,
)
    requires
        before.wf(),
        appended(before, after, block),
        in_scope(before, reader, value),
    ensures
        in_scope(after, reader, value),
    decreases reader,
{
    assert(before.operation_in_range(reader));
    if defined_before(before, reader, value) {
        lemma_defined_before_kept(before, after, block, reader, value);
    } else {
        let owner = enclosing(before, reader)->0;
        assert(enclosing(after, reader) == enclosing(before, reader));
        lemma_scope_kept(before, after, block, owner as int, value);
    }
}

/// Appending an operation to a tree gives a tree.
pub proof fn lemma_tree_kept(before: ModuleView, after: ModuleView, block: int)
    requires
        before.wf(),
        after.wf(),
        tree_shaped(before),
        appended(before, after, block),
    ensures
        tree_shaped(after),
{
    let id = before.operations.len() as usize;
    let entries = before.blocks[block].operations;
    lemma_next_is_nowhere(before, block);
    assert forall|other: int| 0 <= other < after.operations.len() implies #[trigger] is_listed(
        after,
        other,
    ) by {
        if other < id {
            assert(is_listed(before, other));
            assert(before.operation_in_range(other));
            if before.operations[other].parent == block {
                lemma_position_push(entries, id, other as usize);
            }
        } else {
            lemma_position_push(entries, id, id);
        }
    }
    assert forall|b: int, place: int|
        0 <= b < after.blocks.len() && 0 <= place < after.blocks[b].operations.len() implies #[trigger]
        entry_agrees(after, b, place) by {
        if b == block {
            if place < entries.len() {
                assert(entry_agrees(before, b, place));
                assert(before.block_in_range(b));
                lemma_position_push(entries, id, entries[place]);
            } else {
                lemma_position_push(entries, id, id);
            }
        } else {
            assert(entry_agrees(before, b, place));
            assert(before.block_in_range(b));
        }
    }
    assert forall|other: int| 0 <= other < after.operations.len() implies #[trigger] follows_owner(
        after,
        other,
    ) by {
        if other < id {
            assert(follows_owner(before, other));
            assert(before.operation_in_range(other));
            assert(enclosing(after, other) == enclosing(before, other));
        } else {
            assert(before.block_in_range(block));
        }
    }
}

/// The operation that stands at `depth` on the way from the body to the
/// operation `last`, which stands in the innermost open block: `last`
/// itself at the top, and below that the operation to which the next open
/// block belongs.
pub open spec fn ancestor_at(state: BuilderView, last: usize, depth: int) -> usize {
    if depth + 1 >= state.stack.len() {
        last
    } else {
        match state.module.blocks[state.stack[depth + 1] as int].parent {
            Some((owner, region)) => owner,
            None => last,
        }
    }
}

/// Whether `value` is defined in the open block at `depth`, before the
/// operation that stands there on the way to `last`.
pub open spec fn anchored(state: BuilderView, last: usize, depth: int, value: ValueRef) -> bool {
    0 <= depth < state.stack.len() && defined_before(
        state.module,
        ancestor_at(state, last, depth) as int,
        value,
    )
}

/// What is defined before an operation on the way to `last` is in scope
/// for every operation further on that way.
pub proof fn lemma_anchored_is_in_scope(
    state: BuilderView,
    last: usize,
    anchor: int,
    depth: int,
    value: ValueRef,
)
    requires
        state.wf(),
        tree_shaped(state.module),
        chained(state),
        last < state.module.operations.len(),
        state.module.operations[last as int].parent == state.current(),
        anchored(state, last, anchor, value),
        anchor <= depth < state.stack.len(),
    ensures
        in_scope(state.module, ancestor_at(state, last, depth) as int, value),
    decreases depth - anchor,
{
    let module = state.module;
    let here = ancestor_at(state, last, depth);
    if depth + 1 < state.stack.len() {
        assert(link_holds(state, depth + 1));
    }
    assert(here < module.operations.len());
    if depth > anchor {
        assert(link_holds(state, depth));
        let below = ancestor_at(state, last, depth - 1);
        assert(module.operations[here as int].parent == state.stack[depth]);
        assert(state.stack[depth] < module.blocks.len());
        assert(enclosing(module, here as int) == Some(below));
        assert(follows_owner(module, here as int));
        lemma_anchored_is_in_scope(state, last, anchor, depth - 1, value);
    }
}

/// A value that a sound builder shows as visible is in scope for the
/// operation that is entered next.
pub proof fn lemma_visible_is_in_scope(
    before: BuilderView,
    after: BuilderView,
    value: ValueRef,
)
    requires
        sound(before),
        after.wf(),
        tree_shaped(after.module),
        after.stack == before.stack,
        appended(before.module, after.module, before.current() as int),
        before.visible(value),
    ensures
        in_scope(after.module, before.module.operations.len() as int, value),
{
    let old_module = before.module;
    let module = after.module;
    let id = old_module.operations.len() as usize;
    let top = before.stack.len() - 1;
    let current = before.current() as int;
    assert(before.stack[top] == current);
    lemma_chain_kept(before, after);
    // The open block in which the value is defined.
    let home: usize = match value {
        ValueRef::BlockArgument { block, index } => block,
        ValueRef::OperationResult { operation, index } => old_module.operations[operation
            as int].parent,
    };
    assert(before.stack.contains(home));
    let anchor = choose|depth: int| 0 <= depth < before.stack.len() && before.stack[depth] == home;
    let reader = ancestor_at(after, id, anchor);
    if anchor < top {
        assert(link_holds(after, anchor + 1));
        assert(link_holds(before, anchor + 1));
    }
    assert(module.operations[reader as int].parent == home);
    lemma_stack_rises(before, anchor, top);
    match value {
        ValueRef::OperationResult { operation, index } => {
            assert(old_module.operations[operation as int] == module.operations[operation as int]);
            assert(is_listed(old_module, operation as int));
            let entries = old_module.blocks[home as int].operations;
            lemma_position_bounds(entries, operation);
            if anchor == top {
                lemma_next_is_nowhere(old_module, current);
                lemma_position_push(entries, id, operation);
                lemma_position_push(entries, id, id);
            } else {
                assert(module.blocks[home as int] == old_module.blocks[home as int]);
                assert(entry_agrees(old_module, home as int, entries.len() - 1));
                assert(before.owned_at(anchor + 1, reader));
                assert(reader != operation);
            }
            assert(defined_before(module, reader as int, value));
        },
        _ => {},
    }
    assert(anchored(after, id, anchor, value));
    lemma_anchored_is_in_scope(after, id, anchor, top, value);
}

/// The open blocks were made one after the other.
pub proof fn lemma_stack_rises(state: BuilderView, lower: int, upper: int)
    requires
        chained(state),
        0 <= lower <= upper < state.stack.len(),
    ensures
        state.stack[lower] <= state.stack[upper],
        lower < upper ==> state.stack[lower] < state.stack[upper],
    decreases upper - lower,
{
    if lower < upper {
        assert(link_holds(state, upper));
        lemma_stack_rises(state, lower, upper - 1);
    }
}

/// Appending an operation at the insertion point keeps the chain of open blocks.
pub proof fn lemma_chain_kept(before: BuilderView, after: BuilderView)
    requires
        before.wf(),
        chained(before),
        after.stack == before.stack,
        appended(before.module, after.module, before.current() as int),
    ensures
        chained(after),
{
    let top = before.stack.len() - 1;
    assert forall|depth: int| 1 <= depth < after.stack.len() implies #[trigger] link_holds(
        after,
        depth,
    ) by {
        assert(link_holds(before, depth));
        lemma_stack_rises(before, depth - 1, top);
        lemma_stack_rises(before, depth, top);
        let below = before.stack[depth - 1] as int;
        if below == before.current() {
            assert(depth - 1 == top) by {
                if depth - 1 < top {
                    lemma_stack_rises(before, depth - 1, top);
                }
            }
        }
    }
}

/// Entering an operation whose operands are visible keeps a builder sound.
pub proof fn lemma_operation_keeps_sound(
    before: BuilderView,
    name: Seq<char>,
    operands: Seq<ValueRef>,
    results: Seq<TypeView>,
    attributes: Seq<(Seq<char>, AttributeView)>,
    regions: nat,
)
    requires
        sound(before),
        before.all_visible(operands),
        before.module.operations.len() < usize::MAX,
        before.after_operation(name, operands, results, attributes, regions).wf(),
    ensures
        sound(before.after_operation(name, operands, results, attributes, regions)),
{
    let after = before.after_operation(name, operands, results, attributes, regions);
    let old_module = before.module;
    let module = after.module;
    let id = old_module.operations.len() as int;
    let current = before.current() as int;
    assert(before.stack[before.stack.len() - 1] < old_module.blocks.len());
    assert(appended(old_module, module, current));
    lemma_tree_kept(old_module, module, current);
    lemma_chain_kept(before, after);
    assert forall|other: int, place: int|
        module.is_live(other) && 0 <= place < module.operations[other].operands.len() implies #[trigger]
        operand_in_scope(module, other, place) by {
        if other < id {
            assert(operand_in_scope(old_module, other, place));
            lemma_scope_kept(
                old_module,
                module,
                current,
                other,
                old_module.operations[other].operands[place],
            );
        } else {
            assert(before.visible(operands[place]));
            lemma_visible_is_in_scope(before, after, operands[place]);
        }
    }
}

/// Whether `after` is `before` with one more block, without operations, at
/// the end of the arena, entered into a region of the operation `owner`.
pub open spec fn block_added(before: ModuleView, after: ModuleView, owner: int) -> bool {
    let id = before.blocks.len();
    &&& 0 <= owner < before.operations.len()
    &&& after.operations.len() == before.operations.len()
    &&& forall|k: int|
        0 <= k < before.operations.len() && k != owner ==> after.operations[k]
            == #[trigger] before.operations[k]
    &&& after.operations[owner].parent == before.operations[owner].parent
    &&& after.operations[owner].operands == before.operations[owner].operands
    &&& after.operations[owner].erased == before.operations[owner].erased
    &&& after.blocks.len() == id + 1
    &&& forall|b: int| 0 <= b < id ==> after.blocks[b] == #[trigger] before.blocks[b]
    &&& after.blocks[id as int].operations.len() == 0
}

/// Adding a block leaves in scope what was in scope.
pub proof fn lemma_scope_kept_with_block(
    before: ModuleView,
    after: ModuleView,
    owner: int,
    reader: int,
    value: ValueRef,
)
    requires
        before.wf(),
        block_added(before, after, owner),
        in_scope(before, reader, value),
    ensures
        in_scope(after, reader, value),
    decreases reader,
{
    assert(before.operation_in_range(reader));
    match value {
        ValueRef::OperationResult { operation, index } => {
            if before.is_live(operation as int) {
                assert(before.operation_in_range(operation as int));
            }
        },
        _ => {},
    }
    if defined_before(before, reader, value) {
        assert(defined_before(after, reader, value));
    } else {
        let above = enclosing(before, reader)->0;
        assert(enclosing(after, reader) == enclosing(before, reader));
        lemma_scope_kept_with_block(before, after, owner, above as int, value);
    }
}

/// Appending a block where that is allowed keeps a builder sound.
pub proof fn lemma_block_keeps_sound(
    before: BuilderView,
    operation: usize,
    region: usize,
    arguments: Seq<TypeView>,
)
    requires
        sound(before),
        before.can_append_block(operation, region),
        operation < before.module.operations.len(),
        before.module.blocks.len() < usize::MAX,
        before.after_block(operation, region, arguments).wf(),
    ensures
        sound(before.after_block(operation, region, arguments)),
{
    let after = before.after_block(operation, region, arguments);
    let old_module = before.module;
    let module = after.module;
    let top = before.stack.len() - 1;
    let current = before.current() as int;
    let id = old_module.blocks.len() as int;
    assert(before.stack[top] < old_module.blocks.len());
    assert(block_added(old_module, module, operation as int));
    assert forall|other: int| 0 <= other < module.operations.len() implies #[trigger] is_listed(
        module,
        other,
    ) by {
        assert(is_listed(old_module, other));
        assert(old_module.operation_in_range(other));
    }
    assert forall|b: int, place: int|
        0 <= b < module.blocks.len() && 0 <= place < module.blocks[b].operations.len() implies #[trigger]
        entry_agrees(module, b, place) by {
        assert(entry_agrees(old_module, b, place));
        assert(old_module.block_in_range(b));
    }
    assert forall|other: int| 0 <= other < module.operations.len() implies #[trigger] follows_owner(
        module,
        other,
    ) by {
        assert(follows_owner(old_module, other));
        assert(old_module.operation_in_range(other));
        assert(enclosing(module, other) == enclosing(old_module, other));
    }
    assert forall|other: int, place: int|
        module.is_live(other) && 0 <= place < module.operations[other].operands.len() implies #[trigger]
        operand_in_scope(module, other, place) by {
        assert(operand_in_scope(old_module, other, place));
        lemma_scope_kept_with_block(
            old_module,
            module,
            operation as int,
            other,
            old_module.operations[other].operands[place],
        );
    }
    let entries = old_module.blocks[current].operations;
    assert(entry_agrees(old_module, current, entries.len() - 1));
    assert forall|depth: int| 1 <= depth < after.stack.len() implies #[trigger] link_holds(
        after,
        depth,
    ) by {
        if depth <= top {
            assert(link_holds(before, depth));
            assert(after.stack[depth] == before.stack[depth]);
            assert(after.stack[depth - 1] == before.stack[depth - 1]);
            assert(before.stack[depth] < old_module.blocks.len());
            assert(before.stack[depth - 1] < old_module.blocks.len());
        } else {
            assert(after.stack[depth] == id);
            assert(after.stack[depth - 1] == current);
        }
    }
    assert(all_live(module)) by {
        assert forall|other: int| 0 <= other < module.operations.len() implies !(
        #[trigger] module.operations[other]).erased by {
            assert(!old_module.operations[other].erased);
        }
    }
}

/// Closing the innermost open block keeps a builder sound.
pub proof fn lemma_end_keeps_sound(before: BuilderView)
    requires
        sound(before),
        before.stack.len() > 1,
    ensures
        sound(BuilderView { module: before.module, stack: before.stack.drop_last() }),
{
    let after = BuilderView { module: before.module, stack: before.stack.drop_last() };
    assert forall|depth: int| 0 <= depth < after.stack.len() implies (#[trigger] after.stack[depth])
        < after.module.blocks.len() by {
        assert(after.stack[depth] == before.stack[depth]);
    }
    assert forall|depth: int| 1 <= depth < after.stack.len() implies #[trigger] link_holds(
        after,
        depth,
    ) by {
        assert(link_holds(before, depth));
    }
}

} // verus!
