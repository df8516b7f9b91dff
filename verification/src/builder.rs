//! Building a module front to back through an explicit insertion point.

use vstd::prelude::*;
use crate::attribute::{named_attributes_view, AttributeView, NamedAttribute};
use crate::construction::{
    lemma_block_keeps_sound, lemma_end_keeps_sound, lemma_operation_keeps_sound, sound,
};
use crate::scope::{lemma_empty_is_structured, structured};
use crate::error::Error;
use crate::ir::{Block, BlockView, Module, ModuleView, Operation, OperationView, ValueRef};
use crate::types::{types_view, Type, TypeView};

verus! {

/// The mathematical value of a [`Builder`]: the module built so far and the
/// blocks that are open, from the body of the module to the innermost.
pub struct BuilderView {
    pub module: ModuleView,
    pub stack: Seq<usize>,
}

impl BuilderView {
    /// Well-formedness: the module is well-formed, the body is open, and
    /// every open block exists.
    pub open spec fn wf(self) -> bool {
        &&& self.module.wf()
        &&& self.stack.len() >= 1
        &&& forall|k: int| 0 <= k < self.stack.len() ==> (#[trigger] self.stack[k])
            < self.module.blocks.len()
    }

    /// The block at whose end the next operation is entered.
    pub open spec fn current(self) -> usize {
        self.stack.last()
    }

    /// Whether the block at `depth` of the stack belongs to the operation `operation`.
    pub open spec fn owned_at(self, depth: int, operation: usize) -> bool {
        match self.module.blocks[self.stack[depth] as int].parent {
            Some((owner, region)) => owner == operation,
            None => false,
        }
    }

    /// Whether an open block belongs to the operation `operation`, so that
    /// the insertion point lies inside that operation.
    pub open spec fn encloses(self, operation: usize) -> bool {
        exists|depth: int| 0 <= depth < self.stack.len() && #[trigger] self.owned_at(
            depth,
            operation,
        )
    }

    /// Whether `value` may be read at the insertion point: it is an argument
    /// of an open block, or a result of an operation that stands in an open
    /// block and does not enclose the insertion point.
    pub open spec fn visible(self, value: ValueRef) -> bool {
        &&& self.module.defines(value)
        &&& match value {
            ValueRef::BlockArgument { block, index } => self.stack.contains(block),
            ValueRef::OperationResult { operation, index } => {
                &&& self.stack.contains(self.module.operations[operation as int].parent)
                &&& !self.encloses(operation)
            },
        }
    }

    /// Whether every one of `operands` may be read at the insertion point.
    pub open spec fn all_visible(self, operands: Seq<ValueRef>) -> bool {
        forall|k: int| 0 <= k < operands.len() ==> self.visible(#[trigger] operands[k])
    }

    /// The builder after a new operation was entered at the insertion point.
    pub open spec fn after_operation(
        self,
        name: Seq<char>,
        operands: Seq<ValueRef>,
        results: Seq<TypeView>,
        attributes: Seq<(Seq<char>, AttributeView)>,
        regions: nat,
    ) -> BuilderView {
        let id = self.module.operations.len() as usize;
        let current = self.current();
        let op = OperationView {
            name,
            operands,
            results,
            attributes,
            regions: Seq::new(regions, |r: int| Seq::empty()),
            parent: current,
            erased: false,
        };
        BuilderView {
            module: self.module.with_operation(op).with_block_operations(
                current as int,
                self.module.blocks[current as int].operations.push(id),
            ),
            stack: self.stack,
        }
    }

    /// Whether a block may be appended to the region `region` of the
    /// operation `operation`: the operation is the last one of the current
    /// block and has such a region.
    pub open spec fn can_append_block(self, operation: usize, region: usize) -> bool {
        let entries = self.module.blocks[self.current() as int].operations;
        &&& entries.len() > 0
        &&& entries.last() == operation
        &&& region < self.module.operations[operation as int].regions.len()
    }

    /// The builder after a block was appended to the region `region` of the
    /// operation `operation` and opened.
    pub open spec fn after_block(
        self,
        operation: usize,
        region: usize,
        arguments: Seq<TypeView>,
    ) -> BuilderView {
        let id = self.module.blocks.len() as usize;
        let block = BlockView {
            arguments,
            operations: Seq::empty(),
            parent: Some((operation, region)),
        };
        BuilderView {
            module: self.module.with_block(block).with_region_block(
                operation as int,
                region as int,
                id,
            ),
            stack: self.stack.push(id),
        }
    }
}

/// Builds a module front to back.
///
/// The builder holds the insertion point: the end of the innermost open
/// block. Operations are appended there and nowhere else; a block is opened
/// in a region of the operation appended last, and closed again when it is
/// complete. So operations are numbered in the order in which a depth-first
/// walk of the finished module meets them.
#[derive(Debug)]
pub struct Builder {
    module: Module,
    stack: Vec<usize>,
}

impl View for Builder {
    type V = BuilderView;

    closed spec fn view(&self) -> BuilderView {
        BuilderView { module: self.module@, stack: self.stack@ }
    }
}

/// Whether `items` holds `wanted`.
fn holds(items: &Vec<usize>, wanted: usize) -> (found: bool)
    ensures
        found == items@.contains(wanted),
{
    let mut k: usize = 0;
    while k < items.len()
        invariant
            k <= items.len(),
            forall|j: int| 0 <= j < k ==> items@[j] != wanted,
        decreases items.len() - k,
    {
        if items[k] == wanted {
            return true;
        }
        k += 1;
    }
    false
}

impl Builder {
    /// A builder whose module is empty and whose insertion point is the end
    /// of the module's body.
    pub fn new() -> (builder: Builder)
        ensures
            builder@ == (BuilderView { module: ModuleView::empty(), stack: seq![0usize] }),
            builder@.wf(),
            sound(builder@),
    {
        let module = Module::new();
        let mut stack: Vec<usize> = Vec::new();
        stack.push(0);
        let builder = Builder { module, stack };
        proof {
            assert(builder@.stack =~= seq![0usize]);
            lemma_empty_is_structured(builder@.module);
        }
        builder
    }

    /// A builder whose module is empty but for the arguments of its body,
    /// which have the types `argument_types`, and whose insertion point is
    /// the end of that body.
    pub fn with_arguments(argument_types: Vec<Type>) -> (builder: Builder)
        ensures
            builder@ == (BuilderView {
                module: ModuleView::empty_with(types_view(argument_types@)),
                stack: seq![0usize],
            }),
            builder@.wf(),
            sound(builder@),
    {
        let module = Module::with_arguments(argument_types);
        let mut stack: Vec<usize> = Vec::new();
        stack.push(0);
        let builder = Builder { module, stack };
        proof {
            assert(builder@.stack =~= seq![0usize]);
            lemma_empty_is_structured(builder@.module);
        }
        builder
    }

    /// The block at whose end the next operation is entered.
    pub fn current_block(&self) -> (block: usize)
        requires
            self@.wf(),
        ensures
            block == self@.current(),
    {
        self.stack[self.stack.len() - 1]
    }

    /// Whether the builder is well-formed. Every builder that this library
    /// hands out is.
    pub fn is_well_formed(&self) -> (ok: bool)
        ensures
            ok == self@.wf(),
    {
        if !self.module.is_well_formed() || self.stack.len() < 1 {
            return false;
        }
        let mut k: usize = 0;
        while k < self.stack.len()
            invariant
                k <= self.stack.len(),
                forall|j: int| 0 <= j < k ==> (#[trigger] self@.stack[j]) < self@.module.blocks.len(),
            decreases self.stack.len() - k,
        {
            if self.stack[k] >= self.module.block_count() {
                return false;
            }
            k += 1;
        }
        true
    }

    /// The module built so far.
    pub fn module(&self) -> (module: &Module)
        ensures
            module@ == self@.module,
    {
        &self.module
    }

    /// Whether the insertion point lies inside the operation `operation`.
    fn encloses(&self, operation: usize) -> (inside: bool)
        requires
            self@.wf(),
        ensures
            inside == self@.encloses(operation),
    {
        let mut depth: usize = 0;
        while depth < self.stack.len()
            invariant
                self@.wf(),
                depth <= self.stack.len(),
                forall|d: int| 0 <= d < depth ==> !self@.owned_at(d, operation),
            decreases self.stack.len() - depth,
        {
            assert(self@.stack[depth as int] < self@.module.blocks.len());
            let block = self.module.block(self.stack[depth]);
            match block.parent {
                Some((owner, _)) => {
                    if owner == operation {
                        assert(self@.owned_at(depth as int, operation));
                        return true;
                    }
                },
                None => {},
            }
            depth += 1;
        }
        false
    }

    /// Whether `value` may be read at the insertion point.
    pub fn is_visible(&self, value: ValueRef) -> (visible: bool)
        requires
            self@.wf(),
        ensures
            visible == self@.visible(value),
    {
        if self.module.value_type(value).is_none() {
            return false;
        }
        match value {
            ValueRef::BlockArgument { block, index } => holds(&self.stack, block),
            ValueRef::OperationResult { operation, index } => {
                let parent = self.module.operation(operation).parent;
                holds(&self.stack, parent) && !self.encloses(operation)
            },
        }
    }

    /// Enters a new operation at the insertion point and returns its number.
    ///
    /// The operation gets `regions` regions, all empty. It is refused, and
    /// nothing changes, if one of `operands` may not be read at the
    /// insertion point.
    pub fn new_operation(
        &mut self,
        name: &str,
        operands: Vec<ValueRef>,
        result_types: Vec<Type>,
        attributes: Vec<NamedAttribute>,
        regions: usize,
    ) -> (outcome: Result<usize, Error>)
        requires
            old(self)@.wf(),
        ensures
            final(self)@.wf(),
            sound(old(self)@) ==> sound(final(self)@),
            match outcome {
                Ok(id) => {
                    &&& old(self)@.all_visible(operands@)
                    &&& id == old(self)@.module.operations.len()
                    &&& final(self)@ == old(self)@.after_operation(
                        name@,
                        operands@,
                        types_view(result_types@),
                        named_attributes_view(attributes@),
                        regions as nat,
                    )
                },
                Err(error) => {
                    &&& error == Error::MalformedOperation
                    &&& !old(self)@.all_visible(operands@)
                    &&& final(self)@ == old(self)@
                },
            },
    {
        let mut k: usize = 0;
        while k < operands.len()
            invariant
                self@.wf(),
                self@ == old(self)@,
                k <= operands.len(),
                forall|j: int| 0 <= j < k ==> self@.visible(#[trigger] operands@[j]),
            decreases operands.len() - k,
        {
            if !self.is_visible(operands[k]) {
                return Err(Error::MalformedOperation);
            }
            k += 1;
        }
        let mut owned: Vec<Vec<usize>> = Vec::new();
        let mut r: usize = 0;
        while r < regions
            invariant
                r <= regions,
                owned@.len() == r,
                forall|j: int| 0 <= j < r ==> (#[trigger] owned@[j])@ == Seq::<usize>::empty(),
            decreases regions - r,
        {
            owned.push(Vec::new());
            r += 1;
        }
        let current = self.current_block();
        let op = Operation {
            name: String::from_str(name),
            operands,
            results: result_types,
            attributes,
            regions: owned,
            parent: current,
            erased: false,
        };
        let ghost before = self@;
        let ghost after = before.after_operation(
            name@,
            operands@,
            types_view(result_types@),
            named_attributes_view(attributes@),
            regions as nat,
        );
        proof {
            assert(op@.regions =~= Seq::new(regions as nat, |r: int| Seq::<usize>::empty()));
            assert(before.stack[before.stack.len() - 1] < before.module.blocks.len());
        }
        let id = self.module.push_operation(op);
        let position = self.module.block(current).operations.len();
        self.module.insert_into_block(current, position, id);
        proof {
            self.module.lemma_counts_are_bounded();
            let entries = before.module.blocks[current as int].operations;
            assert(entries.insert(position as int, id) =~= entries.push(id));
            assert(self@ == after);
            lemma_after_operation_wf(
                before,
                name@,
                operands@,
                types_view(result_types@),
                named_attributes_view(attributes@),
                regions as nat,
            );
            if sound(before) {
                lemma_operation_keeps_sound(
                    before,
                    name@,
                    operands@,
                    types_view(result_types@),
                    named_attributes_view(attributes@),
                    regions as nat,
                );
            }
        }
        Ok(id)
    }

    /// Appends a block with arguments of the given types to the region
    /// `region` of the operation `operation`, opens it, and returns its
    /// number.
    ///
    /// The block is refused, and nothing changes, unless `operation` is the
    /// last operation of the current block and has a region `region`.
    pub fn append_block(&mut self, operation: usize, region: usize, argument_types: Vec<Type>) -> (outcome:
        Result<usize, Error>)
        requires
            old(self)@.wf(),
        ensures
            final(self)@.wf(),
            sound(old(self)@) ==> sound(final(self)@),
            match outcome {
                Ok(id) => {
                    &&& old(self)@.can_append_block(operation, region)
                    &&& id == old(self)@.module.blocks.len()
                    &&& final(self)@ == old(self)@.after_block(
                        operation,
                        region,
                        types_view(argument_types@),
                    )
                },
                Err(error) => {
                    &&& error == Error::MalformedOperation
                    &&& !old(self)@.can_append_block(operation, region)
                    &&& final(self)@ == old(self)@
                },
            },
    {
        let current = self.current_block();
        let ghost before = self@;
        proof {
            assert(before.stack[before.stack.len() - 1] < before.module.blocks.len());
            assert(before.module.block_in_range(current as int));
        }
        let entries = &self.module.block(current).operations;
        if entries.len() == 0 || entries[entries.len() - 1] != operation {
            return Err(Error::MalformedOperation);
        }
        assert(before.module.blocks[current as int].operations[entries.len() - 1]
            < before.module.operations.len());
        if region >= self.module.operation(operation).regions.len() {
            return Err(Error::MalformedOperation);
        }
        let block = Block {
            arguments: argument_types,
            operations: Vec::new(),
            parent: Some((operation, region)),
        };
        let id = self.module.push_block(block);
        self.module.push_region_block(operation, region, id);
        self.stack.push(id);
        proof {
            self.module.lemma_counts_are_bounded();
            lemma_after_block_wf(before, operation, region, types_view(argument_types@));
            if sound(before) {
                lemma_block_keeps_sound(before, operation, region, types_view(argument_types@));
            }
        }
        Ok(id)
    }

    /// Closes the innermost open block, so that the insertion point returns
    /// to the end of the block that holds its operation.
    ///
    /// The body of the module cannot be closed; asked to, the builder
    /// reports `MalformedOperation` and nothing changes.
    pub fn end_block(&mut self) -> (outcome: Result<(), Error>)
        requires
            old(self)@.wf(),
        ensures
            final(self)@.wf(),
            sound(old(self)@) ==> sound(final(self)@),
            final(self)@.module == old(self)@.module,
            match outcome {
                Ok(()) => old(self)@.stack.len() > 1 && final(self)@.stack == old(
                    self,
                )@.stack.drop_last(),
                Err(error) => error == Error::MalformedOperation && old(self)@.stack.len() == 1
                    && final(self)@ == old(self)@,
            },
    {
        if self.stack.len() <= 1 {
            return Err(Error::MalformedOperation);
        }
        self.stack.pop();
        proof {
            assert(self@.stack =~= old(self)@.stack.drop_last());
            if sound(old(self)@) {
                lemma_end_keeps_sound(old(self)@);
            }
        }
        Ok(())
    }

    /// The module that was built.
    pub fn finish(self) -> (module: Module)
        requires
            self@.wf(),
        ensures
            module@ == self@.module,
            module@.wf(),
            sound(self@) ==> structured(module@),
    {
        self.module
    }
}

/// Entering an operation whose operands are visible keeps a builder well-formed.
pub proof fn lemma_after_operation_wf(
    before: BuilderView,
    name: Seq<char>,
    operands: Seq<ValueRef>,
    results: Seq<TypeView>,
    attributes: Seq<(Seq<char>, AttributeView)>,
    regions: nat,
)
    requires
        before.wf(),
        before.all_visible(operands),
        before.module.operations.len() < usize::MAX,
    ensures
        before.after_operation(name, operands, results, attributes, regions).wf(),
{
    let after = before.after_operation(name, operands, results, attributes, regions);
    let old_module = before.module;
    let new_module = after.module;
    let id = old_module.operations.len() as int;
    assert(before.stack[before.stack.len() - 1] < old_module.blocks.len());
    assert forall|value: ValueRef| old_module.defines(value) implies new_module.defines(
        value,
    ) by {}
    assert forall|i: int| 0 <= i < new_module.operations.len() implies #[trigger]
        new_module.operation_in_range(i) by {
        if i < id {
            assert(old_module.operation_in_range(i));
        } else {
            assert forall|k: int| 0 <= k < operands.len() implies new_module.defines(
                #[trigger] operands[k],
            ) by {
                assert(before.visible(operands[k]));
            }
        }
    }
    assert forall|b: int| 0 <= b < new_module.blocks.len() implies #[trigger]
        new_module.block_in_range(b) by {
        assert(old_module.block_in_range(b));
    }
}

/// Appending a block where that is allowed keeps a builder well-formed.
pub proof fn lemma_after_block_wf(
    before: BuilderView,
    operation: usize,
    region: usize,
    arguments: Seq<TypeView>,
)
    requires
        before.wf(),
        before.can_append_block(operation, region),
        operation < before.module.operations.len(),
        before.module.blocks.len() < usize::MAX,
    ensures
        before.after_block(operation, region, arguments).wf(),
{
    let after = before.after_block(operation, region, arguments);
    let old_module = before.module;
    let new_module = after.module;
    let id = old_module.blocks.len() as int;
    assert forall|value: ValueRef| old_module.defines(value) implies new_module.defines(
        value,
    ) by {}
    assert forall|i: int| 0 <= i < new_module.operations.len() implies #[trigger]
        new_module.operation_in_range(i) by {
        assert(old_module.operation_in_range(i));
    }
    assert forall|b: int| 0 <= b < new_module.blocks.len() implies #[trigger]
        new_module.block_in_range(b) by {
        if b < id {
            assert(old_module.block_in_range(b));
        }
    }
}

} // verus!
