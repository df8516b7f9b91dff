//! The in-memory form of a module: operations and blocks held in two arenas
//! and referred to by index, so that erasing or replacing an operation can
//! never leave a reference dangling.

use vstd::prelude::*;
use crate::attribute::{
    clone_named_attributes, named_attributes_view, AttributeView, NamedAttribute,
};
use crate::types::{clone_types, types_view, Type, TypeView};

verus! {

/// A reference to a value: an argument of a block or a result of an operation.
///
/// A reference names the place where the value is defined; it never owns it.
#[derive(Clone, Copy, Debug, PartialEq, Eq, Hash, Structural)]
pub enum ValueRef {
    /// The argument `index` of the block `block`.
    BlockArgument { block: usize, index: usize },
    /// The result `index` of the operation `operation`.
    OperationResult { operation: usize, index: usize },
}

/// One operation of a module.
#[derive(Debug, PartialEq, Eq)]
pub struct Operation {
    /// The dialect-qualified name, such as `felt.add`.
    pub name: String,
    /// The values that the operation reads, in order.
    pub operands: Vec<ValueRef>,
    /// The types of the values that the operation defines, in order.
    pub results: Vec<Type>,
    /// The attributes, in the order in which they were given.
    pub attributes: Vec<NamedAttribute>,
    /// The regions that the operation owns; each is the ordered list of its blocks.
    pub regions: Vec<Vec<usize>>,
    /// The block that holds the operation.
    pub parent: usize,
    /// Whether the operation has been erased from the module.
    pub erased: bool,
}

/// The mathematical value of an [`Operation`].
pub struct OperationView {
    pub name: Seq<char>,
    pub operands: Seq<ValueRef>,
    pub results: Seq<TypeView>,
    pub attributes: Seq<(Seq<char>, AttributeView)>,
    pub regions: Seq<Seq<usize>>,
    pub parent: usize,
    pub erased: bool,
}

/// The views of a list of regions, in order.
pub open spec fn regions_view(regions: Seq<Vec<usize>>) -> Seq<Seq<usize>> {
    Seq::new(regions.len(), |k: int| regions[k]@)
}

impl View for Operation {
    type V = OperationView;

    open spec fn view(&self) -> OperationView {
        OperationView {
            name: self.name@,
            operands: self.operands@,
            results: types_view(self.results@),
            attributes: named_attributes_view(self.attributes@),
            regions: regions_view(self.regions@),
            parent: self.parent,
            erased: self.erased,
        }
    }
}

/// One block of a module.
#[derive(Debug, PartialEq, Eq)]
pub struct Block {
    /// The types of the block's arguments, in order.
    pub arguments: Vec<Type>,
    /// The operations of the block, in order.
    pub operations: Vec<usize>,
    /// The operation and the index of its region that own the block; `None`
    /// for the body of the module.
    pub parent: Option<(usize, usize)>,
}

/// The mathematical value of a [`Block`].
pub struct BlockView {
    pub arguments: Seq<TypeView>,
    pub operations: Seq<usize>,
    pub parent: Option<(usize, usize)>,
}

impl View for Block {
    type V = BlockView;

    open spec fn view(&self) -> BlockView {
        BlockView {
            arguments: types_view(self.arguments@),
            operations: self.operations@,
            parent: self.parent,
        }
    }
}

/// The mathematical value of a [`Module`]: its two arenas.
///
/// Operations and blocks are numbered in the order in which they were
/// created. Block 0 is the body of the module. An erased operation keeps its
/// number and its place in the arena.
pub struct ModuleView {
    pub operations: Seq<OperationView>,
    pub blocks: Seq<BlockView>,
}

impl ModuleView {
    /// The module that holds nothing but its empty body, whose arguments
    /// have the types `arguments`.
    pub open spec fn empty_with(arguments: Seq<TypeView>) -> ModuleView {
        ModuleView {
            operations: Seq::empty(),
            blocks: seq![BlockView { arguments, operations: Seq::empty(), parent: None }],
        }
    }

    /// The module that holds nothing but its empty body, without arguments.
    pub open spec fn empty() -> ModuleView {
        Self::empty_with(Seq::empty())
    }

    /// Whether `value` names an argument or a result that the module holds.
    pub open spec fn defines(self, value: ValueRef) -> bool {
        match value {
            ValueRef::BlockArgument { block, index } => {
                block < self.blocks.len() && index < self.blocks[block as int].arguments.len()
            },
            ValueRef::OperationResult { operation, index } => {
                operation < self.operations.len() && index < self.operations[operation
                    as int].results.len()
            },
        }
    }

    /// The type of a value that the module defines.
    pub open spec fn type_of(self, value: ValueRef) -> TypeView
        recommends
            self.defines(value),
    {
        match value {
            ValueRef::BlockArgument { block, index } => self.blocks[block as int].arguments[index
                as int],
            ValueRef::OperationResult { operation, index } => self.operations[operation
                as int].results[index as int],
        }
    }

    /// Whether every index that the operation `id` holds is in range.
    pub open spec fn operation_in_range(self, id: int) -> bool {
        let op = self.operations[id];
        &&& op.parent < self.blocks.len()
        &&& forall|k: int| 0 <= k < op.operands.len() ==> self.defines(#[trigger] op.operands[k])
        &&& forall|r: int, k: int|
            0 <= r < op.regions.len() && 0 <= k < op.regions[r].len() ==> (
            #[trigger] op.regions[r][k]) < self.blocks.len()
    }

    /// Whether every index that the block `id` holds is in range.
    pub open spec fn block_in_range(self, id: int) -> bool {
        let block = self.blocks[id];
        &&& forall|k: int|
            0 <= k < block.operations.len() ==> (#[trigger] block.operations[k])
                < self.operations.len()
        &&& match block.parent {
            Some((operation, region)) => operation < self.operations.len(),
            None => true,
        }
    }

    /// Well-formedness: the body exists and every index held anywhere in the
    /// module is in range.
    pub open spec fn wf(self) -> bool {
        &&& self.blocks.len() >= 1
        &&& forall|id: int|
            0 <= id < self.operations.len() ==> #[trigger] self.operation_in_range(id)
        &&& forall|id: int| 0 <= id < self.blocks.len() ==> #[trigger] self.block_in_range(id)
    }

    /// Whether `id` names an operation that has not been erased.
    pub open spec fn is_live(self, id: int) -> bool {
        0 <= id < self.operations.len() && !self.operations[id].erased
    }

    /// The module with one more operation at the end of the arena.
    pub open spec fn with_operation(self, op: OperationView) -> ModuleView {
        ModuleView { operations: self.operations.push(op), blocks: self.blocks }
    }

    /// The module with one more block at the end of the arena.
    pub open spec fn with_block(self, block: BlockView) -> ModuleView {
        ModuleView { operations: self.operations, blocks: self.blocks.push(block) }
    }

    /// The module in which the block `block` has the operations `operations`.
    pub open spec fn with_block_operations(self, block: int, operations: Seq<usize>) -> ModuleView {
        ModuleView {
            operations: self.operations,
            blocks: self.blocks.update(
                block,
                BlockView { operations: operations, ..self.blocks[block] },
            ),
        }
    }

    /// The module in which the operation `id` reads `operands`.
    pub open spec fn with_operands(self, id: int, operands: Seq<ValueRef>) -> ModuleView {
        ModuleView {
            operations: self.operations.update(
                id,
                OperationView { operands: operands, ..self.operations[id] },
            ),
            blocks: self.blocks,
        }
    }

    /// The module in which the operation `id` is marked as erased.
    pub open spec fn with_erased(self, id: int) -> ModuleView {
        ModuleView {
            operations: self.operations.update(
                id,
                OperationView { erased: true, ..self.operations[id] },
            ),
            blocks: self.blocks,
        }
    }

    /// The module in which the region `region` of the operation `id` has one
    /// more block, `block`, at its end.
    pub open spec fn with_region_block(self, id: int, region: int, block: usize) -> ModuleView {
        let op = self.operations[id];
        ModuleView {
            operations: self.operations.update(
                id,
                OperationView {
                    regions: op.regions.update(region, op.regions[region].push(block)),
                    ..op
                },
            ),
            blocks: self.blocks,
        }
    }
}

/// The views of a list of operations, in order.
pub open spec fn operations_view(operations: Seq<Operation>) -> Seq<OperationView> {
    Seq::new(operations.len(), |k: int| operations[k]@)
}

/// The views of a list of blocks, in order.
pub open spec fn blocks_view(blocks: Seq<Block>) -> Seq<BlockView> {
    Seq::new(blocks.len(), |k: int| blocks[k]@)
}

/// A module: the root of a tree of operations, blocks and regions.
#[derive(Debug, PartialEq, Eq)]
pub struct Module {
    operations: Vec<Operation>,
    blocks: Vec<Block>,
}

impl View for Module {
    type V = ModuleView;

    closed spec fn view(&self) -> ModuleView {
        ModuleView {
            operations: operations_view(self.operations@),
            blocks: blocks_view(self.blocks@),
        }
    }
}

impl OperationView {
    /// The only block of the only region of the operation, if it has just
    /// one region with just one block.
    pub open spec fn sole_block(self) -> Option<usize> {
        if self.regions.len() == 1 && self.regions[0].len() == 1 {
            Some(self.regions[0][0])
        } else {
            None
        }
    }
}

impl Operation {
    /// Whether the operation has the name `name`.
    pub fn has_name(&self, name: &str) -> (same: bool)
        ensures
            same == (self@.name == name@),
    {
        let wanted = String::from_str(name);
        self.name == wanted
    }

    /// The only block of the only region of the operation, if it has just
    /// one region with just one block.
    pub fn sole_block(&self) -> (block: Option<usize>)
        ensures
            block == self@.sole_block(),
    {
        if self.regions.len() == 1 && self.regions[0].len() == 1 {
            Some(self.regions[0][0])
        } else {
            None
        }
    }
}

/// A copy of a list of numbers.
pub fn clone_indices(indices: &Vec<usize>) -> (copy: Vec<usize>)
    ensures
        copy@ == indices@,
{
    let mut copy: Vec<usize> = Vec::new();
    let mut k: usize = 0;
    while k < indices.len()
        invariant
            k <= indices.len(),
            copy@.len() == k,
            forall|j: int| 0 <= j < k ==> copy@[j] == indices@[j],
        decreases indices.len() - k,
    {
        copy.push(indices[k]);
        k += 1;
    }
    assert(copy@ =~= indices@);
    copy
}

impl Clone for Operation {
    fn clone(&self) -> (copy: Self)
        ensures
            copy@ == self@,
    {
        let mut operands: Vec<ValueRef> = Vec::new();
        let mut k: usize = 0;
        while k < self.operands.len()
            invariant
                k <= self.operands.len(),
                operands@.len() == k,
                forall|j: int| 0 <= j < k ==> operands@[j] == self.operands@[j],
            decreases self.operands.len() - k,
        {
            operands.push(self.operands[k]);
            k += 1;
        }
        let mut regions: Vec<Vec<usize>> = Vec::new();
        let mut r: usize = 0;
        while r < self.regions.len()
            invariant
                r <= self.regions.len(),
                regions@.len() == r,
                forall|j: int| 0 <= j < r ==> (#[trigger] regions@[j])@ == self.regions@[j]@,
            decreases self.regions.len() - r,
        {
            regions.push(clone_indices(&self.regions[r]));
            r += 1;
        }
        let copy = Operation {
            name: self.name.clone(),
            operands,
            results: clone_types(&self.results),
            attributes: clone_named_attributes(&self.attributes),
            regions,
            parent: self.parent,
            erased: self.erased,
        };
        proof {
            assert(copy@.operands =~= self@.operands);
            assert(copy@.regions =~= self@.regions);
        }
        copy
    }
}

impl Clone for Block {
    fn clone(&self) -> (copy: Self)
        ensures
            copy@ == self@,
    {
        Block {
            arguments: clone_types(&self.arguments),
            operations: clone_indices(&self.operations),
            parent: self.parent,
        }
    }
}

impl Clone for Module {
    fn clone(&self) -> (copy: Self)
        ensures
            copy@ == self@,
    {
        let mut operations: Vec<Operation> = Vec::new();
        let mut k: usize = 0;
        while k < self.operations.len()
            invariant
                k <= self.operations.len(),
                operations@.len() == k,
                forall|j: int| 0 <= j < k ==> (#[trigger] operations@[j])@ == self.operations@[j]@,
            decreases self.operations.len() - k,
        {
            operations.push(self.operations[k].clone());
            k += 1;
        }
        let mut blocks: Vec<Block> = Vec::new();
        let mut b: usize = 0;
        while b < self.blocks.len()
            invariant
                b <= self.blocks.len(),
                blocks@.len() == b,
                forall|j: int| 0 <= j < b ==> (#[trigger] blocks@[j])@ == self.blocks@[j]@,
            decreases self.blocks.len() - b,
        {
            blocks.push(self.blocks[b].clone());
            b += 1;
        }
        let copy = Module { operations, blocks };
        proof {
            assert(copy@.operations =~= self@.operations);
            assert(copy@.blocks =~= self@.blocks);
        }
        copy
    }
}

impl Module {
    /// The numbers of the operations that are not erased, in the order of
    /// their creation.
    pub fn live_operations(&self) -> (live: Vec<usize>)
        ensures
            forall|k: int| 0 <= k < live@.len() ==> self@.is_live(#[trigger] live@[k] as int),
            forall|id: int| self@.is_live(id) ==> live@.contains(id as usize),
            forall|j: int, k: int| 0 <= j < k < live@.len() ==> live@[j] < live@[k],
    {
        let mut live: Vec<usize> = Vec::new();
        let mut id: usize = 0;
        while id < self.operations.len()
            invariant
                id <= self.operations.len(),
                forall|k: int|
                    0 <= k < live@.len() ==> self@.is_live(#[trigger] live@[k] as int) && live@[k]
                        < id,
                forall|other: int|
                    0 <= other < id && self@.is_live(other) ==> live@.contains(other as usize),
                forall|j: int, k: int| 0 <= j < k < live@.len() ==> live@[j] < live@[k],
            decreases self.operations.len() - id,
        {
            if !self.operations[id].erased {
                let ghost before = live@;
                live.push(id);
                proof {
                    assert(live@[before.len() as int] == id);
                    assert forall|other: int|
                        0 <= other < id + 1 && self@.is_live(other) implies live@.contains(
                        other as usize,
                    ) by {
                        if other < id {
                            let at = choose|at: int|
                                0 <= at < before.len() && before[at] == other as usize;
                            assert(live@[at] == other as usize);
                        }
                    }
                }
            }
            id += 1;
        }
        live
    }

    /// A module with an empty body and nothing else.
    pub fn new() -> (module: Module)
        ensures
            module@ == ModuleView::empty(),
            module@.wf(),
    {
        let module = Module::with_arguments(Vec::new());
        proof {
            assert(types_view(Seq::<Type>::empty()) =~= Seq::empty());
        }
        module
    }

    /// A module with nothing but an empty body, whose arguments have the
    /// types `argument_types`.
    pub fn with_arguments(argument_types: Vec<Type>) -> (module: Module)
        ensures
            module@ == ModuleView::empty_with(types_view(argument_types@)),
            module@.wf(),
    {
        let mut blocks: Vec<Block> = Vec::new();
        blocks.push(Block { arguments: argument_types, operations: Vec::new(), parent: None });
        let module = Module { operations: Vec::new(), blocks };
        proof {
            assert(module@.operations =~= Seq::empty());
            assert(module@.blocks =~= ModuleView::empty_with(types_view(argument_types@)).blocks);
            assert(module@.block_in_range(0));
        }
        module
    }

    /// A module never holds more operations or blocks than a machine word
    /// can count.
    pub proof fn lemma_counts_are_bounded(&self)
        ensures
            self@.operations.len() <= usize::MAX,
            self@.blocks.len() <= usize::MAX,
    {
        assert(self@.operations.len() == self.operations.len());
        assert(self@.blocks.len() == self.blocks.len());
    }

    /// The number of operations ever created in the module, erased ones included.
    pub fn operation_count(&self) -> (count: usize)
        ensures
            count == self@.operations.len(),
    {
        self.operations.len()
    }

    /// The number of blocks in the module.
    pub fn block_count(&self) -> (count: usize)
        ensures
            count == self@.blocks.len(),
    {
        self.blocks.len()
    }

    /// The operation numbered `id`.
    pub fn operation(&self, id: usize) -> (op: &Operation)
        requires
            id < self@.operations.len(),
        ensures
            op@ == self@.operations[id as int],
    {
        &self.operations[id]
    }

    /// The block numbered `id`.
    pub fn block(&self, id: usize) -> (block: &Block)
        requires
            id < self@.blocks.len(),
        ensures
            block@ == self@.blocks[id as int],
    {
        &self.blocks[id]
    }

    /// The operation numbered `id`, if there is one.
    pub fn get_operation(&self, id: usize) -> (op: Option<&Operation>)
        ensures
            match op {
                Some(op) => id < self@.operations.len() && op@ == self@.operations[id as int],
                None => id >= self@.operations.len(),
            },
    {
        if id < self.operations.len() {
            Some(&self.operations[id])
        } else {
            None
        }
    }

    /// The block numbered `id`, if there is one.
    pub fn get_block(&self, id: usize) -> (block: Option<&Block>)
        ensures
            match block {
                Some(block) => id < self@.blocks.len() && block@ == self@.blocks[id as int],
                None => id >= self@.blocks.len(),
            },
    {
        if id < self.blocks.len() {
            Some(&self.blocks[id])
        } else {
            None
        }
    }

    /// The type of `value`, if the module defines it.
    pub fn value_type(&self, value: ValueRef) -> (ty: Option<&Type>)
        ensures
            match ty {
                Some(ty) => self@.defines(value) && ty@ == self@.type_of(value),
                None => !self@.defines(value),
            },
    {
        match value {
            ValueRef::BlockArgument { block, index } => {
                if block < self.blocks.len() && index < self.blocks[block].arguments.len() {
                    Some(&self.blocks[block].arguments[index])
                } else {
                    None
                }
            },
            ValueRef::OperationResult { operation, index } => {
                if operation < self.operations.len() && index
                    < self.operations[operation].results.len() {
                    Some(&self.operations[operation].results[index])
                } else {
                    None
                }
            },
        }
    }

    /// The operations of the module, in the order of their numbers.
    pub fn operations(&self) -> (operations: &Vec<Operation>)
        ensures
            operations_view(operations@) == self@.operations,
    {
        &self.operations
    }

    /// The blocks of the module, in the order of their numbers.
    pub fn blocks(&self) -> (blocks: &Vec<Block>)
        ensures
            blocks_view(blocks@) == self@.blocks,
    {
        &self.blocks
    }

    /// The module that holds the operations `operations` and the blocks
    /// `blocks`, whatever they are.
    pub(crate) fn from_parts(operations: Vec<Operation>, blocks: Vec<Block>) -> (module: Module)
        ensures
            module@.operations == operations_view(operations@),
            module@.blocks == blocks_view(blocks@),
    {
        Module { operations, blocks }
    }

    /// Whether every index that the operation `id` holds is in range.
    fn operation_is_in_range(&self, id: usize) -> (ok: bool)
        requires
            id < self@.operations.len(),
        ensures
            ok == self@.operation_in_range(id as int),
    {
        let op = &self.operations[id];
        assert(op@ == self@.operations[id as int]);
        if op.parent >= self.blocks.len() {
            return false;
        }
        let mut k: usize = 0;
        while k < op.operands.len()
            invariant
                k <= op.operands.len(),
                id < self@.operations.len(),
                op@ == self@.operations[id as int],
                forall|j: int| 0 <= j < k ==> self@.defines(#[trigger] op@.operands[j]),
            decreases op.operands.len() - k,
        {
            if self.value_type(op.operands[k]).is_none() {
                return false;
            }
            k += 1;
        }
        let mut r: usize = 0;
        while r < op.regions.len()
            invariant
                r <= op.regions.len(),
                id < self@.operations.len(),
                op@ == self@.operations[id as int],
                forall|i: int, j: int|
                    0 <= i < r && 0 <= j < op@.regions[i].len() ==> (#[trigger] op@.regions[i][j])
                        < self@.blocks.len(),
            decreases op.regions.len() - r,
        {
            let region = &op.regions[r];
            assert(op@.regions[r as int] == region@);
            let mut j: usize = 0;
            while j < region.len()
                invariant
                    j <= region.len(),
                    r < op.regions.len(),
                    id < self@.operations.len(),
                    op@ == self@.operations[id as int],
                    op@.regions[r as int] == region@,
                    forall|i: int| 0 <= i < j ==> (#[trigger] region@[i]) < self@.blocks.len(),
                decreases region.len() - j,
            {
                if region[j] >= self.blocks.len() {
                    assert(op@.regions[r as int][j as int] >= self@.blocks.len());
                    return false;
                }
                j += 1;
            }
            r += 1;
        }
        true
    }

    /// Whether every index that the block `id` holds is in range.
    fn block_is_in_range(&self, id: usize) -> (ok: bool)
        requires
            id < self@.blocks.len(),
        ensures
            ok == self@.block_in_range(id as int),
    {
        let block = &self.blocks[id];
        assert(block@ == self@.blocks[id as int]);
        match block.parent {
            Some((operation, _)) => {
                if operation >= self.operations.len() {
                    return false;
                }
            },
            None => {},
        }
        let mut k: usize = 0;
        while k < block.operations.len()
            invariant
                k <= block.operations.len(),
                id < self@.blocks.len(),
                block@ == self@.blocks[id as int],
                forall|j: int|
                    0 <= j < k ==> (#[trigger] block.operations@[j]) < self@.operations.len(),
            decreases block.operations.len() - k,
        {
            if block.operations[k] >= self.operations.len() {
                assert(self@.blocks[id as int].operations[k as int] >= self@.operations.len());
                return false;
            }
            k += 1;
        }
        true
    }

    /// Whether the module is well-formed. Every module that this library
    /// hands out is.
    pub fn is_well_formed(&self) -> (ok: bool)
        ensures
            ok == self@.wf(),
    {
        if self.blocks.len() < 1 {
            return false;
        }
        let mut id: usize = 0;
        while id < self.operations.len()
            invariant
                id <= self.operations.len(),
                forall|j: int| 0 <= j < id ==> #[trigger] self@.operation_in_range(j),
            decreases self.operations.len() - id,
        {
            if !self.operation_is_in_range(id) {
                return false;
            }
            id += 1;
        }
        let mut id: usize = 0;
        while id < self.blocks.len()
            invariant
                id <= self.blocks.len(),
                forall|j: int| 0 <= j < self@.operations.len() ==> #[trigger]
                    self@.operation_in_range(j),
                forall|j: int| 0 <= j < id ==> #[trigger] self@.block_in_range(j),
            decreases self.blocks.len() - id,
        {
            if !self.block_is_in_range(id) {
                return false;
            }
            id += 1;
        }
        true
    }

    /// Adds `op` at the end of the arena of operations and returns its number.
    /// The operation is not entered into any block.
    pub(crate) fn push_operation(&mut self, op: Operation) -> (id: usize)
        ensures
            id == old(self)@.operations.len(),
            final(self)@ == old(self)@.with_operation(op@),
    {
        let id = self.operations.len();
        self.operations.push(op);
        proof {
            assert(self@.operations =~= old(self)@.operations.push(op@));
        }
        id
    }

    /// Adds `block` at the end of the arena of blocks and returns its number.
    /// The block is not entered into any region.
    pub(crate) fn push_block(&mut self, block: Block) -> (id: usize)
        ensures
            id == old(self)@.blocks.len(),
            final(self)@ == old(self)@.with_block(block@),
    {
        let id = self.blocks.len();
        self.blocks.push(block);
        proof {
            assert(self@.blocks =~= old(self)@.blocks.push(block@));
        }
        id
    }

    /// Enters the operation `op` into the block `block` at `position`.
    pub(crate) fn insert_into_block(&mut self, block: usize, position: usize, op: usize)
        requires
            block < old(self)@.blocks.len(),
            position <= old(self)@.blocks[block as int].operations.len(),
        ensures
            final(self)@ == old(self)@.with_block_operations(
                block as int,
                old(self)@.blocks[block as int].operations.insert(position as int, op),
            ),
    {
        self.blocks[block].operations.insert(position, op);
        proof {
            assert(self@.blocks =~= old(self)@.with_block_operations(
                block as int,
                old(self)@.blocks[block as int].operations.insert(position as int, op),
            ).blocks);
        }
    }

    /// Takes the entry at `position` out of the block `block`.
    pub(crate) fn remove_from_block(&mut self, block: usize, position: usize)
        requires
            block < old(self)@.blocks.len(),
            position < old(self)@.blocks[block as int].operations.len(),
        ensures
            final(self)@ == old(self)@.with_block_operations(
                block as int,
                old(self)@.blocks[block as int].operations.remove(position as int),
            ),
    {
        self.blocks[block].operations.remove(position);
        proof {
            assert(self@.blocks =~= old(self)@.with_block_operations(
                block as int,
                old(self)@.blocks[block as int].operations.remove(position as int),
            ).blocks);
        }
    }

    /// Makes the operation `id` read `operands`.
    pub(crate) fn set_operands(&mut self, id: usize, operands: Vec<ValueRef>)
        requires
            id < old(self)@.operations.len(),
        ensures
            final(self)@ == old(self)@.with_operands(id as int, operands@),
    {
        self.operations[id].operands = operands;
        proof {
            assert(self@.operations =~= old(self)@.with_operands(id as int, operands@).operations);
        }
    }

    /// Marks the operation `id` as erased.
    pub(crate) fn set_erased(&mut self, id: usize)
        requires
            id < old(self)@.operations.len(),
        ensures
            final(self)@ == old(self)@.with_erased(id as int),
    {
        self.operations[id].erased = true;
        proof {
            assert(self@.operations =~= old(self)@.with_erased(id as int).operations);
        }
    }

    /// Adds the block `block` at the end of the region `region` of the operation `id`.
    pub(crate) fn push_region_block(&mut self, id: usize, region: usize, block: usize)
        requires
            id < old(self)@.operations.len(),
            region < old(self)@.operations[id as int].regions.len(),
        ensures
            final(self)@ == old(self)@.with_region_block(id as int, region as int, block),
    {
        self.operations[id].regions[region].push(block);
        proof {
            let after = old(self)@.with_region_block(id as int, region as int, block);
            assert(self@.operations[id as int].regions =~= after.operations[id as int].regions);
            assert(self@.operations =~= after.operations);
        }
    }
}

} // verus!
