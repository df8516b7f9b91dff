//! The textual form of operations, blocks and modules.
//!
//! A module is written as the word `module`, the list of its operations
//! and the list of its blocks, each in the order of their numbers and each
//! on a line of its own. Erased operations are written too, so that every
//! number in the text means what it means in the module.

use vstd::prelude::*;
use crate::attribute::{AttributeView, NamedAttribute};
use crate::error::Error;
use crate::format::{after_tag, has_tag, lemma_tag_split, models, Textual};
use crate::ir::{
    blocks_view, operations_view, Block, BlockView, Module, ModuleView, Operation, OperationView,
    ValueRef,
};
use crate::text::{
    lemma_occurs_split, lemma_parse_number, lemma_parse_text, number, occurs, parse_text,
    parse_word, read_text, read_word, text, write_number, write_text,
};
use crate::types::{Type, TypeView};

verus! {

impl Textual for Option<(usize, usize)> {
    type Model = Option<(usize, usize)>;

    open spec fn model(&self) -> Option<(usize, usize)> {
        *self
    }

    open spec fn fits(value: Option<(usize, usize)>) -> bool {
        true
    }

    open spec fn written(value: Option<(usize, usize)>) -> Seq<char> {
        match value {
            Some((operation, region)) => seq!['^'] + (number(operation as nat) + number(
                region as nat,
            )),
            None => seq!['-', ' '],
        }
    }

    open spec fn read_at(s: Seq<char>, at: int) -> Option<(Option<(usize, usize)>, int)> {
        if after_tag(s, at, '-') is Some {
            if after_tag(s, at + 1, ' ') is Some {
                Some((None, at + 2))
            } else {
                None
            }
        } else if after_tag(s, at, '^') is Some {
            match usize::read_at(s, at + 1) {
                Some((operation, middle)) => match usize::read_at(s, middle) {
                    Some((region, next)) => Some((Some((operation, region)), next)),
                    None => None,
                },
                None => None,
            }
        } else {
            None
        }
    }

    proof fn lemma_read_written(s: Seq<char>, at: int, value: Option<(usize, usize)>) {
        match value {
            Some((operation, region)) => {
                lemma_tag_split(s, at, '^', number(operation as nat) + number(region as nat));
                lemma_occurs_split(s, at + 1, number(operation as nat), number(region as nat));
                lemma_parse_number(s, at + 1, operation as nat);
                lemma_parse_number(s, at + 1 + number(operation as nat).len(), region as nat);
            },
            None => {
                reveal(occurs);
                let shown = Self::written(value);
                assert(s[at + 0] == shown[0]);
                assert(s[at + 1] == shown[1]);
            },
        }
    }

    fn write(&self, out: &mut String) {
        proof {
            reveal_strlit("^");
            reveal_strlit("- ");
            assert("^"@ =~= seq!['^']);
            assert("- "@ =~= seq!['-', ' ']);
        }
        match self {
            Some((operation, region)) => {
                out.append("^");
                write_number(out, *operation as u64);
                write_number(out, *region as u64);
                proof {
                    assert(final(out)@ =~= old(out)@ + Self::written(*self));
                }
            },
            None => {
                out.append("- ");
            },
        }
    }

    fn read(source: &str, length: usize, at: usize) -> (found: Option<
        (Option<(usize, usize)>, usize),
    >) {
        if has_tag(source, length, at, '-') {
            if has_tag(source, length, at + 1, ' ') {
                Some((None, at + 2))
            } else {
                None
            }
        } else if has_tag(source, length, at, '^') {
            let (operation, middle) = match usize::read(source, length, at + 1) {
                Some(found) => found,
                None => {
                    return None;
                },
            };
            match usize::read(source, length, middle) {
                Some((region, next)) => Some((Some((operation, region)), next)),
                None => None,
            }
        } else {
            None
        }
    }
}

/// The word that starts an operation.
pub open spec fn operation_word() -> Seq<char> {
    seq!['o', 'p', ' ']
}

/// The word that starts a block.
pub open spec fn block_word() -> Seq<char> {
    seq!['b', 'l', 'o', 'c', 'k', ' ']
}

/// The word that starts a module.
pub open spec fn module_word() -> Seq<char> {
    seq!['m', 'o', 'd', 'u', 'l', 'e', '\n']
}

/// The end of a line.
pub open spec fn line_end() -> Seq<char> {
    seq!['\n']
}

/// Joining three parts gives the same whichever two are joined first.
pub proof fn lemma_join(first: Seq<char>, second: Seq<char>, third: Seq<char>)
    ensures
        (first + second) + third == first + (second + third),
{
    assert((first + second) + third =~= first + (second + third));
}

/// The lists of an operation as they are written: operands, result types,
/// attributes and regions.
pub open spec fn written_lists(op: OperationView) -> Seq<char> {
    Vec::<ValueRef>::written(op.operands) + (Vec::<Type>::written(op.results) + (Vec::<
        NamedAttribute,
    >::written(op.attributes) + (Vec::<Vec<usize>>::written(op.regions) + line_end())))
}

/// The lists of an operation that are written in `s` at `at`, with the end
/// of the line after them.
pub open spec fn read_lists(s: Seq<char>, at: int) -> Option<
    (
        (
            Seq<ValueRef>,
            Seq<TypeView>,
            Seq<(Seq<char>, AttributeView)>,
            Seq<Seq<usize>>,
        ),
        int,
    ),
> {
    match Vec::<ValueRef>::read_at(s, at) {
        Some((operands, second)) => match Vec::<Type>::read_at(s, second) {
            Some((results, third)) => match Vec::<NamedAttribute>::read_at(s, third) {
                Some((attributes, fourth)) => match Vec::<Vec<usize>>::read_at(s, fourth) {
                    Some((regions, fifth)) => match parse_word(s, fifth, line_end()) {
                        Some(next) => Some(((operands, results, attributes, regions), next)),
                        None => None,
                    },
                    None => None,
                },
                None => None,
            },
            None => None,
        },
        None => None,
    }
}

/// Where the lists of an operation are written and fit, they are read back.
pub proof fn lemma_read_lists(s: Seq<char>, at: int, op: OperationView)
    requires
        Vec::<ValueRef>::fits(op.operands),
        Vec::<Type>::fits(op.results),
        Vec::<NamedAttribute>::fits(op.attributes),
        Vec::<Vec<usize>>::fits(op.regions),
        occurs(s, at, written_lists(op)),
    ensures
        read_lists(s, at) == Some(
            ((op.operands, op.results, op.attributes, op.regions), at + written_lists(op).len()),
        ),
{
    let first = Vec::<ValueRef>::written(op.operands);
    let second = Vec::<Type>::written(op.results);
    let third = Vec::<NamedAttribute>::written(op.attributes);
    let fourth = Vec::<Vec<usize>>::written(op.regions);
    lemma_occurs_split(s, at, first, second + (third + (fourth + line_end())));
    Vec::<ValueRef>::lemma_read_written(s, at, op.operands);
    let at2 = at + first.len();
    lemma_occurs_split(s, at2, second, third + (fourth + line_end()));
    Vec::<Type>::lemma_read_written(s, at2, op.results);
    let at3 = at2 + second.len();
    lemma_occurs_split(s, at3, third, fourth + line_end());
    Vec::<NamedAttribute>::lemma_read_written(s, at3, op.attributes);
    let at4 = at3 + third.len();
    lemma_occurs_split(s, at4, fourth, line_end());
    Vec::<Vec<usize>>::lemma_read_written(s, at4, op.regions);
}

/// The lists of an operation, seen as lists of values with a textual form,
/// are the lists of its view.
pub proof fn lemma_operation_models(op: &Operation)
    ensures
        models::<ValueRef>(op.operands@) == op@.operands,
        models::<Type>(op.results@) == op@.results,
        models::<NamedAttribute>(op.attributes@) == op@.attributes,
        models::<Vec<usize>>(op.regions@) == op@.regions,
{
    let value = op@;
    assert(models::<ValueRef>(op.operands@) =~= value.operands);
    assert(models::<Type>(op.results@) =~= value.results);
    assert(models::<NamedAttribute>(op.attributes@) =~= value.attributes);
    assert(models::<Vec<usize>>(op.regions@) =~= value.regions) by {
        assert forall|k: int| 0 <= k < op.regions@.len() implies models::<Vec<usize>>(
            op.regions@,
        )[k] == value.regions[k] by {
            assert(models::<usize>(op.regions@[k]@) =~= op.regions@[k]@);
        }
    }
}

/// The head of an operation as it is written: the word that starts it,
/// its name, its block, and whether it is erased.
pub open spec fn written_head(op: OperationView) -> Seq<char> {
    operation_word() + (text(op.name) + (number(op.parent as nat) + bool::written(op.erased)))
}

/// The head of an operation that is written in `s` at `at`.
pub open spec fn read_head(s: Seq<char>, at: int) -> Option<((Seq<char>, usize, bool), int)> {
    match parse_word(s, at, operation_word()) {
        Some(first) => match parse_text(s, first) {
            Some((name, second)) => match usize::read_at(s, second) {
                Some((parent, third)) => match bool::read_at(s, third) {
                    Some((erased, next)) => Some(((name, parent, erased), next)),
                    None => None,
                },
                None => None,
            },
            None => None,
        },
        None => None,
    }
}

/// Where the head of an operation is written, it is read back.
pub proof fn lemma_read_head(s: Seq<char>, at: int, op: OperationView)
    requires
        op.name.len() <= u64::MAX,
        occurs(s, at, written_head(op)),
    ensures
        read_head(s, at) == Some(((op.name, op.parent, op.erased), at + written_head(op).len())),
{
    let name = text(op.name);
    let parent = number(op.parent as nat);
    let erased = bool::written(op.erased);
    lemma_occurs_split(s, at, operation_word(), name + (parent + erased));
    let at1 = at + operation_word().len();
    lemma_occurs_split(s, at1, name, parent + erased);
    lemma_parse_text(s, at1, op.name);
    let at2 = at1 + name.len();
    lemma_occurs_split(s, at2, parent, erased);
    usize::lemma_read_written(s, at2, op.parent);
    bool::lemma_read_written(s, at2 + parent.len(), op.erased);
}

impl Textual for Operation {
    type Model = OperationView;

    open spec fn model(&self) -> OperationView {
        self@
    }

    open spec fn fits(value: OperationView) -> bool {
        &&& value.name.len() <= u64::MAX
        &&& Vec::<ValueRef>::fits(value.operands)
        &&& Vec::<Type>::fits(value.results)
        &&& Vec::<NamedAttribute>::fits(value.attributes)
        &&& Vec::<Vec<usize>>::fits(value.regions)
    }

    open spec fn written(value: OperationView) -> Seq<char> {
        written_head(value) + written_lists(value)
    }

    open spec fn read_at(s: Seq<char>, at: int) -> Option<(OperationView, int)> {
        match read_head(s, at) {
            Some(((name, parent, erased), middle)) => match read_lists(s, middle) {
                Some(((operands, results, attributes, regions), next)) => Some(
                    (
                        OperationView {
                            name,
                            operands,
                            results,
                            attributes,
                            regions,
                            parent,
                            erased,
                        },
                        next,
                    ),
                ),
                None => None,
            },
            None => None,
        }
    }

    proof fn lemma_read_written(s: Seq<char>, at: int, value: OperationView) {
        lemma_occurs_split(s, at, written_head(value), written_lists(value));
        lemma_read_head(s, at, value);
        lemma_read_lists(s, at + written_head(value).len(), value);
    }

    fn write(&self, out: &mut String) {
        proof {
            reveal_strlit("op ");
            reveal_strlit("\n");
            assert("op "@ =~= operation_word());
            assert("\n"@ =~= line_end());
        }
        let ghost value = self@;
        let ghost s0 = out@;
        out.append("op ");
        write_text(out, self.name.as_str());
        write_number(out, self.parent as u64);
        self.erased.write(out);
        let ghost s4 = out@;
        self.operands.write(out);
        let ghost s5 = out@;
        self.results.write(out);
        let ghost s6 = out@;
        self.attributes.write(out);
        let ghost s7 = out@;
        self.regions.write(out);
        out.append("\n");
        proof {
            lemma_operation_models(self);
            let in_word = operation_word();
            let in_name = text(value.name);
            let in_home = number(value.parent as nat);
            let in_flag = bool::written(value.erased);
            let in_operands = Vec::<ValueRef>::written(value.operands);
            let in_results = Vec::<Type>::written(value.results);
            let in_attributes = Vec::<NamedAttribute>::written(value.attributes);
            let in_regions = Vec::<Vec<usize>>::written(value.regions);
            let in_end = line_end();
            assert(s4 == (((s0 + in_word) + in_name) + in_home) + in_flag);
            assert(final(out)@ == ((((s4 + in_operands) + in_results) + in_attributes) + in_regions) + in_end);
            let t8 = in_regions + in_end;
            let t7 = in_attributes + t8;
            let t6 = in_results + t7;
            let t5 = in_operands + t6;
            lemma_join(s7, in_regions, in_end);
            lemma_join(s6, in_attributes, t8);
            lemma_join(s5, in_results, t7);
            lemma_join(s4, in_operands, t6);
            assert(final(out)@ == s4 + t5);
            assert(t5 == written_lists(value));
            let h3 = in_home + in_flag;
            let h2 = in_name + h3;
            let h1 = in_word + h2;
            lemma_join((s0 + in_word) + in_name, in_home, in_flag);
            lemma_join(s0 + in_word, in_name, h3);
            lemma_join(s0, in_word, h2);
            assert(s4 == s0 + h1);
            assert(h1 == written_head(value));
            lemma_join(s0, h1, t5);
        }
    }

    fn read(source: &str, length: usize, at: usize) -> (found: Option<(Operation, usize)>) {
        proof {
            reveal_strlit("op ");
            reveal_strlit("\n");
            assert("op "@ =~= operation_word());
            assert("\n"@ =~= line_end());
        }
        let first = match read_word(source, length, at, "op ") {
            Some(found) => found,
            None => {
                return None;
            },
        };
        let (name, second) = match read_text(source, length, first) {
            Some(found) => found,
            None => {
                return None;
            },
        };
        let (parent, third) = match usize::read(source, length, second) {
            Some(found) => found,
            None => {
                return None;
            },
        };
        let (erased, fourth) = match bool::read(source, length, third) {
            Some(found) => found,
            None => {
                return None;
            },
        };
        let (operands, fifth) = match Vec::<ValueRef>::read(source, length, fourth) {
            Some(found) => found,
            None => {
                return None;
            },
        };
        let (results, sixth) = match Vec::<Type>::read(source, length, fifth) {
            Some(found) => found,
            None => {
                return None;
            },
        };
        let (attributes, seventh) = match Vec::<NamedAttribute>::read(source, length, sixth) {
            Some(found) => found,
            None => {
                return None;
            },
        };
        let (regions, eighth) = match Vec::<Vec<usize>>::read(source, length, seventh) {
            Some(found) => found,
            None => {
                return None;
            },
        };
        let next = match read_word(source, length, eighth, "\n") {
            Some(found) => found,
            None => {
                return None;
            },
        };
        let op = Operation { name, operands, results, attributes, regions, parent, erased };
        proof {
            lemma_operation_models(&op);
        }
        Some((op, next))
    }
}

impl Textual for Block {
    type Model = BlockView;

    open spec fn model(&self) -> BlockView {
        self@
    }

    open spec fn fits(value: BlockView) -> bool {
        Vec::<Type>::fits(value.arguments) && Vec::<usize>::fits(value.operations)
    }

    open spec fn written(value: BlockView) -> Seq<char> {
        block_word() + (Vec::<Type>::written(value.arguments) + (Option::<
            (usize, usize),
        >::written(value.parent) + (Vec::<usize>::written(value.operations) + line_end())))
    }

    open spec fn read_at(s: Seq<char>, at: int) -> Option<(BlockView, int)> {
        match parse_word(s, at, block_word()) {
            Some(first) => match Vec::<Type>::read_at(s, first) {
                Some((arguments, second)) => match Option::<(usize, usize)>::read_at(s, second) {
                    Some((parent, third)) => match Vec::<usize>::read_at(s, third) {
                        Some((operations, fourth)) => match parse_word(s, fourth, line_end()) {
                            Some(next) => Some((BlockView { arguments, operations, parent }, next)),
                            None => None,
                        },
                        None => None,
                    },
                    None => None,
                },
                None => None,
            },
            None => None,
        }
    }

    proof fn lemma_read_written(s: Seq<char>, at: int, value: BlockView) {
        let arguments = Vec::<Type>::written(value.arguments);
        let parent = Option::<(usize, usize)>::written(value.parent);
        let operations = Vec::<usize>::written(value.operations);
        lemma_occurs_split(
            s,
            at,
            block_word(),
            arguments + (parent + (operations + line_end())),
        );
        let at1 = at + block_word().len();
        lemma_occurs_split(s, at1, arguments, parent + (operations + line_end()));
        Vec::<Type>::lemma_read_written(s, at1, value.arguments);
        let at2 = at1 + arguments.len();
        lemma_occurs_split(s, at2, parent, operations + line_end());
        Option::<(usize, usize)>::lemma_read_written(s, at2, value.parent);
        let at3 = at2 + parent.len();
        lemma_occurs_split(s, at3, operations, line_end());
        Vec::<usize>::lemma_read_written(s, at3, value.operations);
    }

    fn write(&self, out: &mut String) {
        proof {
            reveal_strlit("block ");
            reveal_strlit("\n");
            assert("block "@ =~= block_word());
            assert("\n"@ =~= line_end());
        }
        out.append("block ");
        self.arguments.write(out);
        self.parent.write(out);
        self.operations.write(out);
        out.append("\n");
        proof {
            let value = self@;
            assert(models::<Type>(self.arguments@) =~= value.arguments);
            assert(models::<usize>(self.operations@) =~= value.operations);
            assert(final(out)@ =~= old(out)@ + Self::written(value));
        }
    }

    fn read(source: &str, length: usize, at: usize) -> (found: Option<(Block, usize)>) {
        proof {
            reveal_strlit("block ");
            reveal_strlit("\n");
            assert("block "@ =~= block_word());
            assert("\n"@ =~= line_end());
        }
        let first = match read_word(source, length, at, "block ") {
            Some(found) => found,
            None => {
                return None;
            },
        };
        let (arguments, second) = match Vec::<Type>::read(source, length, first) {
            Some(found) => found,
            None => {
                return None;
            },
        };
        let (parent, third) = match Option::<(usize, usize)>::read(source, length, second) {
            Some(found) => found,
            None => {
                return None;
            },
        };
        let (operations, fourth) = match Vec::<usize>::read(source, length, third) {
            Some(found) => found,
            None => {
                return None;
            },
        };
        let next = match read_word(source, length, fourth, "\n") {
            Some(found) => found,
            None => {
                return None;
            },
        };
        let block = Block { arguments, operations, parent };
        proof {
            assert(models::<Type>(block.arguments@) =~= block@.arguments);
            assert(models::<usize>(block.operations@) =~= block@.operations);
        }
        Some((block, next))
    }
}

/// Whether the module `module` can be written: whether every length and
/// number in it is one that can be read again. Every module that a program
/// holds can.
pub open spec fn module_fits(module: ModuleView) -> bool {
    Vec::<Operation>::fits(module.operations) && Vec::<Block>::fits(module.blocks)
}

/// The textual form of the module `module`.
pub open spec fn printed(module: ModuleView) -> Seq<char> {
    module_word() + (Vec::<Operation>::written(module.operations) + Vec::<Block>::written(
        module.blocks,
    ))
}

/// The module of which `s` is the textual form, if it is that of a
/// well-formed module.
pub open spec fn parsed(s: Seq<char>) -> Option<ModuleView> {
    match parse_word(s, 0, module_word()) {
        Some(first) => match Vec::<Operation>::read_at(s, first) {
            Some((operations, second)) => match Vec::<Block>::read_at(s, second) {
                Some((blocks, end)) => {
                    let module = ModuleView { operations, blocks };
                    if end == s.len() && module.wf() {
                        Some(module)
                    } else {
                        None
                    }
                },
                None => None,
            },
            None => None,
        },
        None => None,
    }
}

/// Reading the textual form of a well-formed module gives that module:
/// nothing is lost or changed on the way through text, not even a number.
pub proof fn lemma_parse_printed(module: ModuleView)
    requires
        module.wf(),
        module_fits(module),
    ensures
        parsed(printed(module)) == Some(module),
{
    let s = printed(module);
    let operations = Vec::<Operation>::written(module.operations);
    let blocks = Vec::<Block>::written(module.blocks);
    assert(occurs(s, 0, s)) by {
        reveal(occurs);
    }
    lemma_occurs_split(s, 0, module_word(), operations + blocks);
    let at1 = module_word().len() as int;
    lemma_occurs_split(s, at1, operations, blocks);
    Vec::<Operation>::lemma_read_written(s, at1, module.operations);
    Vec::<Block>::lemma_read_written(s, at1 + operations.len(), module.blocks);
}

/// The textual form of `module`.
pub fn serialize(module: &Module) -> (output: String)
    ensures
        output@ == printed(module@),
        module_fits(module@),
{
    proof {
        reveal_strlit("module\n");
        assert("module\n"@ =~= module_word());
    }
    let mut out = String::from_str("module\n");
    let operations = module.operations();
    let blocks = module.blocks();
    operations.write(&mut out);
    blocks.write(&mut out);
    proof {
        assert(models::<Operation>(operations@) =~= module@.operations);
        assert(models::<Block>(blocks@) =~= module@.blocks);
        assert(out@ =~= printed(module@));
    }
    out
}

impl Module {
    /// The textual form of the module.
    pub fn to_text(&self) -> (output: String)
        ensures
            output@ == printed(self@),
            module_fits(self@),
    {
        serialize(self)
    }
}

/// Reads the module of which `source` is the textual form.
///
/// `MalformedOperation` is reported where `source` is not the textual form
/// of a well-formed module.
pub fn parse(source: &str) -> (outcome: Result<Module, Error>)
    ensures
        match outcome {
            Ok(module) => parsed(source@) == Some(module@) && module@.wf(),
            Err(error) => error == Error::MalformedOperation && parsed(source@) is None,
        },
{
    proof {
        reveal_strlit("module\n");
        assert("module\n"@ =~= module_word());
    }
    let length = source.unicode_len();
    let first = match read_word(source, length, 0, "module\n") {
        Some(found) => found,
        None => {
            return Err(Error::MalformedOperation);
        },
    };
    let (operations, second) = match Vec::<Operation>::read(source, length, first) {
        Some(found) => found,
        None => {
            return Err(Error::MalformedOperation);
        },
    };
    let (blocks, end) = match Vec::<Block>::read(source, length, second) {
        Some(found) => found,
        None => {
            return Err(Error::MalformedOperation);
        },
    };
    proof {
        assert(models::<Operation>(operations@) =~= operations_view(operations@));
        assert(models::<Block>(blocks@) =~= blocks_view(blocks@));
    }
    let module = Module::from_parts(operations, blocks);
    if end != length || !module.is_well_formed() {
        return Err(Error::MalformedOperation);
    }
    Ok(module)
}

} // verus!
