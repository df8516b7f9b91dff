//! The core module: a function that adds two 32-bit integers with the
//! operation `felt.add`.

use vstd::prelude::*;
use crate::attribute::{Attribute, AttributeView, NamedAttribute};
use crate::builder::Builder;
use crate::error::Error;
use crate::scope::structured;
use crate::module_notation::{parse, parsed};
use crate::ir::{BlockView, Module, ModuleView, OperationView, ValueRef};
use crate::types::{lemma_function_view, types_view, Type, TypeView};

verus! {

/// The type of 32-bit integers.
pub open spec fn i32_type() -> TypeView {
    TypeView::Integer(32)
}

/// The type of the entry point: two 32-bit integers to one.
pub open spec fn entrypoint_type() -> TypeView {
    TypeView::Function(seq![i32_type(), i32_type()], seq![i32_type()])
}

/// The core module.
///
/// Its body holds the function `entrypoint`, operation 0, marked for a C
/// interface. The only block of the function, block 1, takes two 32-bit
/// integers, adds them with `felt.add`, operation 1, and returns the sum
/// with `func.return`, operation 2.
pub open spec fn core_module() -> ModuleView {
    ModuleView {
        operations: seq![
            OperationView {
                name: "func.func"@,
                operands: Seq::empty(),
                results: Seq::empty(),
                attributes: seq![
                    ("sym_name"@, AttributeView::Text("entrypoint"@)),
                    ("function_type"@, AttributeView::Type(entrypoint_type())),
                    ("llvm.emit_c_interface"@, AttributeView::Unit),
                ],
                regions: seq![seq![1usize]],
                parent: 0,
                erased: false,
            },
            OperationView {
                name: "felt.add"@,
                operands: seq![
                    ValueRef::BlockArgument { block: 1, index: 0 },
                    ValueRef::BlockArgument { block: 1, index: 1 },
                ],
                results: seq![i32_type()],
                attributes: Seq::empty(),
                regions: Seq::empty(),
                parent: 1,
                erased: false,
            },
            OperationView {
                name: "func.return"@,
                operands: seq![ValueRef::OperationResult { operation: 1, index: 0 }],
                results: Seq::empty(),
                attributes: Seq::empty(),
                regions: Seq::empty(),
                parent: 1,
                erased: false,
            },
        ],
        blocks: seq![
            BlockView { arguments: Seq::empty(), operations: seq![0usize], parent: None },
            BlockView {
                arguments: seq![i32_type(), i32_type()],
                operations: seq![1usize, 2usize],
                parent: Some((0usize, 0usize)),
            },
        ],
    }
}

/// The textual form of the core module.
pub open spec fn core_module_text() -> Seq<char> {
    "module\n\
        3 op 9:func.func 0 0 0 0 3 8:sym_name t10:entrypoint 13:function_type yF2 i32 i32 1 i32 21:llvm.emit_c_interface u 1 1 1 \n\
        op 8:felt.add 1 0 2 a1 0 a1 1 1 i32 0 0 \n\
        op 11:func.return 1 0 1 r1 0 0 0 0 \n\
        2 block 0 - 1 0 \n\
        block 2 i32 i32 ^0 0 2 1 2 \n"@
}

/// Reads the core module from its textual form.
///
/// `MalformedOperation` is reported should the text not be the textual form
/// of a well-formed module.
pub fn load_core_module() -> (outcome: Result<Module, Error>)
    ensures
        match outcome {
            Ok(module) => parsed(core_module_text()) == Some(module@) && module@.wf(),
            Err(error) => error == Error::MalformedOperation && parsed(core_module_text()) is None,
        },
{
    parse(
        "module\n\
        3 op 9:func.func 0 0 0 0 3 8:sym_name t10:entrypoint 13:function_type yF2 i32 i32 1 i32 21:llvm.emit_c_interface u 1 1 1 \n\
        op 8:felt.add 1 0 2 a1 0 a1 1 1 i32 0 0 \n\
        op 11:func.return 1 0 1 r1 0 0 0 0 \n\
        2 block 0 - 1 0 \n\
        block 2 i32 i32 ^0 0 2 1 2 \n",
    )
}

/// Builds the core module.
pub fn build_core_module() -> (module: Module)
    ensures
        module@ == core_module(),
        module@.wf(),
        structured(module@),
{
    let mut builder = Builder::new();
    let mut inputs: Vec<Type> = Vec::new();
    inputs.push(Type::Integer(32));
    inputs.push(Type::Integer(32));
    let mut outputs: Vec<Type> = Vec::new();
    outputs.push(Type::Integer(32));
    proof {
        lemma_function_view(inputs, outputs);
        assert(types_view(inputs@) =~= seq![i32_type(), i32_type()]);
        assert(types_view(outputs@) =~= seq![i32_type()]);
    }
    let mut attributes: Vec<NamedAttribute> = Vec::new();
    attributes.push(NamedAttribute::new("sym_name", Attribute::Text(String::from_str("entrypoint"))));
    attributes.push(
        NamedAttribute::new("function_type", Attribute::Type(Type::Function(inputs, outputs))),
    );
    attributes.push(NamedAttribute::new("llvm.emit_c_interface", Attribute::Unit));
    let function = builder.new_operation("func.func", Vec::new(), Vec::new(), attributes, 1).unwrap();
    let ghost with_function = builder@;
    let mut argument_types: Vec<Type> = Vec::new();
    argument_types.push(Type::Integer(32));
    argument_types.push(Type::Integer(32));
    proof {
        assert(with_function.module.blocks[0].operations =~= seq![0usize]);
        assert(with_function.can_append_block(function, 0));
    }
    let block = builder.append_block(function, 0, argument_types).unwrap();
    let ghost with_block = builder@;
    let mut operands: Vec<ValueRef> = Vec::new();
    operands.push(ValueRef::BlockArgument { block, index: 0 });
    operands.push(ValueRef::BlockArgument { block, index: 1 });
    let mut sum_types: Vec<Type> = Vec::new();
    sum_types.push(Type::Integer(32));
    proof {
        assert(types_view(argument_types@) =~= seq![i32_type(), i32_type()]);
        assert(with_block.stack =~= seq![0usize, 1usize]);
        assert(with_block.stack[1] == 1);
        assert(with_block.all_visible(operands@));
    }
    let sum = builder.new_operation("felt.add", operands, sum_types, Vec::new(), 0).unwrap();
    let ghost with_sum = builder@;
    let mut returned: Vec<ValueRef> = Vec::new();
    returned.push(ValueRef::OperationResult { operation: sum, index: 0 });
    proof {
        assert(types_view(sum_types@) =~= seq![i32_type()]);
        assert(with_sum.stack[1] == 1);
        assert(with_sum.module.blocks[0].parent is None);
        assert(!with_sum.owned_at(0, sum));
        assert(!with_sum.owned_at(1, sum));
        assert(!with_sum.encloses(sum));
        assert(with_sum.all_visible(returned@));
    }
    builder.new_operation("func.return", returned, Vec::new(), Vec::new(), 0).unwrap();
    let module = builder.finish();
    proof {
        let built = module@;
        let wanted = core_module();
        assert(types_view(Seq::<Type>::empty()) =~= Seq::<TypeView>::empty());
        assert(crate::attribute::named_attributes_view(Seq::<NamedAttribute>::empty())
            =~= Seq::empty());
        assert(built.operations.len() == 3);
        assert(built.blocks.len() == 2);
        assert(built.operations[0].attributes =~= wanted.operations[0].attributes);
        assert(built.operations[0].regions =~= wanted.operations[0].regions);
        assert(built.operations[0].operands =~= wanted.operations[0].operands);
        assert(built.operations[0] == wanted.operations[0]);
        assert(built.operations[1].operands =~= wanted.operations[1].operands);
        assert(built.operations[1].regions =~= wanted.operations[1].regions);
        assert(built.operations[1] == wanted.operations[1]);
        assert(built.operations[2].operands =~= wanted.operations[2].operands);
        assert(built.operations[2].regions =~= wanted.operations[2].regions);
        assert(built.operations[2] == wanted.operations[2]);
        assert(built.operations =~= wanted.operations);
        assert(built.blocks[0].operations =~= wanted.blocks[0].operations);
        assert(built.blocks[1].operations =~= wanted.blocks[1].operations);
        assert(built.blocks =~= wanted.blocks);
    }
    module
}

} // verus!
