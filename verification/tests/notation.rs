use dialect_rust::attribute::{Attribute, NamedAttribute, Variadicity};
use dialect_rust::builder::Builder;
use dialect_rust::core_module::{build_core_module, load_core_module};
use dialect_rust::engine::apply_patterns;
use dialect_rust::error::Error;
use dialect_rust::initialize_context;
use dialect_rust::ir::{Module, ValueRef};
use dialect_rust::irdl::{build_dialect_module, load_dialect_module, load_irdl_dialects};
use dialect_rust::module_notation::{parse, serialize};
use dialect_rust::pattern::Pattern;
use dialect_rust::pdl::{build_pattern_module, load_pattern_module};
use dialect_rust::types::Type;

#[test]
fn core_equal_load_and_build() {
    let mut context = initialize_context();

    let dialect_module = build_dialect_module();
    load_irdl_dialects(&mut context, &dialect_module).unwrap();

    let builded_module = build_core_module();
    let loaded_module = load_core_module().unwrap();
    assert_eq!(builded_module.to_text(), loaded_module.to_text());
    assert_eq!(builded_module, loaded_module);
    assert_eq!(context.verify(&loaded_module, false), Ok(()));
}

#[test]
fn irdl_equal_load_and_build() {
    let builded_module = build_dialect_module();
    let loaded_module = load_dialect_module().unwrap();
    assert_eq!(builded_module.to_text(), loaded_module.to_text());
    assert_eq!(builded_module, loaded_module);
}

#[test]
fn pdl_equal_load_and_build() {
    let builded_module = build_pattern_module();
    let loaded_module = load_pattern_module().unwrap();
    assert_eq!(builded_module.to_text(), loaded_module.to_text());
    assert_eq!(builded_module, loaded_module);
}

#[test]
fn empty_module_is_written_in_two_lines() {
    let text = serialize(&Module::new());
    assert_eq!(text, "module\n0 1 block 0 - 0 \n");
    assert_eq!(parse(&text), Ok(Module::new()));
}

#[test]
fn core_module_is_written_line_by_line() {
    let lines: Vec<String> =
        build_core_module().to_text().lines().map(|line| line.to_string()).collect();
    assert_eq!(
        lines,
        vec![
            "module",
            "3 op 9:func.func 0 0 0 0 3 8:sym_name t10:entrypoint 13:function_type \
             yF2 i32 i32 1 i32 21:llvm.emit_c_interface u 1 1 1 ",
            "op 8:felt.add 1 0 2 a1 0 a1 1 1 i32 0 0 ",
            "op 11:func.return 1 0 1 r1 0 0 0 0 ",
            "2 block 0 - 1 0 ",
            "block 2 i32 i32 ^0 0 2 1 2 ",
        ]
    );
}

fn module_of_every_kind() -> Module {
    let mut builder = Builder::with_arguments(vec![
        Type::Integer(0),
        Type::Integer(u32::MAX),
        Type::Float64,
        Type::Pointer,
        Type::opaque(""),
        Type::opaque("a name: with spaces, 7 digits\nand a line"),
        Type::Function(vec![], vec![]),
        Type::Function(
            vec![Type::Function(vec![Type::Pointer], vec![Type::Float64, Type::Integer(1)])],
            vec![Type::opaque("x"), Type::Function(vec![], vec![Type::Integer(8)])],
        ),
    ]);
    let attributes = vec![
        NamedAttribute::new("", Attribute::Unit),
        NamedAttribute::new("zero", Attribute::Integer { value: 0, ty: Type::Integer(1) }),
        NamedAttribute::new("max", Attribute::Integer { value: u64::MAX, ty: Type::Integer(64) }),
        NamedAttribute::new("text", Attribute::Text("12:not a length ".to_string())),
        NamedAttribute::new("unicode", Attribute::Text("größer als 0 ≥ ∅".to_string())),
        NamedAttribute::new("type", Attribute::Type(Type::Function(vec![Type::Pointer], vec![]))),
        NamedAttribute::new(
            "numbers",
            Attribute::IntegerArray(vec![0, 1, -1, 10, -10, i32::MAX, i32::MIN]),
        ),
        NamedAttribute::new("none", Attribute::IntegerArray(vec![])),
        NamedAttribute::new(
            "names",
            Attribute::TextArray(vec!["".to_string(), " ".to_string(), "a:b".to_string()]),
        ),
        NamedAttribute::new(
            "markers",
            Attribute::VariadicityArray(vec![
                Variadicity::Single,
                Variadicity::Optional,
                Variadicity::Variadic,
            ]),
        ),
    ];
    let outer = builder
        .new_operation(
            "every.kind",
            vec![ValueRef::BlockArgument { block: 0, index: 7 }],
            vec![Type::Pointer, Type::Integer(12)],
            attributes,
            3,
        )
        .unwrap();
    let first = builder.append_block(outer, 0, vec![Type::Float64]).unwrap();
    builder
        .new_operation("inner.op", vec![ValueRef::BlockArgument { block: first, index: 0 }], vec![], vec![], 0)
        .unwrap();
    builder.end_block().unwrap();
    builder.append_block(outer, 0, vec![]).unwrap();
    builder.end_block().unwrap();
    builder.append_block(outer, 2, vec![]).unwrap();
    builder.end_block().unwrap();
    for _ in 0..12 {
        builder
            .new_operation(
                "user",
                vec![
                    ValueRef::OperationResult { operation: outer, index: 1 },
                    ValueRef::OperationResult { operation: outer, index: 0 },
                ],
                vec![],
                vec![],
                0,
            )
            .unwrap();
    }
    builder.finish()
}

#[test]
fn what_is_written_is_read_back() {
    for module in [
        Module::new(),
        build_core_module(),
        build_dialect_module(),
        build_pattern_module(),
        module_of_every_kind(),
    ] {
        let text = module.to_text();
        let read = parse(&text).unwrap();
        assert_eq!(read, module);
        assert_eq!(read.to_text(), text);
    }
}

#[test]
fn erased_operations_keep_their_numbers_in_the_text() {
    let mut module = build_core_module();
    let patterns = dialect_rust::pdl::compile_patterns(&build_pattern_module()).unwrap();
    assert_eq!(apply_patterns(&mut module, &patterns, 10), Ok(()));
    assert!(module.get_operation(1).unwrap().erased);
    let text = module.to_text();
    assert!(text.contains("op 8:felt.add 1 1 "));
    let read = parse(&text).unwrap();
    assert_eq!(read, module);
    assert_eq!(read.live_operations(), module.live_operations());
    let _: &Vec<Pattern> = &patterns;
}

#[test]
fn text_that_is_no_module_is_refused() {
    let good = build_core_module().to_text();
    assert!(parse(&good).is_ok());
    let refused = |text: &str| assert_eq!(parse(text), Err(Error::MalformedOperation), "{text:?}");
    refused("");
    refused("module");
    refused("module\n");
    refused("module\n0 0 ");
    refused("modul\n0 1 block 0 - 0 \n");
    // Something after the end.
    refused(&format!("{good} "));
    refused(&format!("{good}\n"));
    // Something missing at the end.
    refused(&good[..good.len() - 1]);
    refused(&good[..good.len() - 2]);
    // Needless zeros, signs and spaces in numbers.
    refused("module\n00 1 block 0 - 0 \n");
    refused("module\n0 01 block 0 - 0 \n");
    refused("module\n0 +1 block 0 - 0 \n");
    refused("module\n0  1 block 0 - 0 \n");
    refused("module\n 0 1 block 0 - 0 \n");
    // A number that is too large.
    refused("module\n0 18446744073709551616 block 0 - 0 \n");
    refused("module\n0 99999999999999999999999999 block 0 - 0 \n");
    // More or fewer items than announced.
    refused("module\n0 2 block 0 - 0 \n");
    refused("module\n1 1 block 0 - 0 \n");
    refused("module\n0 0 block 0 - 0 \n");
    // A string shorter or longer than announced.
    refused(&good.replace("8:felt.add", "7:felt.add"));
    refused(&good.replace("8:felt.add", "9:felt.add"));
    refused(&good.replace("8:felt.add", "8 felt.add"));
    // Letters that no kind of value starts with.
    refused(&good.replace("a1 0 a1 1", "b1 0 a1 1"));
    refused(&good.replace("1 i32 0 0 ", "1 j32 0 0 "));
    refused(&good.replace("21:llvm.emit_c_interface u ", "21:llvm.emit_c_interface x "));
    refused(&good.replace("block 0 - ", "block 0 ~ "));
    // A width that is no 32-bit number.
    refused(&good.replace("1 i32 0 0 ", "1 i4294967296 0 0 "));
    assert!(parse(&good.replace("1 i32 0 0 ", "1 i4294967295 0 0 ")).is_ok());
}

#[test]
fn text_of_a_module_with_indices_out_of_range_is_refused() {
    let good = build_core_module().to_text();
    let refused = |text: String| assert_eq!(parse(&text), Err(Error::MalformedOperation), "{text:?}");
    // The body of the module is missing.
    refused("module\n0 0 ".to_string());
    // A block that does not exist, as the place of an operation.
    refused(good.replace("op 8:felt.add 1 0 ", "op 8:felt.add 2 0 "));
    // A value that does not exist.
    refused(good.replace("a1 0 a1 1", "a1 0 a1 2"));
    refused(good.replace("1 r1 0 0 0 0", "1 r1 1 0 0 0"));
    refused(good.replace("1 r1 0 0 0 0", "1 r3 0 0 0 0"));
    // An operation that does not exist, in a block.
    refused(good.replace("^0 0 2 1 2 ", "^0 0 2 1 3 "));
    refused(good.replace("^0 0 2 1 2 ", "^3 0 2 1 2 "));
    // A block that does not exist, in a region.
    refused(good.replace("u 1 1 1 \n", "u 1 1 2 \n"));
    // The flag of erasure is 0 or 1.
    refused(good.replace("op 8:felt.add 1 0 ", "op 8:felt.add 1 2 "));
    assert!(parse(&good.replace("op 8:felt.add 1 0 ", "op 8:felt.add 1 1 ")).is_ok());
}

#[test]
fn integers_are_written_with_their_sign() {
    let mut builder = Builder::new();
    builder
        .new_operation(
            "test.op",
            vec![],
            vec![],
            vec![NamedAttribute::new("numbers", Attribute::IntegerArray(vec![5, -5, 0, i32::MIN]))],
            0,
        )
        .unwrap();
    let text = builder.finish().to_text();
    assert!(text.contains("7:numbers I4 +5 -5 +0 -2147483648 "), "{text}");
    let refused = |text: String| assert_eq!(parse(&text), Err(Error::MalformedOperation), "{text:?}");
    refused(text.replace("+0 ", "-0 "));
    refused(text.replace("+5 ", "5 "));
    refused(text.replace("-2147483648 ", "-2147483649 "));
    refused(text.replace("+5 ", "+2147483648 "));
    assert!(parse(&text.replace("+5 ", "+2147483647 ")).is_ok());
}
