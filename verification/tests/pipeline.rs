use dialect_rust::attribute::{Attribute, NamedAttribute, Variadicity};
use dialect_rust::constraint::TypeConstraint;
use dialect_rust::core_module::build_core_module;
use dialect_rust::error::{Error, Violation};
use dialect_rust::ir::{Module, ValueRef};
use dialect_rust::irdl::{build_dialect_module, load_irdl_dialects, read_dialects};
use dialect_rust::pattern::{Pattern, PatternNode};
use dialect_rust::pdl::{build_pattern_module, compile_patterns};
use dialect_rust::registry::Context;
use dialect_rust::types::Type;
use dialect_rust::{apply_pdl_patterns, canonicalize, initialize_context, DEFAULT_MAX_ITERATIONS};

fn names_in(module: &Module, block: usize) -> Vec<String> {
    module
        .get_block(block)
        .unwrap()
        .operations
        .iter()
        .map(|id| module.get_operation(*id).unwrap().name.clone())
        .collect()
}

fn context_with_felt() -> Context {
    let mut context = initialize_context();
    assert_eq!(load_irdl_dialects(&mut context, &build_dialect_module()), Ok(()));
    context
}

#[test]
fn core_module_has_the_entry_point_with_one_addition() {
    let module = build_core_module();
    assert_eq!(module.operation_count(), 3);
    assert_eq!(module.block_count(), 2);
    assert_eq!(names_in(&module, 0), vec!["func.func"]);
    assert_eq!(names_in(&module, 1), vec!["felt.add", "func.return"]);
    let function = module.get_operation(0).unwrap();
    assert_eq!(
        function.attributes,
        vec![
            NamedAttribute::new("sym_name", Attribute::Text("entrypoint".to_string())),
            NamedAttribute::new(
                "function_type",
                Attribute::Type(Type::Function(
                    vec![Type::Integer(32), Type::Integer(32)],
                    vec![Type::Integer(32)]
                ))
            ),
            NamedAttribute::new("llvm.emit_c_interface", Attribute::Unit),
        ]
    );
    assert_eq!(function.regions, vec![vec![1]]);
    let block = module.get_block(1).unwrap();
    assert_eq!(block.arguments, vec![Type::Integer(32), Type::Integer(32)]);
    assert_eq!(block.parent, Some((0, 0)));
    let add = module.get_operation(1).unwrap();
    assert_eq!(
        add.operands,
        vec![
            ValueRef::BlockArgument { block: 1, index: 0 },
            ValueRef::BlockArgument { block: 1, index: 1 }
        ]
    );
    assert_eq!(add.results, vec![Type::Integer(32)]);
    assert_eq!(
        module.get_operation(2).unwrap().operands,
        vec![ValueRef::OperationResult { operation: 1, index: 0 }]
    );
    assert_eq!(
        module.value_type(ValueRef::OperationResult { operation: 1, index: 0 }),
        Some(&Type::Integer(32))
    );
    assert_eq!(module.value_type(ValueRef::OperationResult { operation: 2, index: 0 }), None);
}

#[test]
fn dialect_module_defines_felt_add() {
    let module = build_dialect_module();
    assert_eq!(names_in(&module, 0), vec!["irdl.dialect"]);
    assert_eq!(names_in(&module, 1), vec!["irdl.operation"]);
    assert_eq!(names_in(&module, 2), vec!["irdl.is", "irdl.operands", "irdl.results"]);
    let dialects = read_dialects(&module).unwrap();
    assert_eq!(dialects.len(), 1);
    assert_eq!(dialects[0].name(), "felt");
    assert_eq!(dialects[0].operation_count(), 1);
    let constraint = dialects[0].constraint("add").unwrap();
    assert_eq!(constraint.operands.len(), 2);
    assert_eq!(constraint.results.len(), 1);
    for slot in constraint.operands.iter().chain(constraint.results.iter()) {
        assert_eq!(slot.variadicity, Variadicity::Single);
        assert!(matches!(&slot.accepts, TypeConstraint::Is(ty) if *ty == Type::Integer(32)));
    }
    assert!(dialects[0].constraint("mul").is_none());
}

#[test]
fn core_module_verifies_only_once_felt_is_loaded() {
    let module = build_core_module();
    let context = initialize_context();
    assert_eq!(
        context.verify(&module, false),
        Err(vec![Error::ConstraintViolation { operation: 1, reason: Violation::Unregistered }])
    );
    let context = context_with_felt();
    assert_eq!(context.verify(&module, false), Ok(()));
    assert_eq!(context.validate(&module, 1), Ok(()));
    assert_eq!(context.validate(&module, 3), Err(Error::NotFound));
}

#[test]
fn loading_a_dialect_twice_is_refused_and_changes_nothing() {
    let mut context = context_with_felt();
    let count = context.dialect_count();
    assert_eq!(count, 5);
    assert_eq!(
        load_irdl_dialects(&mut context, &build_dialect_module()),
        Err(Error::DuplicateDialect)
    );
    assert_eq!(context.dialect_count(), count);
    // A module that defines no dialect adds none.
    assert_eq!(load_irdl_dialects(&mut context, &build_core_module()), Ok(()));
    assert_eq!(context.dialect_count(), count);
}

#[test]
fn built_modules_verify_against_the_initial_dialects() {
    let context = initialize_context();
    assert_eq!(context.verify(&build_dialect_module(), false), Ok(()));
    assert_eq!(context.verify(&build_pattern_module(), false), Ok(()));
}

#[test]
fn pattern_module_compiles_to_one_pattern() {
    let module = build_pattern_module();
    assert_eq!(module.operation_count(), 13);
    assert_eq!(names_in(&module, 0), vec!["pdl.pattern"]);
    assert_eq!(
        names_in(&module, 1),
        vec!["pdl.type", "pdl.operand", "pdl.operand", "pdl.operation", "pdl.rewrite"]
    );
    assert_eq!(
        names_in(&module, 2),
        vec![
            "pdl.operation",
            "pdl.result",
            "pdl.attribute",
            "pdl.operation",
            "pdl.result",
            "pdl.operation",
            "pdl.replace"
        ]
    );
    let patterns = compile_patterns(&module).unwrap();
    assert_eq!(patterns.len(), 1);
    let pattern = match &patterns[0] {
        Pattern::Rewrite(pattern) => pattern,
        other => panic!("unexpected pattern {:?}", other),
    };
    assert_eq!(pattern.benefit, 1);
    assert_eq!(pattern.root, 3);
    assert_eq!(pattern.matcher_len, 4);
    assert_eq!(pattern.nodes.len(), 11);
    assert_eq!(pattern.replacement, vec![10]);
    match &pattern.nodes[3] {
        PatternNode::Operation { name, operands, results, attribute_names, attribute_values } => {
            assert_eq!(name, "felt.add");
            assert_eq!(operands, &vec![1, 2]);
            assert_eq!(results, &vec![0]);
            assert!(attribute_names.is_empty() && attribute_values.is_empty());
        }
        other => panic!("unexpected node {:?}", other),
    }
    match &pattern.nodes[7] {
        PatternNode::Operation { name, operands, results, attribute_names, attribute_values } => {
            assert_eq!(name, "arith.constant");
            assert!(operands.is_empty());
            assert_eq!(results, &vec![0]);
            assert_eq!(attribute_names, &vec!["value".to_string()]);
            assert_eq!(attribute_values, &vec![6]);
        }
        other => panic!("unexpected node {:?}", other),
    }
    match &pattern.nodes[10] {
        PatternNode::Result { operation, index } => assert_eq!((*operation, *index), (9, 0)),
        other => panic!("unexpected node {:?}", other),
    }
}

#[test]
fn modules_without_patterns_or_with_broken_ones() {
    assert_eq!(compile_patterns(&build_core_module()).unwrap().len(), 0);
    let mut target = build_core_module();
    // The dialect module describes no pattern: nothing is rewritten.
    assert_eq!(apply_pdl_patterns(&mut target, &build_dialect_module()), Ok(()));
    assert_eq!(target, build_core_module());

    let mut builder = dialect_rust::builder::Builder::new();
    let pattern = builder
        .new_operation(
            "pdl.pattern",
            vec![],
            vec![],
            vec![NamedAttribute::new(
                "benefit",
                Attribute::Integer { value: 1, ty: Type::Integer(16) },
            )],
            1,
        )
        .unwrap();
    builder.append_block(pattern, 0, vec![]).unwrap();
    builder.new_operation("pdl.operand", vec![], vec![Type::opaque("pdl.value")], vec![], 0).unwrap();
    let broken = builder.finish();
    assert!(compile_patterns(&broken).is_none());
    assert_eq!(apply_pdl_patterns(&mut target, &broken), Err(Error::MalformedOperation));
    assert_eq!(target, build_core_module());
}

#[test]
fn felt_add_is_rewritten_into_modular_addition() {
    let context = context_with_felt();
    let mut core = build_core_module();
    assert_eq!(apply_pdl_patterns(&mut core, &build_pattern_module()), Ok(()));
    assert_eq!(
        names_in(&core, 1),
        vec!["arith.addi", "arith.constant", "arith.remui", "func.return"]
    );
    let body = core.get_block(1).unwrap().operations.clone();
    let (addi, constant, remui, ret) = (body[0], body[1], body[2], body[3]);
    let result = |operation| ValueRef::OperationResult { operation, index: 0 };
    assert_eq!(
        core.get_operation(addi).unwrap().operands,
        vec![
            ValueRef::BlockArgument { block: 1, index: 0 },
            ValueRef::BlockArgument { block: 1, index: 1 }
        ]
    );
    assert_eq!(
        core.get_operation(constant).unwrap().attributes,
        vec![NamedAttribute::new("value", Attribute::Integer { value: 13, ty: Type::Integer(32) })]
    );
    assert_eq!(core.get_operation(remui).unwrap().operands, vec![result(addi), result(constant)]);
    assert_eq!(core.get_operation(ret).unwrap().operands, vec![result(remui)]);
    for id in [addi, constant, remui] {
        assert_eq!(core.get_operation(id).unwrap().results, vec![Type::Integer(32)]);
        assert_eq!(core.get_operation(id).unwrap().parent, 1);
    }
    assert!(core.get_operation(1).unwrap().erased);
    // Only known dialects are left, and the module is still in order.
    assert_eq!(context.verify(&core, false), Ok(()));
    assert_eq!(initialize_context().verify(&core, true), Ok(()));
    // Nothing folds: the operands of the sum are arguments.
    let before = core.clone();
    canonicalize(&mut core);
    assert_eq!(core, before);
}

#[test]
fn canonicalizing_the_built_modules_changes_nothing() {
    for module in [build_core_module(), build_dialect_module(), build_pattern_module()] {
        let mut canonical = module.clone();
        canonicalize(&mut canonical);
        assert_eq!(canonical, module);
    }
}

#[test]
fn default_limit_stops_after_ten_rewrites() {
    assert_eq!(DEFAULT_MAX_ITERATIONS, 10);
    let mut builder = dialect_rust::builder::Builder::with_arguments(vec![Type::Integer(32); 2]);
    let arguments = vec![
        ValueRef::BlockArgument { block: 0, index: 0 },
        ValueRef::BlockArgument { block: 0, index: 1 },
    ];
    for _ in 0..11 {
        builder
            .new_operation("felt.add", arguments.clone(), vec![Type::Integer(32)], vec![], 0)
            .unwrap();
    }
    let mut module = builder.finish();
    let patterns = build_pattern_module();
    assert_eq!(apply_pdl_patterns(&mut module, &patterns), Err(Error::MaxIterationsExceeded));
    assert_eq!(names_in(&module, 0).iter().filter(|name| *name == "felt.add").count(), 1);
    assert_eq!(apply_pdl_patterns(&mut module, &patterns), Ok(()));
    assert_eq!(names_in(&module, 0).iter().filter(|name| *name == "felt.add").count(), 0);
    assert_eq!(names_in(&module, 0).len(), 33);
}
