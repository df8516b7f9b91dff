use dialect_rust::attribute::Variadicity;
use dialect_rust::builder::Builder;
use dialect_rust::constraint::{check_types, Fault, Slot, TypeConstraint};
use dialect_rust::error::{Error, Violation};
use dialect_rust::initialize_context;
use dialect_rust::ir::{Module, ValueRef};
use dialect_rust::registry::{Context, Dialect, OperationConstraint};
use dialect_rust::types::Type;

fn i32_type() -> Type {
    Type::Integer(32)
}

fn felt() -> Dialect {
    let mut dialect = Dialect::new("felt");
    let is_i32 = || Slot::single(TypeConstraint::Is(i32_type()));
    assert!(dialect.define("add", OperationConstraint::new(vec![is_i32(), is_i32()], vec![is_i32()])));
    dialect
}

fn context_with_felt() -> Context {
    let mut context = Context::new();
    assert_eq!(context.register_dialect(felt()), Ok(()));
    context
}

fn module_with(name: &str, operand_types: Vec<Type>, result_types: Vec<Type>) -> Module {
    let operands = (0..operand_types.len())
        .map(|index| ValueRef::BlockArgument { block: 0, index })
        .collect();
    let mut builder = Builder::with_arguments(operand_types);
    builder.new_operation(name, operands, result_types, vec![], 0).unwrap();
    builder.finish()
}

fn violation(operation: usize, reason: Violation) -> Result<(), Error> {
    Err(Error::ConstraintViolation { operation, reason })
}

#[test]
fn registering_a_dialect_twice_is_refused() {
    let mut context = context_with_felt();
    assert!(context.has_dialect("felt"));
    assert_eq!(context.register_dialect(felt()), Err(Error::DuplicateDialect));
    assert_eq!(context.register_dialect(Dialect::new("felt")), Err(Error::DuplicateDialect));
    assert_eq!(context.dialect_count(), 1);
    assert_eq!(context.register_dialect(Dialect::new("other")), Ok(()));
    assert_eq!(context.dialect_count(), 2);
}

#[test]
fn defining_an_operation_twice_is_refused() {
    let mut dialect = felt();
    assert!(!dialect.define("add", OperationConstraint::new(vec![], vec![])));
    assert_eq!(dialect.operation_count(), 1);
    assert_eq!(dialect.constraint("add").unwrap().operands.len(), 2);
}

#[test]
fn lookup_finds_registered_operations_only() {
    let context = context_with_felt();
    let constraint = context.lookup("felt.add").unwrap();
    assert_eq!(constraint.operands.len(), 2);
    assert_eq!(constraint.results.len(), 1);
    assert_eq!(context.lookup("felt.mul").unwrap_err(), Error::NotFound);
    assert_eq!(context.lookup("felt").unwrap_err(), Error::NotFound);
    assert_eq!(context.lookup("felt.").unwrap_err(), Error::NotFound);
    assert_eq!(context.lookup(".add").unwrap_err(), Error::NotFound);
    assert_eq!(context.lookup("").unwrap_err(), Error::NotFound);
    assert_eq!(context.lookup("add").unwrap_err(), Error::NotFound);
    assert_eq!(context.lookup("felt.add.more").unwrap_err(), Error::NotFound);
}

#[test]
fn lookup_on_an_unregistered_dialect_is_not_found() {
    let context = context_with_felt();
    assert!(!context.has_dialect("arith"));
    assert_eq!(context.lookup("arith.addi").unwrap_err(), Error::NotFound);
    assert_eq!(context.lookup("arith.add").unwrap_err(), Error::NotFound);
    assert_eq!(Context::new().lookup("felt.add").unwrap_err(), Error::NotFound);
}

#[test]
fn names_are_split_at_the_first_full_stop() {
    let mut dialect = Dialect::new("llvm");
    assert!(dialect.define("mlir.constant", OperationConstraint::new(vec![], vec![])));
    let mut dotted = Dialect::new("llvm.mlir");
    assert!(dotted.define("constant", OperationConstraint::new(vec![Slot::single(TypeConstraint::Any)], vec![])));
    let mut context = Context::new();
    assert_eq!(context.register_dialect(dotted), Ok(()));
    assert_eq!(context.lookup("llvm.mlir.constant").unwrap_err(), Error::NotFound);
    assert_eq!(context.register_dialect(dialect), Ok(()));
    assert_eq!(context.lookup("llvm.mlir.constant").unwrap().operands.len(), 0);
}

#[test]
fn initial_context_knows_its_four_dialects() {
    let context = initialize_context();
    assert_eq!(context.dialect_count(), 4);
    for name in ["func", "arith", "irdl", "pdl"] {
        assert!(context.has_dialect(name));
    }
    assert!(!context.has_dialect("felt"));
    for name in [
        "func.func", "func.return", "arith.addi", "arith.subi", "arith.muli", "arith.remui",
        "arith.constant", "irdl.dialect", "irdl.operation", "irdl.is", "irdl.any",
        "irdl.operands", "irdl.results", "pdl.pattern", "pdl.type", "pdl.operand",
        "pdl.attribute", "pdl.operation", "pdl.result", "pdl.rewrite", "pdl.replace",
        "pdl.erase",
    ] {
        assert!(context.lookup(name).is_ok(), "{name}");
    }
    assert_eq!(context.lookup("arith.divui").unwrap_err(), Error::NotFound);
    let addi = context.lookup("arith.addi").unwrap();
    assert_eq!(addi.operands.len(), 2);
    assert!(matches!(addi.operands[0].accepts, TypeConstraint::AnyInteger));
    let ret = context.lookup("func.return").unwrap();
    assert_eq!(ret.operands[0].variadicity, Variadicity::Variadic);
}

#[test]
fn operation_that_satisfies_its_constraint_is_valid() {
    let context = context_with_felt();
    let module = module_with("felt.add", vec![i32_type(), i32_type()], vec![i32_type()]);
    assert_eq!(context.validate(&module, 0), Ok(()));
    assert_eq!(context.verify(&module, false), Ok(()));
    assert_eq!(context.verify(&module, true), Ok(()));
}

#[test]
fn wrong_number_of_operands_names_the_position() {
    let context = context_with_felt();
    let module = module_with("felt.add", vec![i32_type()], vec![i32_type()]);
    assert_eq!(context.validate(&module, 0), violation(0, Violation::OperandCount { position: 1 }));
    let module = module_with("felt.add", vec![], vec![i32_type()]);
    assert_eq!(context.validate(&module, 0), violation(0, Violation::OperandCount { position: 0 }));
    let module = module_with("felt.add", vec![i32_type(); 4], vec![i32_type()]);
    assert_eq!(context.validate(&module, 0), violation(0, Violation::OperandCount { position: 2 }));
    // The number is checked before the types.
    let module = module_with("felt.add", vec![Type::Float64], vec![i32_type()]);
    assert_eq!(context.validate(&module, 0), violation(0, Violation::OperandCount { position: 1 }));
}

#[test]
fn wrong_types_and_results_name_the_position() {
    let context = context_with_felt();
    let module = module_with("felt.add", vec![i32_type(), Type::Integer(64)], vec![i32_type()]);
    assert_eq!(context.validate(&module, 0), violation(0, Violation::OperandType { position: 1 }));
    let module = module_with("felt.add", vec![Type::Pointer, Type::Float64], vec![i32_type()]);
    assert_eq!(context.validate(&module, 0), violation(0, Violation::OperandType { position: 0 }));
    let module = module_with("felt.add", vec![i32_type(), i32_type()], vec![]);
    assert_eq!(context.validate(&module, 0), violation(0, Violation::ResultCount { position: 0 }));
    let module = module_with("felt.add", vec![i32_type(), i32_type()], vec![i32_type(); 2]);
    assert_eq!(context.validate(&module, 0), violation(0, Violation::ResultCount { position: 1 }));
    let module = module_with("felt.add", vec![i32_type(), i32_type()], vec![Type::Float64]);
    assert_eq!(context.validate(&module, 0), violation(0, Violation::ResultType { position: 0 }));
    // Operands are checked before results.
    let module = module_with("felt.add", vec![i32_type(), Type::Float64], vec![]);
    assert_eq!(context.validate(&module, 0), violation(0, Violation::OperandType { position: 1 }));
    let module = module_with("felt.sub", vec![i32_type(), i32_type()], vec![i32_type()]);
    assert_eq!(context.validate(&module, 0), violation(0, Violation::Unregistered));
}

#[test]
fn verify_collects_all_violations_or_the_first() {
    let context = context_with_felt();
    let mut builder = Builder::with_arguments(vec![i32_type(), Type::Float64]);
    let a = ValueRef::BlockArgument { block: 0, index: 0 };
    let b = ValueRef::BlockArgument { block: 0, index: 1 };
    builder.new_operation("felt.add", vec![a, b], vec![i32_type()], vec![], 0).unwrap();
    builder.new_operation("felt.add", vec![a, a], vec![i32_type()], vec![], 0).unwrap();
    builder.new_operation("felt.add", vec![a], vec![i32_type()], vec![], 0).unwrap();
    builder.new_operation("other.op", vec![], vec![], vec![], 0).unwrap();
    let module = builder.finish();
    let all = vec![
        Error::ConstraintViolation { operation: 0, reason: Violation::OperandType { position: 1 } },
        Error::ConstraintViolation { operation: 2, reason: Violation::OperandCount { position: 1 } },
        Error::ConstraintViolation { operation: 3, reason: Violation::Unregistered },
    ];
    assert_eq!(context.verify(&module, false), Err(all.clone()));
    assert_eq!(context.verify(&module, true), Err(vec![all[0]]));
}

#[test]
fn empty_module_verifies() {
    assert_eq!(Context::new().verify(&Module::new(), false), Ok(()));
    assert_eq!(Context::new().verify(&Module::new(), true), Ok(()));
    assert_eq!(initialize_context().verify(&Module::new(), false), Ok(()));
}

fn check(slots: Vec<Slot>, types: Vec<Type>) -> Option<Fault> {
    let references: Vec<&Type> = types.iter().collect();
    check_types(&slots, &references)
}

#[test]
fn optional_and_variadic_slots_take_what_single_slots_leave() {
    let int = || TypeConstraint::Is(i32_type());
    let float = || TypeConstraint::Is(Type::Float64);
    let i = i32_type;
    let f = || Type::Float64;
    // variadic(int), single(float)
    let slots = || vec![Slot::variadic(int()), Slot::single(float())];
    assert_eq!(check(slots(), vec![f()]), None);
    assert_eq!(check(slots(), vec![i(), i(), i(), f()]), None);
    assert_eq!(check(slots(), vec![]), Some(Fault::Count { position: 0 }));
    assert_eq!(check(slots(), vec![i(), i()]), Some(Fault::Kind { position: 1 }));
    assert_eq!(check(slots(), vec![i(), f(), f()]), Some(Fault::Kind { position: 1 }));
    // single(int), optional(float), single(int)
    let slots = || vec![Slot::single(int()), Slot::optional(float()), Slot::single(int())];
    assert_eq!(check(slots(), vec![i(), i()]), None);
    assert_eq!(check(slots(), vec![i(), f(), i()]), None);
    assert_eq!(check(slots(), vec![i()]), Some(Fault::Count { position: 1 }));
    assert_eq!(check(slots(), vec![i(), f(), i(), i()]), Some(Fault::Count { position: 3 }));
    assert_eq!(check(slots(), vec![i(), i(), i()]), Some(Fault::Kind { position: 1 }));
    assert_eq!(check(slots(), vec![i(), f()]), Some(Fault::Kind { position: 1 }));
    // optional(int), variadic(float): each takes as many as it can.
    let slots = || vec![Slot::optional(int()), Slot::variadic(float())];
    assert_eq!(check(slots(), vec![]), None);
    assert_eq!(check(slots(), vec![i()]), None);
    assert_eq!(check(slots(), vec![i(), f(), f()]), None);
    assert_eq!(check(slots(), vec![f()]), Some(Fault::Kind { position: 0 }));
    // any and any integer
    let slots = || vec![Slot::single(TypeConstraint::Any), Slot::single(TypeConstraint::AnyInteger)];
    assert_eq!(check(slots(), vec![Type::Pointer, Type::Integer(7)]), None);
    assert_eq!(check(slots(), vec![Type::Pointer, f()]), Some(Fault::Kind { position: 1 }));
    assert_eq!(check(vec![], vec![]), None);
    assert_eq!(check(vec![], vec![i()]), Some(Fault::Count { position: 0 }));
}
