use dialect_rust::attribute::{Attribute, NamedAttribute};
use dialect_rust::builder::Builder;
use dialect_rust::error::Error;
use dialect_rust::ir::{Module, ValueRef};
use dialect_rust::types::Type;

fn argument(block: usize, index: usize) -> ValueRef {
    ValueRef::BlockArgument { block, index }
}

fn result(operation: usize, index: usize) -> ValueRef {
    ValueRef::OperationResult { operation, index }
}

#[test]
fn new_module_has_an_empty_body() {
    let module = Module::new();
    assert_eq!(module.operation_count(), 0);
    assert_eq!(module.block_count(), 1);
    let body = module.get_block(0).unwrap();
    assert!(body.arguments.is_empty() && body.operations.is_empty());
    assert_eq!(body.parent, None);
    assert!(module.get_block(1).is_none());
    assert!(module.get_operation(0).is_none());
    assert_eq!(Builder::new().finish(), module);
}

#[test]
fn operations_are_appended_in_order() {
    let mut builder = Builder::with_arguments(vec![Type::Integer(32)]);
    assert_eq!(builder.current_block(), 0);
    let first = builder
        .new_operation(
            "test.first",
            vec![argument(0, 0)],
            vec![Type::Float64, Type::Pointer],
            vec![NamedAttribute::new("note", Attribute::Unit)],
            0,
        )
        .unwrap();
    let second = builder
        .new_operation("test.second", vec![result(first, 1), result(first, 0)], vec![], vec![], 2)
        .unwrap();
    assert_eq!((first, second), (0, 1));
    let module = builder.finish();
    assert_eq!(module.get_block(0).unwrap().operations, vec![0, 1]);
    let op = module.get_operation(1).unwrap();
    assert_eq!(op.name, "test.second");
    assert_eq!(op.operands, vec![result(0, 1), result(0, 0)]);
    assert_eq!(op.regions, vec![Vec::<usize>::new(), Vec::new()]);
    assert_eq!(op.parent, 0);
    assert!(!op.erased);
    assert_eq!(module.value_type(result(0, 1)), Some(&Type::Pointer));
    assert_eq!(module.value_type(argument(0, 0)), Some(&Type::Integer(32)));
    assert_eq!(module.value_type(argument(0, 1)), None);
    assert_eq!(module.live_operations(), vec![0, 1]);
}

#[test]
fn operands_out_of_scope_are_refused() {
    let mut builder = Builder::new();
    // Values that do not exist.
    for value in [argument(0, 0), argument(3, 0), result(0, 0)] {
        assert_eq!(
            builder.new_operation("test.op", vec![value], vec![], vec![], 0),
            Err(Error::MalformedOperation)
        );
    }
    assert_eq!(builder.module().operation_count(), 0);
    let outer = builder.new_operation("test.outer", vec![], vec![Type::Pointer], vec![], 2).unwrap();
    let first = builder.append_block(outer, 0, vec![Type::Float64]).unwrap();
    // Inside an operation its own results cannot be read.
    assert!(!builder.is_visible(result(outer, 0)));
    assert_eq!(
        builder.new_operation("test.op", vec![result(outer, 0)], vec![], vec![], 0),
        Err(Error::MalformedOperation)
    );
    let inner = builder
        .new_operation("test.inner", vec![argument(first, 0)], vec![Type::Float64], vec![], 0)
        .unwrap();
    assert!(builder.is_visible(result(inner, 0)));
    // A result index that the operation does not have.
    assert!(!builder.is_visible(result(inner, 1)));
    builder.end_block().unwrap();
    // What a closed block defined is gone from sight, also for a sibling block.
    assert!(!builder.is_visible(result(inner, 0)));
    assert!(!builder.is_visible(argument(first, 0)));
    let second = builder.append_block(outer, 1, vec![]).unwrap();
    assert_eq!(
        builder.new_operation("test.op", vec![result(inner, 0)], vec![], vec![], 0),
        Err(Error::MalformedOperation)
    );
    assert_eq!(
        builder.new_operation("test.op", vec![argument(first, 0)], vec![], vec![], 0),
        Err(Error::MalformedOperation)
    );
    builder.end_block().unwrap();
    // After the operation its result can be read.
    let user = builder.new_operation("test.user", vec![result(outer, 0)], vec![], vec![], 0).unwrap();
    let module = builder.finish();
    assert_eq!(module.get_operation(outer).unwrap().regions, vec![vec![first], vec![second]]);
    assert_eq!(module.get_block(0).unwrap().operations, vec![outer, user]);
    assert_eq!(module.get_block(first).unwrap().operations, vec![inner]);
    assert_eq!(module.get_block(second).unwrap().operations, Vec::<usize>::new());
    assert_eq!(module.get_block(second).unwrap().parent, Some((outer, 1)));
}

#[test]
fn values_of_enclosing_blocks_can_be_read() {
    let mut builder = Builder::with_arguments(vec![Type::Integer(1)]);
    let before = builder.new_operation("test.before", vec![], vec![Type::Pointer], vec![], 0).unwrap();
    let outer = builder.new_operation("test.outer", vec![], vec![], vec![], 1).unwrap();
    let block = builder.append_block(outer, 0, vec![Type::Float64]).unwrap();
    let inner = builder.new_operation("test.inner", vec![], vec![], vec![], 1).unwrap();
    let deep = builder.append_block(inner, 0, vec![]).unwrap();
    assert_eq!(builder.current_block(), deep);
    let reader = builder
        .new_operation(
            "test.reader",
            vec![argument(0, 0), result(before, 0), argument(block, 0)],
            vec![],
            vec![],
            0,
        )
        .unwrap();
    let module = builder.finish();
    assert_eq!(module.get_operation(reader).unwrap().parent, deep);
    assert_eq!(module.get_block(deep).unwrap().parent, Some((inner, 0)));
}

#[test]
fn blocks_are_appended_only_to_the_last_operation() {
    let mut builder = Builder::new();
    assert_eq!(builder.append_block(0, 0, vec![]), Err(Error::MalformedOperation));
    assert_eq!(builder.end_block(), Err(Error::MalformedOperation));
    let first = builder.new_operation("test.first", vec![], vec![], vec![], 1).unwrap();
    let second = builder.new_operation("test.second", vec![], vec![], vec![], 1).unwrap();
    assert_eq!(builder.append_block(first, 0, vec![]), Err(Error::MalformedOperation));
    assert_eq!(builder.append_block(second, 1, vec![]), Err(Error::MalformedOperation));
    assert_eq!(builder.append_block(7, 0, vec![]), Err(Error::MalformedOperation));
    assert_eq!(builder.module().block_count(), 1);
    let block = builder.append_block(second, 0, vec![Type::Pointer]).unwrap();
    assert_eq!(block, 1);
    assert_eq!(builder.append_block(second, 0, vec![]), Err(Error::MalformedOperation));
    assert_eq!(builder.end_block(), Ok(()));
    assert_eq!(builder.end_block(), Err(Error::MalformedOperation));
    let sibling = builder.append_block(second, 0, vec![]).unwrap();
    let module = builder.finish();
    assert_eq!(module.get_operation(second).unwrap().regions, vec![vec![block, sibling]]);
}

#[test]
fn copies_are_equal_and_independent() {
    let mut builder = Builder::with_arguments(vec![Type::opaque("test.kind")]);
    builder
        .new_operation(
            "test.op",
            vec![argument(0, 0)],
            vec![Type::Function(vec![Type::Pointer], vec![])],
            vec![
                NamedAttribute::new("numbers", Attribute::IntegerArray(vec![1, -2, 3])),
                NamedAttribute::new("names", Attribute::TextArray(vec!["a".into(), "b".into()])),
                NamedAttribute::new("text", Attribute::Text("hello".into())),
            ],
            1,
        )
        .unwrap();
    let module = builder.finish();
    let copy = module.clone();
    assert_eq!(copy, module);
    let op = copy.get_operation(0).unwrap().clone();
    assert_eq!(&op, module.get_operation(0).unwrap());
    assert!(op.has_name("test.op"));
    assert!(!op.has_name("test"));
    assert_eq!(op.sole_block(), None);
}
