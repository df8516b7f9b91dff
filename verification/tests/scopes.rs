use dialect_rust::builder::Builder;
use dialect_rust::canonicalize;
use dialect_rust::core_module::build_core_module;
use dialect_rust::engine::apply_patterns;
use dialect_rust::ir::{Module, ValueRef};
use dialect_rust::irdl::build_dialect_module;
use dialect_rust::module_notation::parse;
use dialect_rust::pattern::{Pattern, PatternNode, RewritePattern};
use dialect_rust::pdl::{build_pattern_module, compile_patterns};
use dialect_rust::scope::{is_in_scope, is_structured, is_tree_shaped, is_well_scoped};
use dialect_rust::types::Type;

fn argument(block: usize, index: usize) -> ValueRef {
    ValueRef::BlockArgument { block, index }
}

fn result(operation: usize) -> ValueRef {
    ValueRef::OperationResult { operation, index: 0 }
}

fn operation_node(name: &str, operands: Vec<usize>, results: Vec<usize>) -> PatternNode {
    PatternNode::Operation {
        name: name.to_string(),
        operands,
        attribute_names: vec![],
        attribute_values: vec![],
        results,
    }
}

/// Two values, a scope with two blocks in one region, and a reader after it.
///
/// ```text
/// 0: first  -> v
/// 1: scope { ^1(a): 2: inner(v, a) -> w   ^2: 3: other }
/// 4: last(v)
/// ```
fn nested() -> Module {
    let i32_type = || Type::Integer(32);
    let mut builder = Builder::with_arguments(vec![i32_type()]);
    let first = builder.new_operation("test.first", vec![], vec![i32_type()], vec![], 0).unwrap();
    let scope = builder.new_operation("test.scope", vec![], vec![i32_type()], vec![], 1).unwrap();
    let block = builder.append_block(scope, 0, vec![i32_type()]).unwrap();
    builder
        .new_operation("test.inner", vec![result(first), argument(block, 0)], vec![i32_type()], vec![], 0)
        .unwrap();
    builder.end_block().unwrap();
    builder.append_block(scope, 0, vec![]).unwrap();
    builder.new_operation("test.other", vec![], vec![], vec![], 0).unwrap();
    builder.end_block().unwrap();
    builder.new_operation("test.last", vec![result(first)], vec![], vec![], 0).unwrap();
    builder.finish()
}

#[test]
fn built_modules_are_well_structured() {
    for module in [
        Module::new(),
        build_core_module(),
        build_dialect_module(),
        build_pattern_module(),
        nested(),
    ] {
        assert!(module.is_well_formed());
        assert!(is_tree_shaped(&module));
        assert!(is_well_scoped(&module));
        assert!(is_structured(&module));
    }
}

#[test]
fn scope_reaches_up_but_neither_forward_nor_sideways() {
    let module = nested();
    let (first, scope, inner, other, last) = (0, 1, 2, 3, 4);
    // The arguments of the body are in scope everywhere.
    for reader in [first, scope, inner, other, last] {
        assert!(is_in_scope(&module, reader, argument(0, 0)));
    }
    // What stands before, in the same block or in one that encloses it.
    assert!(is_in_scope(&module, scope, result(first)));
    assert!(is_in_scope(&module, inner, result(first)));
    assert!(is_in_scope(&module, other, result(first)));
    assert!(is_in_scope(&module, last, result(first)));
    assert!(is_in_scope(&module, last, result(scope)));
    assert!(is_in_scope(&module, inner, argument(1, 0)));
    // Nothing of itself, nothing that comes later.
    assert!(!is_in_scope(&module, first, result(first)));
    assert!(!is_in_scope(&module, first, result(scope)));
    assert!(!is_in_scope(&module, scope, result(scope)));
    // Nothing of the operation that encloses the reader.
    assert!(!is_in_scope(&module, inner, result(scope)));
    // Nothing out of a block beside, or inside of an operation before.
    assert!(!is_in_scope(&module, other, result(inner)));
    assert!(!is_in_scope(&module, other, argument(1, 0)));
    assert!(!is_in_scope(&module, last, result(inner)));
    assert!(!is_in_scope(&module, last, argument(1, 0)));
    // Nothing for an operation that does not exist.
    assert!(!is_in_scope(&module, 5, argument(0, 0)));
}

#[test]
fn rewriting_keeps_modules_well_structured() {
    let mut module = build_core_module();
    let patterns = compile_patterns(&build_pattern_module()).unwrap();
    assert_eq!(apply_patterns(&mut module, &patterns, 10), Ok(()));
    assert!(is_structured(&module));
    canonicalize(&mut module);
    assert!(is_structured(&module));
    // Results of the erased operation are in scope no more.
    assert!(module.get_operation(1).unwrap().erased);
    assert!(!is_in_scope(&module, 2, result(1)));
}

#[test]
fn text_may_describe_a_module_that_is_not_well_structured() {
    let good = build_core_module().to_text();
    // The return stands before the addition whose result it reads.
    let swapped = parse(&good.replace("^0 0 2 1 2 ", "^0 0 2 2 1 ")).unwrap();
    assert!(is_tree_shaped(&swapped));
    assert!(!is_well_scoped(&swapped));
    assert!(!is_structured(&swapped));
    // The addition is in no block.
    let lost = parse(&good.replace("^0 0 2 1 2 ", "^0 0 1 2 ")).unwrap();
    assert!(!is_tree_shaped(&lost));
    assert!(!is_structured(&lost));
    // The addition is entered twice.
    let twice = parse(&good.replace("^0 0 2 1 2 ", "^0 0 3 1 1 2 ")).unwrap();
    assert!(!is_tree_shaped(&twice));
    // The function is entered in the block that it owns.
    let knot = parse(&good.replace("2 block 0 - 1 0 \nblock 2 i32 i32 ^0 0 2 1 2 ", "2 block 0 - 0 \nblock 2 i32 i32 ^0 0 3 1 2 0 ")).unwrap();
    assert!(!is_tree_shaped(&knot));
    // The addition is erased, but its result is read.
    let dangling = parse(&good.replace("op 8:felt.add 1 0 ", "op 8:felt.add 1 1 ")).unwrap();
    assert!(!is_well_scoped(&dangling));
}

#[test]
fn pattern_that_would_read_out_of_scope_does_not_apply() {
    // scope(x) { inner(y) } becomes moved(y): y is the argument of a block
    // that the new operation is not in.
    let lift = Pattern::Rewrite(RewritePattern {
        benefit: 1,
        nodes: vec![
            PatternNode::Type { constant: None },
            PatternNode::Value,
            PatternNode::Value,
            operation_node("test.inner", vec![1, 2], vec![0]),
            PatternNode::Result { operation: 3, index: 0 },
            operation_node("test.user", vec![4], vec![]),
            operation_node("test.moved", vec![4], vec![]),
        ],
        root: 5,
        matcher_len: 6,
        replacement: vec![],
    });
    // A reader of the inner result that stands where it may not.
    let mut builder = Builder::with_arguments(vec![Type::Integer(32)]);
    let first = builder.new_operation("test.first", vec![], vec![Type::Integer(32)], vec![], 0).unwrap();
    let inner = builder
        .new_operation("test.inner", vec![result(first), argument(0, 0)], vec![Type::Integer(32)], vec![], 0)
        .unwrap();
    builder.new_operation("test.user", vec![result(inner)], vec![], vec![], 0).unwrap();
    let mut module = builder.finish();
    // Here everything is in scope: the pattern applies.
    assert_eq!(apply_patterns(&mut module, &vec![lift], 10), Ok(()));
    let names: Vec<String> = module
        .get_block(0)
        .unwrap()
        .operations
        .iter()
        .map(|id| module.get_operation(*id).unwrap().name.clone())
        .collect();
    assert_eq!(names, vec!["test.first", "test.inner", "test.moved"]);
    assert!(is_structured(&module));

    // The same reader, but of a value that is not in scope for it: the
    // module is not well-structured to begin with, and the pattern, which
    // would carry the flaw on, does not apply.
    let text = nested().to_text().replace("op 9:test.last 0 0 1 r0 0 ", "op 9:test.user 0 0 1 r2 0 ");
    let mut flawed = parse(&text).unwrap();
    assert!(!is_well_scoped(&flawed));
    let lift = Pattern::Rewrite(RewritePattern {
        benefit: 1,
        nodes: vec![
            PatternNode::Type { constant: None },
            PatternNode::Value,
            PatternNode::Value,
            operation_node("test.inner", vec![1, 2], vec![0]),
            PatternNode::Result { operation: 3, index: 0 },
            operation_node("test.user", vec![4], vec![]),
            operation_node("test.moved", vec![2], vec![]),
        ],
        root: 5,
        matcher_len: 6,
        replacement: vec![],
    });
    let before = flawed.clone();
    assert_eq!(apply_patterns(&mut flawed, &vec![lift], 10), Ok(()));
    assert_eq!(flawed, before);
}
