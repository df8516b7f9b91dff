use dialect_rust::attribute::{Attribute, NamedAttribute};
use dialect_rust::builder::Builder;
use dialect_rust::canonicalize;
use dialect_rust::engine::{apply_patterns, can_rewrite, rewrite_once};
use dialect_rust::error::Error;
use dialect_rust::ir::{Module, ValueRef};
use dialect_rust::pattern::{Pattern, PatternNode, RewritePattern};
use dialect_rust::types::Type;

fn argument(index: usize) -> ValueRef {
    ValueRef::BlockArgument { block: 0, index }
}

fn result(operation: usize) -> ValueRef {
    ValueRef::OperationResult { operation, index: 0 }
}

fn operation_node(name: &str, operands: Vec<usize>, results: Vec<usize>) -> PatternNode {
    PatternNode::Operation {
        name: name.to_string(),
        operands,
        attribute_names: vec![],
        attribute_values: vec![],
        results,
    }
}

/// `felt.add(a, b) -> c` becomes `arith.addi(a, b) -> c`.
fn add_to_addi(benefit: u16) -> Pattern {
    Pattern::Rewrite(RewritePattern {
        benefit,
        nodes: vec![
            PatternNode::Type { constant: None },
            PatternNode::Value,
            PatternNode::Value,
            operation_node("felt.add", vec![1, 2], vec![0]),
            operation_node("arith.addi", vec![1, 2], vec![0]),
            PatternNode::Result { operation: 4, index: 0 },
        ],
        root: 3,
        matcher_len: 4,
        replacement: vec![5],
    })
}

/// `felt.add(a, b)` becomes `arith.remui(arith.addi(a, b), constant(13))`.
fn add_to_modular_addition(benefit: u16) -> Pattern {
    Pattern::Rewrite(RewritePattern {
        benefit,
        nodes: vec![
            PatternNode::Type { constant: None },
            PatternNode::Value,
            PatternNode::Value,
            operation_node("felt.add", vec![1, 2], vec![0]),
            operation_node("arith.addi", vec![1, 2], vec![0]),
            PatternNode::Result { operation: 4, index: 0 },
            PatternNode::Attribute {
                value: Some(Attribute::Integer { value: 13, ty: Type::Integer(32) }),
            },
            PatternNode::Operation {
                name: "arith.constant".to_string(),
                operands: vec![],
                attribute_names: vec!["value".to_string()],
                attribute_values: vec![6],
                results: vec![0],
            },
            PatternNode::Result { operation: 7, index: 0 },
            operation_node("arith.remui", vec![5, 8], vec![0]),
            PatternNode::Result { operation: 9, index: 0 },
        ],
        root: 3,
        matcher_len: 4,
        replacement: vec![10],
    })
}

fn module_with_one_addition() -> Module {
    let mut builder = Builder::with_arguments(vec![Type::Integer(32), Type::Integer(32)]);
    builder
        .new_operation("felt.add", vec![argument(0), argument(1)], vec![Type::Integer(32)], vec![], 0)
        .unwrap();
    builder.finish()
}

fn module_with_used_addition() -> Module {
    let mut builder = Builder::with_arguments(vec![Type::Integer(32), Type::Integer(32)]);
    let sum = builder
        .new_operation("felt.add", vec![argument(0), argument(1)], vec![Type::Integer(32)], vec![], 0)
        .unwrap();
    builder.new_operation("func.return", vec![result(sum)], vec![], vec![], 0).unwrap();
    builder.finish()
}

fn literal(builder: &mut Builder, value: u64, width: u32) -> usize {
    builder
        .new_operation(
            "arith.constant",
            vec![],
            vec![Type::Integer(width)],
            vec![NamedAttribute::new(
                "value",
                Attribute::Integer { value, ty: Type::Integer(width) },
            )],
            0,
        )
        .unwrap()
}

fn names_in_body(module: &Module) -> Vec<String> {
    module
        .get_block(0)
        .unwrap()
        .operations
        .iter()
        .map(|id| module.get_operation(*id).unwrap().name.clone())
        .collect()
}

#[test]
fn sole_addition_becomes_addi() {
    let mut module = module_with_one_addition();
    let patterns = vec![add_to_addi(1)];
    assert_eq!(apply_patterns(&mut module, &patterns, 10), Ok(()));
    let body = module.get_block(0).unwrap().operations.clone();
    assert_eq!(body.len(), 1);
    assert_eq!(module.live_operations(), body);
    let op = module.get_operation(body[0]).unwrap();
    assert_eq!(op.name, "arith.addi");
    assert_eq!(op.operands, vec![argument(0), argument(1)]);
    assert_eq!(op.results, vec![Type::Integer(32)]);
    assert!(module.get_operation(0).unwrap().erased);
}

#[test]
fn addition_becomes_three_operations_in_dependency_order() {
    let mut module = module_with_used_addition();
    let patterns = vec![add_to_modular_addition(1)];
    assert_eq!(apply_patterns(&mut module, &patterns, 10), Ok(()));
    assert_eq!(
        names_in_body(&module),
        vec!["arith.addi", "arith.constant", "arith.remui", "func.return"]
    );
    let body = module.get_block(0).unwrap().operations.clone();
    let (addi, constant, remui, ret) = (body[0], body[1], body[2], body[3]);
    assert_eq!(module.get_operation(addi).unwrap().operands, vec![argument(0), argument(1)]);
    assert!(module.get_operation(constant).unwrap().operands.is_empty());
    assert_eq!(
        module.get_operation(constant).unwrap().attributes,
        vec![NamedAttribute::new(
            "value",
            Attribute::Integer { value: 13, ty: Type::Integer(32) }
        )]
    );
    assert_eq!(module.get_operation(remui).unwrap().operands, vec![result(addi), result(constant)]);
    // The use of the replaced result now reads the result of the remainder.
    assert_eq!(module.get_operation(ret).unwrap().operands, vec![result(remui)]);
    assert_eq!(module.live_operations(), vec![ret, addi, constant, remui]);
}

#[test]
fn higher_benefit_wins_and_first_registered_breaks_ties() {
    let mut module = module_with_used_addition();
    let patterns = vec![add_to_addi(1), add_to_modular_addition(2)];
    assert_eq!(apply_patterns(&mut module, &patterns, 10), Ok(()));
    assert_eq!(names_in_body(&module).len(), 4);

    let mut module = module_with_used_addition();
    let patterns = vec![add_to_addi(2), add_to_modular_addition(2)];
    assert_eq!(apply_patterns(&mut module, &patterns, 10), Ok(()));
    assert_eq!(names_in_body(&module), vec!["arith.addi", "func.return"]);
}

#[test]
fn limit_of_iterations_is_reported_with_partial_result() {
    let mut builder = Builder::with_arguments(vec![Type::Integer(32), Type::Integer(32)]);
    for _ in 0..3 {
        builder
            .new_operation(
                "felt.add",
                vec![argument(0), argument(1)],
                vec![Type::Integer(32)],
                vec![],
                0,
            )
            .unwrap();
    }
    let mut module = builder.finish();
    let patterns = vec![add_to_addi(1)];
    assert_eq!(apply_patterns(&mut module, &patterns, 2), Err(Error::MaxIterationsExceeded));
    assert_eq!(names_in_body(&module), vec!["arith.addi", "arith.addi", "felt.add"]);
    assert!(can_rewrite(&module, &patterns));
    // The caller may go on from the partial result.
    assert_eq!(apply_patterns(&mut module, &patterns, 1), Ok(()));
    assert_eq!(names_in_body(&module), vec!["arith.addi", "arith.addi", "arith.addi"]);
    assert!(!rewrite_once(&mut module, &patterns));
}

#[test]
fn exactly_enough_iterations_reach_the_fixpoint() {
    let mut module = module_with_one_addition();
    let patterns = vec![add_to_addi(1)];
    assert_eq!(apply_patterns(&mut module, &patterns, 1), Ok(()));
    let mut module = module_with_one_addition();
    assert_eq!(apply_patterns(&mut module, &patterns, 0), Err(Error::MaxIterationsExceeded));
    assert_eq!(module, module_with_one_addition());
}

#[test]
fn same_patterns_on_fresh_copies_give_identical_modules() {
    let start = module_with_used_addition();
    let mut first = start.clone();
    let mut second = start.clone();
    let patterns = vec![add_to_addi(1), add_to_modular_addition(3)];
    assert_eq!(apply_patterns(&mut first, &patterns, 10), Ok(()));
    assert_eq!(apply_patterns(&mut second, &patterns, 10), Ok(()));
    assert_eq!(first, second);
    assert_ne!(first, start);
}

#[test]
fn pattern_with_wrong_arity_or_name_does_not_match() {
    let mut module = module_with_one_addition();
    let wrong_arity = Pattern::Rewrite(RewritePattern {
        benefit: 1,
        nodes: vec![
            PatternNode::Type { constant: None },
            PatternNode::Value,
            operation_node("felt.add", vec![1], vec![0]),
            operation_node("arith.addi", vec![1, 1], vec![0]),
            PatternNode::Result { operation: 3, index: 0 },
        ],
        root: 2,
        matcher_len: 3,
        replacement: vec![4],
    });
    let wrong_name = Pattern::Rewrite(RewritePattern {
        benefit: 1,
        nodes: vec![
            PatternNode::Type { constant: None },
            PatternNode::Value,
            PatternNode::Value,
            operation_node("felt.mul", vec![1, 2], vec![0]),
        ],
        root: 3,
        matcher_len: 4,
        replacement: vec![1],
    });
    let patterns = vec![wrong_arity, wrong_name];
    assert_eq!(apply_patterns(&mut module, &patterns, 10), Ok(()));
    assert_eq!(module, module_with_one_addition());
}

#[test]
fn placeholder_used_twice_must_bind_the_same_value() {
    // felt.add(a, a) -> a
    let doubled = Pattern::Rewrite(RewritePattern {
        benefit: 1,
        nodes: vec![
            PatternNode::Type { constant: None },
            PatternNode::Value,
            operation_node("felt.add", vec![1, 1], vec![0]),
        ],
        root: 2,
        matcher_len: 3,
        replacement: vec![1],
    });
    let patterns = vec![doubled];
    let mut module = module_with_used_addition();
    assert_eq!(apply_patterns(&mut module, &patterns, 10), Ok(()));
    assert_eq!(names_in_body(&module), vec!["felt.add", "func.return"]);

    let mut builder = Builder::with_arguments(vec![Type::Integer(32)]);
    let sum = builder
        .new_operation("felt.add", vec![argument(0), argument(0)], vec![Type::Integer(32)], vec![], 0)
        .unwrap();
    builder.new_operation("func.return", vec![result(sum)], vec![], vec![], 0).unwrap();
    let mut module = builder.finish();
    assert_eq!(apply_patterns(&mut module, &patterns, 10), Ok(()));
    assert_eq!(names_in_body(&module), vec!["func.return"]);
    let ret = module.get_block(0).unwrap().operations[0];
    assert_eq!(module.get_operation(ret).unwrap().operands, vec![argument(0)]);
}

#[test]
fn nested_matcher_follows_the_defining_operation() {
    // felt.add(felt.add(a, b), c) -> felt.add3(a, b, c)
    let nested = Pattern::Rewrite(RewritePattern {
        benefit: 1,
        nodes: vec![
            PatternNode::Type { constant: Some(Type::Integer(32)) },
            PatternNode::Value,
            PatternNode::Value,
            operation_node("felt.add", vec![1, 2], vec![0]),
            PatternNode::Result { operation: 3, index: 0 },
            PatternNode::Value,
            operation_node("felt.add", vec![4, 5], vec![0]),
            operation_node("felt.add3", vec![1, 2, 5], vec![0]),
            PatternNode::Result { operation: 7, index: 0 },
        ],
        root: 6,
        matcher_len: 7,
        replacement: vec![8],
    });
    let mut builder = Builder::with_arguments(vec![Type::Integer(32); 3]);
    let inner = builder
        .new_operation("felt.add", vec![argument(0), argument(1)], vec![Type::Integer(32)], vec![], 0)
        .unwrap();
    let outer = builder
        .new_operation("felt.add", vec![result(inner), argument(2)], vec![Type::Integer(32)], vec![], 0)
        .unwrap();
    builder.new_operation("func.return", vec![result(outer)], vec![], vec![], 0).unwrap();
    let mut module = builder.finish();
    assert_eq!(apply_patterns(&mut module, &vec![nested], 10), Ok(()));
    assert_eq!(names_in_body(&module), vec!["felt.add", "felt.add3", "func.return"]);
    let fused = module.get_block(0).unwrap().operations[1];
    assert_eq!(
        module.get_operation(fused).unwrap().operands,
        vec![argument(0), argument(1), argument(2)]
    );
}

#[test]
fn rewriting_an_operation_erases_what_it_encloses() {
    let wrap = Pattern::Rewrite(RewritePattern {
        benefit: 1,
        nodes: vec![
            operation_node("scope.open", vec![], vec![]),
            operation_node("scope.closed", vec![], vec![]),
        ],
        root: 0,
        matcher_len: 1,
        replacement: vec![],
    });
    let mut builder = Builder::new();
    let scope = builder.new_operation("scope.open", vec![], vec![], vec![], 1).unwrap();
    builder.append_block(scope, 0, vec![]).unwrap();
    let inner = builder.new_operation("scope.inner", vec![], vec![], vec![], 1).unwrap();
    builder.append_block(inner, 0, vec![]).unwrap();
    let innermost = builder.new_operation("scope.innermost", vec![], vec![], vec![], 0).unwrap();
    builder.end_block().unwrap();
    builder.end_block().unwrap();
    let after = builder.new_operation("scope.after", vec![], vec![], vec![], 0).unwrap();
    let mut module = builder.finish();
    assert_eq!(apply_patterns(&mut module, &vec![wrap], 10), Ok(()));
    assert!(module.get_operation(scope).unwrap().erased);
    assert!(module.get_operation(inner).unwrap().erased);
    assert!(module.get_operation(innermost).unwrap().erased);
    assert!(!module.get_operation(after).unwrap().erased);
    assert_eq!(names_in_body(&module), vec!["scope.closed", "scope.after"]);
}

#[test]
fn canonicalize_folds_literals_and_erases_what_is_unused() {
    let mut builder = Builder::new();
    let ten = literal(&mut builder, 10, 32);
    let seven = literal(&mut builder, 7, 32);
    let sum = builder
        .new_operation("arith.addi", vec![result(ten), result(seven)], vec![Type::Integer(32)], vec![], 0)
        .unwrap();
    let thirteen = literal(&mut builder, 13, 32);
    let rem = builder
        .new_operation("arith.remui", vec![result(sum), result(thirteen)], vec![Type::Integer(32)], vec![], 0)
        .unwrap();
    builder.new_operation("func.return", vec![result(rem)], vec![], vec![], 0).unwrap();
    let mut module = builder.finish();
    canonicalize(&mut module);
    assert_eq!(names_in_body(&module), vec!["arith.constant", "func.return"]);
    let body = module.get_block(0).unwrap().operations.clone();
    assert_eq!(
        module.get_operation(body[0]).unwrap().attributes,
        vec![NamedAttribute::new("value", Attribute::Integer { value: 4, ty: Type::Integer(32) })]
    );
    assert_eq!(module.get_operation(body[1]).unwrap().operands, vec![result(body[0])]);
}

#[test]
fn canonicalize_twice_is_canonicalize_once() {
    let mut builder = Builder::with_arguments(vec![Type::Integer(8)]);
    let a = literal(&mut builder, 200, 8);
    let b = literal(&mut builder, 100, 8);
    let product = builder
        .new_operation("arith.muli", vec![result(a), result(b)], vec![Type::Integer(8)], vec![], 0)
        .unwrap();
    let mixed = builder
        .new_operation("arith.subi", vec![argument(0), result(product)], vec![Type::Integer(8)], vec![], 0)
        .unwrap();
    builder.new_operation("arith.addi", vec![result(a), result(a)], vec![Type::Integer(8)], vec![], 0).unwrap();
    builder.new_operation("func.return", vec![result(mixed)], vec![], vec![], 0).unwrap();
    let mut once = builder.finish();
    canonicalize(&mut once);
    let mut twice = once.clone();
    canonicalize(&mut twice);
    assert_eq!(once, twice);
    assert!(!can_rewrite(&once, &vec![Pattern::FoldConstants, Pattern::EraseUnused]));
    assert_eq!(names_in_body(&once), vec!["arith.constant", "arith.subi", "func.return"]);
    let folded = once.get_block(0).unwrap().operations[0];
    // 200 * 100 = 20000 = 78 * 256 + 32
    assert_eq!(
        once.get_operation(folded).unwrap().attributes,
        vec![NamedAttribute::new("value", Attribute::Integer { value: 32, ty: Type::Integer(8) })]
    );
}

#[test]
fn folding_wraps_at_the_width_of_the_type() {
    let folded = |name: &str, left: u64, right: u64, width: u32| -> Option<u64> {
        let mut builder = Builder::new();
        let a = literal(&mut builder, left, width);
        let b = literal(&mut builder, right, width);
        let op = builder
            .new_operation(name, vec![result(a), result(b)], vec![Type::Integer(width)], vec![], 0)
            .unwrap();
        builder.new_operation("func.return", vec![result(op)], vec![], vec![], 0).unwrap();
        let mut module = builder.finish();
        canonicalize(&mut module);
        let body = module.get_block(0).unwrap().operations.clone();
        let first = module.get_operation(body[0]).unwrap();
        if body.len() == 2 && first.name == "arith.constant" {
            match &first.attributes[0].value {
                Attribute::Integer { value, .. } => Some(*value),
                _ => None,
            }
        } else {
            None
        }
    };
    assert_eq!(folded("arith.addi", 10, 7, 32), Some(17));
    assert_eq!(folded("arith.addi", 0xffff_ffff, 1, 32), Some(0));
    assert_eq!(folded("arith.addi", u64::MAX, u64::MAX, 64), Some(u64::MAX - 1));
    assert_eq!(folded("arith.subi", 3, 5, 8), Some(254));
    assert_eq!(folded("arith.subi", 5, 3, 8), Some(2));
    assert_eq!(folded("arith.muli", u64::MAX, u64::MAX, 64), Some(1));
    assert_eq!(folded("arith.muli", 16, 16, 8), Some(0));
    assert_eq!(folded("arith.remui", 17, 13, 32), Some(4));
    assert_eq!(folded("arith.remui", 17, 0, 32), None);
    assert_eq!(folded("arith.addi", 1, 1, 1), Some(0));
    // A literal that does not fit its type is left alone.
    assert_eq!(folded("arith.addi", 256, 1, 8), None);
    assert_eq!(folded("arith.divui", 4, 2, 8), None);
}

#[test]
fn empty_module_canonicalizes_to_itself() {
    let mut module = Module::new();
    canonicalize(&mut module);
    assert_eq!(module, Module::new());
    assert_eq!(module.operation_count(), 0);
    assert_eq!(module.live_operations(), Vec::<usize>::new());
}

#[test]
fn operations_with_effects_are_kept_though_unused() {
    let mut module = module_with_one_addition();
    canonicalize(&mut module);
    assert_eq!(module, module_with_one_addition());
}
