use dialect_rust::types::Type;

#[test]
fn integer_types_compare_by_width() {
    assert_eq!(Type::Integer(32), Type::i32());
    assert_ne!(Type::Integer(32), Type::Integer(16));
}

#[test]
fn function_types_compare_structurally() {
    let a = Type::Function(vec![Type::i32(), Type::Float64], vec![Type::Pointer]);
    let b = Type::Function(vec![Type::i32(), Type::Float64], vec![Type::Pointer]);
    let c = Type::Function(vec![Type::i32()], vec![Type::Float64, Type::Pointer]);
    assert_eq!(a, b);
    assert_ne!(a, c);
    assert_eq!(a.clone(), a);
}
