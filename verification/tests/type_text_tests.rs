use vex_codegen::ast::Type;
use vex_codegen::type_text::type_text;

fn named(n: &str) -> Type {
    Type::Named(n.to_string())
}

#[test]
fn types_are_shown_in_vex_notation() {
    assert_eq!(type_text(&Type::I64), "i64");
    assert_eq!(type_text(&Type::Generic { name: "Map".to_string(), type_args: vec![Type::String, Type::I32] }), "Map<string, i32>");
    assert_eq!(type_text(&Type::Reference(Box::new(named("P")), false)), "&P");
    assert_eq!(type_text(&Type::Slice(Box::new(Type::U8), true)), "&[u8]!");
    assert_eq!(type_text(&Type::Array(Box::new(Type::F32), 8)), "[f32; 8]");
    assert_eq!(type_text(&Type::Tuple(vec![Type::Bool, Type::Unit])), "(bool, ())");
    assert_eq!(
        type_text(&Type::Function { params: vec![Type::I32, Type::I32], return_type: Box::new(Type::Bool) }),
        "fn(i32, i32): bool"
    );
    assert_eq!(type_text(&Type::Union(vec![Type::I32, Type::String, Type::Nil])), "i32 | string | nil");
    assert_eq!(type_text(&Type::RawPtr { inner: Box::new(Type::U8), is_const: true }), "*u8");
    assert_eq!(type_text(&Type::RawPtr { inner: Box::new(Type::U8), is_const: false }), "*u8!");
    assert_eq!(type_text(&Type::Result(Box::new(Type::I32), Box::new(Type::Error))), "Result<i32, error>");
    assert_eq!(
        type_text(&Type::AssociatedType { self_type: Box::new(Type::SelfType), name: "Item".to_string() }),
        "Self::Item"
    );
    assert_eq!(type_text(&Type::Tuple(vec![])), "()");
}
