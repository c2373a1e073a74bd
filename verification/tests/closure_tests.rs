use vex_codegen::ast::{BinaryOp, CaptureMode, Expression, MatchArm, Param, Pattern, Statement, Type};
use vex_codegen::codegen::ASTCodeGen;
use vex_codegen::strmap::StrMap;
use vex_codegen::type_ops::types_equal;

fn id(n: &str) -> Expression {
    Expression::Ident(n.to_string())
}

fn bin(l: Expression, op: BinaryOp, r: Expression) -> Expression {
    Expression::Binary { span_id: None, left: Box::new(l), op, right: Box::new(r) }
}

fn locals(names: &[&str]) -> StrMap<()> {
    let mut m = StrMap::new();
    for n in names {
        m.insert(n.to_string(), ());
    }
    m
}

#[test]
fn free_variables_in_first_use_order() {
    let cg = ASTCodeGen::new("m");
    let body = bin(
        bin(id("b"), BinaryOp::Add, id("x")),
        BinaryOp::Mul,
        Expression::Call { span_id: None, func: Box::new(id("print")), type_args: vec![], args: vec![id("a"), id("b")] },
    );
    let params = vec![Param { name: "x".to_string(), ty: Type::I32 }];
    let free = cg.find_free_variables(&body, &params, &locals(&["a", "b", "x"]));
    assert_eq!(free, vec!["b".to_string(), "a".to_string()]);
}

#[test]
fn free_variables_in_match_guards_and_bodies() {
    let cg = ASTCodeGen::new("m");
    let body = Expression::Match {
        value: Box::new(id("v")),
        arms: vec![MatchArm { pattern: Pattern::Wildcard, guard: Some(id("g")), body: id("w") }],
    };
    let free = cg.find_free_variables(&body, &[], &locals(&["v", "g", "w"]));
    assert_eq!(free, vec!["v".to_string(), "g".to_string(), "w".to_string()]);
    let none = cg.find_free_variables(&Expression::IntLiteral(1), &[], &locals(&["v"]));
    assert!(none.is_empty());
}

#[test]
fn parameter_type_from_binary_operand() {
    let cg = ASTCodeGen::new("m");
    let body = bin(id("x"), BinaryOp::Add, Expression::IntLiteral(1));
    assert!(types_equal(&cg.infer_param_type_from_body("x", &body).unwrap(), &Type::I32));
    let body2 = bin(Expression::BoolLiteral(true), BinaryOp::And, id("y"));
    assert!(types_equal(&cg.infer_param_type_from_body("y", &body2).unwrap(), &Type::Bool));
    assert!(cg.infer_param_type_from_body("z", &id("z")).is_none());
}

#[test]
fn parameter_type_from_call_arguments_and_blocks() {
    let cg = ASTCodeGen::new("m");
    let call = Expression::Call {
        span_id: None,
        func: Box::new(id("f")),
        type_args: vec![],
        args: vec![id("q"), bin(id("x"), BinaryOp::Sub, Expression::FloatLiteral("1.5".to_string()))],
    };
    assert!(types_equal(&cg.infer_param_type_from_body("x", &call).unwrap(), &Type::F64));
    let block = Expression::Block { statements: vec![Statement::Expression(call)], return_expr: None };
    assert!(types_equal(&cg.infer_param_type_from_body("x", &block).unwrap(), &Type::F64));
}

#[test]
fn return_type_from_body() {
    let cg = ASTCodeGen::new("m");
    assert!(types_equal(&cg.infer_return_type_from_body(&bin(id("a"), BinaryOp::Lt, id("b"))).unwrap(), &Type::Bool));
    let to_s = Expression::Call { span_id: None, func: Box::new(id("i32_to_string")), type_args: vec![], args: vec![id("n")] };
    assert!(types_equal(&cg.infer_return_type_from_body(&to_s).unwrap(), &Type::String));
    let block = Expression::Block {
        statements: vec![Statement::Expression(bin(Expression::IntLiteral(2), BinaryOp::Mul, id("k")))],
        return_expr: None,
    };
    assert!(types_equal(&cg.infer_return_type_from_body(&block).unwrap(), &Type::I32));
    assert!(cg.infer_return_type_from_body(&id("k")).is_none());
}

#[test]
fn closures_get_a_struct_implementing_their_trait() {
    let mut cg = ASTCodeGen::new("m");
    let params = vec![Param { name: "x".to_string(), ty: Type::I32 }];
    cg.generate_closure_struct("adder", &params, &Some(Type::I64), &CaptureMode::Mutable).unwrap();
    assert!(cg.has_struct("Adder"));
    assert!(!cg.has_struct("adder"));
    let info = cg.struct_info("Adder").unwrap();
    assert!(!info.is_generic);
    assert!(info.fields.is_empty());
    assert_eq!(info.impl_traits.len(), 1);
    assert_eq!(info.impl_traits[0].name, "CallableMut");
    assert_eq!(info.methods.len(), 1);
    assert_eq!(info.methods[0].name, "call_mut");
    assert!(matches!(&info.methods[0].receiver, Some(Type::Reference(inner, true)) if matches!(&**inner, Type::Named(n) if n == "Adder")));
    assert!(matches!(info.methods[0].param_types.as_slice(), [Type::I32]));
    assert!(matches!(info.methods[0].return_type, Some(Type::I64)));
    assert_eq!(cg.struct_field_index("Adder", "x"), Err("Struct 'Adder' not found".to_string()));

    cg.generate_closure_struct("__closure_1", &[], &None, &CaptureMode::Infer).unwrap();
    let c = cg.struct_info("__closure_1").unwrap();
    assert_eq!(c.impl_traits[0].name, "Callable");
    assert_eq!(c.methods[0].name, "call");
    assert!(matches!(&c.methods[0].receiver, Some(Type::Reference(_, false))));
    cg.generate_closure_struct("once", &[], &None, &CaptureMode::Once).unwrap();
    assert_eq!(cg.struct_info("Once").unwrap().impl_traits[0].name, "CallableOnce");
    assert_eq!(cg.struct_info("Once").unwrap().methods[0].name, "call_once");
}
