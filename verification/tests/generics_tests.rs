use vex_codegen::ast::{BinaryOp, Block, Expression, Function, Param, Receiver, Statement, Type, TypeParam};
use vex_codegen::codegen::ASTCodeGen;
use vex_codegen::generics::{build_type_substitution, generic_method_instance_name, is_method_to_instantiate, substitute_type};
use vex_codegen::strmap::StrMap;
use vex_codegen::type_ops::types_equal;

fn named(n: &str) -> Type {
    Type::Named(n.to_string())
}

fn subst_t_i32() -> StrMap<Type> {
    let mut m = StrMap::new();
    m.insert("T".to_string(), Type::I32);
    m
}

fn generic_fn() -> Function {
    Function {
        name: "identity".to_string(),
        type_params: vec![TypeParam { name: "T".to_string(), default_type: None }],
        params: vec![Param { name: "x".to_string(), ty: named("T") }],
        return_type: Some(named("T")),
        receiver: None,
        body: Block {
            statements: vec![
                Statement::Let {
                    name: "y".to_string(),
                    ty: Some(named("T")),
                    value: Expression::Cast { expr: Box::new(Expression::Ident("x".to_string())), target_type: named("T") },
                    is_mutable: false,
                },
                Statement::Return { span_id: None, value: Some(Expression::Ident("y".to_string())) },
            ],
        },
        is_mutable: false,
        is_static: false,
        static_type: None,
    }
}

#[test]
fn substitute_type_replaces_parameters_everywhere() {
    let m = subst_t_i32();
    let t = Type::Generic { name: "Map".to_string(), type_args: vec![named("T"), Type::Vec(Box::new(named("T")))] };
    let r = substitute_type(&t, &m);
    let expected = Type::Generic { name: "Map".to_string(), type_args: vec![Type::I32, Type::Vec(Box::new(Type::I32))] };
    assert!(types_equal(&r, &expected));
    assert!(types_equal(&substitute_type(&named("U"), &m), &named("U")));
    assert!(types_equal(&substitute_type(&Type::Bool, &StrMap::new()), &Type::Bool));
}

#[test]
fn function_specialization_substitutes_signature_and_body() {
    let cg = ASTCodeGen::new("m");
    let f = cg.substitute_types_in_function(generic_fn(), &subst_t_i32()).unwrap();
    assert_eq!(f.name, "identity_i32");
    let mut two = StrMap::new();
    two.insert("K".to_string(), Type::String);
    two.insert("V".to_string(), Type::Vec(Box::new(Type::I64)));
    assert_eq!(cg.substitute_types_in_function(generic_fn(), &two).unwrap().name, "identity_string_Vec<i64>");
    assert!(f.type_params.is_empty());
    assert!(types_equal(&f.params[0].ty, &Type::I32));
    assert_eq!(f.params[0].name, "x");
    assert!(types_equal(f.return_type.as_ref().unwrap(), &Type::I32));
    match &f.body.statements[0] {
        Statement::Let { ty: Some(t), value: Expression::Cast { target_type, .. }, .. } => {
            assert!(types_equal(t, &Type::I32));
            assert!(types_equal(target_type, &Type::I32));
        }
        _ => panic!("let statement expected"),
    }
}

#[test]
fn expression_substitution_leaves_other_expressions() {
    let cg = ASTCodeGen::new("m");
    let e = Expression::Binary {
        span_id: Some(3),
        left: Box::new(Expression::Call {
            span_id: None,
            func: Box::new(Expression::Ident("make".to_string())),
            type_args: vec![named("T")],
            args: vec![Expression::IntLiteral(1)],
        }),
        op: BinaryOp::Add,
        right: Box::new(Expression::StringLiteral("s".to_string())),
    };
    match cg.substitute_types_in_expression(e, &subst_t_i32()) {
        Expression::Binary { span_id, left, right, .. } => {
            assert_eq!(span_id, Some(3));
            match *left {
                Expression::Call { type_args, args, .. } => {
                    assert!(types_equal(&type_args[0], &Type::I32));
                    assert!(matches!(args[0], Expression::IntLiteral(1)));
                }
                _ => panic!("call expected"),
            }
            assert!(matches!(*right, Expression::StringLiteral(ref s) if s == "s"));
        }
        _ => panic!("binary expected"),
    }
}

#[test]
fn method_specialization_points_at_specialized_struct() {
    let cg = ASTCodeGen::new("m");
    let method = Function {
        name: "Box_get".to_string(),
        type_params: vec![],
        params: vec![
            Param { name: "other".to_string(), ty: Type::Reference(Box::new(Type::Generic { name: "Box".to_string(), type_args: vec![named("T")] }), false) },
            Param { name: "v".to_string(), ty: named("T") },
            Param { name: "n".to_string(), ty: Type::I64 },
        ],
        return_type: Some(named("T")),
        receiver: Some(Receiver { ty: Type::Reference(Box::new(named("Box")), true) }),
        body: Block { statements: vec![] },
        is_mutable: false,
        is_static: false,
        static_type: None,
    };
    let f = cg.substitute_types_in_method(method, &subst_t_i32(), "Box", "Box_i32").unwrap();
    assert_eq!(f.name, "Box_i32_get");
    assert!(types_equal(&f.receiver.as_ref().unwrap().ty, &Type::Reference(Box::new(named("Box_i32")), true)));
    assert!(types_equal(&f.params[0].ty, &Type::Reference(Box::new(named("Box_i32")), false)));
    assert!(types_equal(&f.params[1].ty, &Type::I32));
    assert!(types_equal(&f.params[2].ty, &Type::I64));
    assert!(types_equal(f.return_type.as_ref().unwrap(), &Type::I32));

    let plain = Function { name: "len".to_string(), ..generic_fn() };
    let g = cg.substitute_types_in_method(plain, &subst_t_i32(), "Box", "Box_i32").unwrap();
    assert_eq!(g.name, "Box_i32_len");
    assert!(types_equal(&g.params[0].ty, &Type::I32));
}

#[test]
fn type_substitution_uses_arguments_then_defaults() {
    let mut f = generic_fn();
    f.type_params.push(TypeParam { name: "U".to_string(), default_type: Some(Type::Bool) });
    let s = build_type_substitution(&f, &[Type::F64]).unwrap();
    assert_eq!(s.len(), 2);
    assert!(types_equal(s.get("T").unwrap(), &Type::F64));
    assert!(types_equal(s.get("U").unwrap(), &Type::Bool));
    let e = build_type_substitution(&generic_fn(), &[]).err().unwrap();
    assert_eq!(e, "Missing type argument for parameter 'T' in function 'identity'");
}

#[test]
fn generic_method_instances_are_named_by_type_arguments() {
    let none: Vec<String> = vec![];
    assert_eq!(generic_method_instance_name("Vec", &none, "len"), "Vec_len");
    let one = vec!["i32".to_string()];
    assert_eq!(generic_method_instance_name("Vec", &one, "push"), "Vec_i32_push");
    let two = vec!["String".to_string(), "i32".to_string()];
    assert_eq!(
        generic_method_instance_name("HashMap", &two, "insert"),
        "HashMap_String_i32_insert"
    );
}

fn method(name: &str, with_receiver: bool, first_param: Option<&str>) -> Function {
    Function {
        name: name.to_string(),
        type_params: vec![],
        params: first_param.map(|p| vec![Param { name: p.to_string(), ty: Type::I32 }]).unwrap_or_default(),
        return_type: None,
        receiver: if with_receiver { Some(Receiver { ty: Type::Named("HashMap".to_string()) }) } else { None },
        body: Block { statements: vec![] },
        is_mutable: false,
        is_static: false,
        static_type: None,
    }
}

#[test]
fn methods_to_instantiate_are_uninstantiated_methods_of_the_struct() {
    assert!(is_method_to_instantiate("HashMap", "HashMap_insert", &method("HashMap_insert", true, None)));
    assert!(is_method_to_instantiate("HashMap", "HashMap_len", &method("HashMap_len", false, Some("self"))));
    assert!(!is_method_to_instantiate("HashMap", "HashMap_new", &method("HashMap_new", false, Some("cap"))));
    assert!(!is_method_to_instantiate("HashMap", "HashMap_new", &method("HashMap_new", false, None)));
    assert!(!is_method_to_instantiate("HashMap", "HashMap_str_i32_get", &method("get", true, None)));
    assert!(!is_method_to_instantiate("HashMap", "HashMap_get_i64_1", &method("get", true, None)));
    assert!(!is_method_to_instantiate("HashMap", "HashMap_i32_get", &method("get", true, None)));
    assert!(!is_method_to_instantiate("HashMap", "HashMapinsert", &method("insert", true, None)));
    assert!(!is_method_to_instantiate("HashMap", "Vec_push", &method("push", true, None)));
}

#[test]
fn substituting_nothing_keeps_the_expression() {
    let cg = ASTCodeGen::new("m");
    let e = Expression::Cast { expr: Box::new(Expression::Ident("x".to_string())), target_type: named("T") };
    match cg.substitute_types_in_expression(e, &StrMap::new()) {
        Expression::Cast { expr, target_type } => {
            assert!(matches!(*expr, Expression::Ident(ref n) if n == "x"));
            assert!(types_equal(&target_type, &named("T")));
        }
        _ => panic!("cast expected"),
    }
}

#[test]
fn substituting_each_parameter_by_itself_keeps_the_statement() {
    let cg = ASTCodeGen::new("m");
    let mut same = StrMap::new();
    same.insert("T".to_string(), named("T"));
    let s = Statement::Expression(Expression::Cast { expr: Box::new(Expression::Ident("x".to_string())), target_type: named("T") });
    match cg.substitute_types_in_statement(s, &same) {
        Statement::Expression(Expression::Cast { target_type, .. }) => assert!(types_equal(&target_type, &named("T"))),
        _ => panic!("cast statement expected"),
    }
}
