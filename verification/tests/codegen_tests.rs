use vex_codegen::ast::{
    Block, Enum, EnumVariant, Field, Function, Param, Pattern, Receiver, Statement, Struct, Trait, TraitImpl,
    TraitMethod, TraitRef, Type, TypeParam,
};
use vex_codegen::codegen::{binary_op_to_trait, declared_function_name, ASTCodeGen};
use vex_codegen::ast::BinaryOp;
use vex_codegen::ast::Expression;

fn empty_fn(name: &str, params: Vec<Param>) -> Function {
    Function {
        name: name.to_string(),
        type_params: vec![],
        params,
        return_type: None,
        receiver: None,
        body: Block { statements: vec![] },
        is_mutable: false,
        is_static: false,
        static_type: None,
    }
}

fn param(name: &str, ty: Type) -> Param {
    Param { name: name.to_string(), ty }
}

fn simple_struct(name: &str, fields: Vec<(&str, Type)>) -> Struct {
    Struct {
        name: name.to_string(),
        type_params: vec![],
        fields: fields
            .into_iter()
            .map(|(n, t)| Field { name: n.to_string(), ty: t, metadata: None })
            .collect(),
        methods: vec![],
        impl_traits: vec![],
        policies: vec![],
    }
}

fn enum_of(name: &str, variants: &[&str]) -> Enum {
    Enum {
        name: name.to_string(),
        type_params: vec![],
        variants: variants.iter().map(|v| EnumVariant { name: v.to_string() }).collect(),
    }
}

#[test]
fn builtin_enum_variants_are_found() {
    let cg = ASTCodeGen::new("m");
    assert_eq!(cg.find_enum_and_variant_index("Some"), Some(("Option".to_string(), 0)));
    assert_eq!(cg.find_enum_and_variant_index("None"), Some(("Option".to_string(), 1)));
    assert_eq!(cg.find_enum_and_variant_index("Ok"), Some(("Result".to_string(), 0)));
    assert_eq!(cg.find_enum_and_variant_index("Err"), Some(("Result".to_string(), 1)));
    assert_eq!(cg.find_enum_and_variant_index("Red"), None);
}

#[test]
fn registered_enum_variants_are_found_by_position() {
    let mut cg = ASTCodeGen::new("m");
    assert!(cg.register_enum(&enum_of("Color", &["Red", "Green", "Blue"])).is_ok());
    assert!(cg.register_enum(&enum_of("Light", &["Green", "Off"])).is_ok());
    assert_eq!(cg.find_enum_and_variant_index("Blue"), Some(("Color".to_string(), 2)));
    assert_eq!(cg.find_enum_and_variant_index("Green"), Some(("Color".to_string(), 1)));
    assert_eq!(cg.find_enum_and_variant_index("Off"), Some(("Light".to_string(), 1)));
    assert!(cg.is_enum_variant("Off"));
    assert!(!cg.is_enum_variant("Purple"));
    assert_eq!(cg.find_enum_and_variant_index_by_name("Light", "Green"), Ok(("Light".to_string(), 0)));
    assert_eq!(cg.find_enum_and_variant_index_by_name("", "Blue"), Ok(("Color".to_string(), 2)));
}

#[test]
fn enum_lookup_errors() {
    let mut cg = ASTCodeGen::new("m");
    cg.register_enum(&enum_of("Color", &["Red"])).unwrap();
    assert_eq!(
        cg.find_enum_and_variant_index_by_name("", "Purple").err().unwrap(),
        "Cannot find enum for variant 'Purple'"
    );
    assert_eq!(cg.find_enum_and_variant_index_by_name("Shape", "Red").err().unwrap(), "Enum 'Shape' not found");
    assert_eq!(
        cg.find_enum_and_variant_index_by_name("Color", "Blue").err().unwrap(),
        "Variant 'Blue' not found in enum 'Color'"
    );
    assert_eq!(
        cg.find_enum_and_variant_index_by_name("Option", "Maybe").err().unwrap(),
        "Unknown variant 'Maybe' for builtin enum 'Option'"
    );
}

#[test]
fn catch_all_patterns() {
    let mut cg = ASTCodeGen::new("m");
    cg.register_enum(&enum_of("Color", &["Red"])).unwrap();
    assert!(cg.is_catch_all_pattern(&Pattern::Wildcard));
    assert!(cg.is_catch_all_pattern(&Pattern::Ident("x".to_string())));
    assert!(!cg.is_catch_all_pattern(&Pattern::Ident("Red".to_string())));
    assert!(!cg.is_catch_all_pattern(&Pattern::Tuple(vec![])));
}

#[test]
fn structs_and_trait_impls_are_registered() {
    let mut cg = ASTCodeGen::new("m");
    let mut s = simple_struct("Point", vec![("x", Type::I32)]);
    s.impl_traits = vec![TraitRef { name: "Add".to_string(), type_args: vec![] }];
    s.methods = vec![empty_fn("op+", vec![param("rhs", Type::Named("Point".to_string()))])];
    cg.register_struct(&s).unwrap();
    assert!(cg.has_struct("Point"));
    assert!(!cg.has_struct("Line"));
    assert_eq!(cg.has_operator_trait("Point", "Add"), Some("op+".to_string()));
    assert_eq!(cg.has_operator_trait("Point", "Sub"), None);

    let imp = TraitImpl {
        trait_name: "Display".to_string(),
        for_type: Type::Named("Point".to_string()),
        methods: vec![empty_fn("show", vec![])],
    };
    assert!(cg.register_trait_impl(&imp).is_ok());
    assert_eq!(cg.has_operator_trait("Point", "Display"), Some("show".to_string()));
    assert_eq!(cg.lookup_function_name("Point_Display_show", None), Some("Point_Display_show".to_string()));

    let bad = TraitImpl { trait_name: "Display".to_string(), for_type: Type::I32, methods: vec![] };
    let e = cg.register_trait_impl(&bad).err().unwrap();
    assert_eq!(e, "Trait implementations currently only support named types, got: i32");
    let bad_ref = TraitImpl {
        trait_name: "Display".to_string(),
        for_type: Type::Reference(Box::new(Type::Vec(Box::new(Type::Named("Point".to_string())))), true),
        methods: vec![],
    };
    assert_eq!(
        cg.register_trait_impl(&bad_ref).err().unwrap(),
        "Trait implementations currently only support named types, got: &Vec<Point>!"
    );
}

#[test]
fn traits_and_policies_cannot_share_names() {
    let mut cg = ASTCodeGen::new("m");
    let t = Trait { name: "Shape".to_string(), methods: vec![TraitMethod { name: "area".to_string() }] };
    cg.register_trait(&t).unwrap();
    let p = vex_codegen::policy::Policy { name: "Shape".to_string(), fields: vec![], parent_policies: vec![] };
    assert_eq!(cg.register_policy(p).err().unwrap(), "Policy 'Shape' conflicts with existing trait of the same name");
}

#[test]
fn operators_map_to_traits() {
    assert_eq!(binary_op_to_trait(&BinaryOp::Add), ("Add", "add"));
    assert_eq!(binary_op_to_trait(&BinaryOp::Mod), ("Rem", "rem"));
    assert_eq!(binary_op_to_trait(&BinaryOp::Lt), ("Lt", "lt"));
    assert_eq!(binary_op_to_trait(&BinaryOp::And), ("", ""));
}

#[test]
fn function_registration_prefers_shorter_mangled_name() {
    let mut cg = ASTCodeGen::new("m");
    cg.register_function("add", "add_i32_i32_2");
    assert_eq!(cg.lookup_function_name("add", None), Some("add".to_string()));
    assert_eq!(cg.lookup_function_name("add_i32_i32_2", None), Some("add_i32_i32_2".to_string()));
    assert_eq!(cg.lookup_function_name("sub", None), None);
    let def = empty_fn("mul", vec![param("a", Type::I32)]);
    cg.register_function("mul_i32_1", "mul_i32_1");
    assert_eq!(cg.lookup_function_name("mul", Some(&def)), Some("mul_i32_1".to_string()));
}

#[test]
fn scopes_clean_up_last_registered_first() {
    let mut cg = ASTCodeGen::new("m");
    assert!(cg.pop_scope().is_empty());
    cg.push_scope();
    cg.register_for_cleanup("a".to_string(), "Vec".to_string());
    cg.register_for_cleanup("n".to_string(), "i32".to_string());
    cg.register_for_cleanup("b".to_string(), "String".to_string());
    let actions = cg.pop_scope();
    assert_eq!(actions.len(), 2);
    assert_eq!(actions[0].var_name, "b");
    assert_eq!(actions[0].cleanup_fn, "vex_string_free");
    assert_eq!(actions[1].var_name, "a");
    assert_eq!(actions[1].cleanup_fn, "vec_free");
    cg.push_scope();
    assert!(cg.pop_scope().is_empty());
}

#[test]
fn registering_outside_a_scope_does_nothing() {
    let mut cg = ASTCodeGen::new("m");
    cg.register_for_cleanup("a".to_string(), "Vec".to_string());
    cg.push_scope();
    assert!(cg.pop_scope().is_empty());
}

#[test]
fn deferred_statements_run_last_first() {
    let mut cg = ASTCodeGen::new("m");
    cg.defer_statement(Statement::Expression(Expression::IntLiteral(1)));
    cg.defer_statement(Statement::Expression(Expression::IntLiteral(2)));
    let order = cg.deferred_statements_in_exit_order();
    assert_eq!(order.len(), 2);
    assert!(matches!(order[0], Statement::Expression(Expression::IntLiteral(2))));
    assert!(matches!(order[1], Statement::Expression(Expression::IntLiteral(1))));
    cg.clear_deferred_statements();
    assert!(cg.deferred_statements_in_exit_order().is_empty());
}

#[test]
fn struct_cycles_are_detected() {
    let mut cg = ASTCodeGen::new("m");
    let a = simple_struct("A", vec![("b", Type::Named("B".to_string()))]);
    let b = simple_struct("B", vec![("a", Type::Array(Box::new(Type::Named("A".to_string())), 2))]);
    let c = simple_struct("C", vec![("x", Type::I32), ("r", Type::Reference(Box::new(Type::Named("A".to_string())), false))]);
    cg.register_struct(&a).unwrap();
    cg.register_struct(&b).unwrap();
    cg.register_struct(&c).unwrap();
    let e = cg.check_circular_struct_dependencies(&[a, b, c]).err().unwrap();
    assert_eq!(e, "Circular dependency detected in struct definitions: A -> B -> A");
}

#[test]
fn acyclic_structs_pass_and_self_reference_fails() {
    let mut cg = ASTCodeGen::new("m");
    let a = simple_struct("A", vec![("x", Type::I32)]);
    let b = simple_struct("B", vec![("a", Type::Named("A".to_string())), ("v", Type::Vec(Box::new(Type::Named("B".to_string()))))]);
    cg.register_struct(&a).unwrap();
    cg.register_struct(&b).unwrap();
    assert!(cg.check_circular_struct_dependencies(&[a, b]).is_ok());
    let s = simple_struct("S", vec![("me", Type::Named("S".to_string()))]);
    cg.register_struct(&s).unwrap();
    assert_eq!(
        cg.check_circular_struct_dependencies(&[s]).err().unwrap(),
        "Circular dependency detected in struct definitions: S -> S"
    );
}

#[test]
fn struct_dependency_of_field_types() {
    let mut cg = ASTCodeGen::new("m");
    cg.register_struct(&simple_struct("A", vec![])).unwrap();
    assert_eq!(cg.extract_struct_dependency(&Type::Named("A".to_string())), Some("A".to_string()));
    assert_eq!(
        cg.extract_struct_dependency(&Type::Reference(Box::new(Type::Array(Box::new(Type::Named("A".to_string())), 3)), true)),
        Some("A".to_string())
    );
    assert_eq!(cg.extract_struct_dependency(&Type::Option(Box::new(Type::Named("A".to_string())))), None);
    assert_eq!(cg.extract_struct_dependency(&Type::Named("Z".to_string())), None);
}

#[test]
fn param_struct_names_are_tracked() {
    let mut cg = ASTCodeGen::new("m");
    cg.register_struct(&simple_struct("P", vec![])).unwrap();
    cg.track_param_struct_name("p", &Type::Named("P".to_string()), None);
    cg.track_param_struct_name("q", &Type::Named("Q".to_string()), None);
    cg.track_param_struct_name("g", &Type::Generic { name: "Box".to_string(), type_args: vec![Type::I32] }, Some("Box_i32"));
    cg.track_param_struct_name("h", &Type::Generic { name: "Box".to_string(), type_args: vec![Type::I32] }, None);
}

#[test]
fn struct_method_names() {
    let mut cg = ASTCodeGen::new("m");
    let t = Trait { name: "Add".to_string(), methods: vec![TraitMethod { name: "op+".to_string() }] };
    cg.register_trait(&t).unwrap();
    let mut s = simple_struct("Vec2", vec![]);
    s.impl_traits = vec![TraitRef { name: "Add".to_string(), type_args: vec![Type::I32] }];
    cg.register_struct(&s).unwrap();
    let add_i32 = empty_fn("op+", vec![param("rhs", Type::I32)]);
    assert_eq!(cg.struct_method_mangled_name("Vec2", &add_i32), "Vec2_opadd_i32_2");
    let add_f64 = empty_fn("op+", vec![param("rhs", Type::F64)]);
    assert_eq!(cg.struct_method_mangled_name("Vec2", &add_f64), "Vec2_opadd_2");
    let len = empty_fn("len", vec![]);
    assert_eq!(cg.struct_method_mangled_name("Vec2", &len), "Vec2_len");
    let idx = empty_fn("op[]", vec![param("i", Type::I32)]);
    assert_eq!(cg.struct_method_mangled_name("Vec2", &idx), "Vec2_opindex");
}

#[test]
fn generic_methods_need_instantiation() {
    let mut cg = ASTCodeGen::new("m");
    let mut g = simple_struct("Box", vec![]);
    g.type_params = vec![TypeParam { name: "T".to_string(), default_type: None }];
    cg.register_struct(&g).unwrap();
    cg.register_struct(&simple_struct("Plain", vec![])).unwrap();
    let m = empty_fn("get", vec![]);
    assert!(cg.method_needs_instantiation(&m, "Box"));
    assert!(!cg.method_needs_instantiation(&m, "Plain"));
    let mut gm = empty_fn("map", vec![]);
    gm.type_params = vec![TypeParam { name: "U".to_string(), default_type: None }];
    assert!(cg.method_needs_instantiation(&gm, "Plain"));
    let _ = Receiver { ty: Type::SelfType };
}

#[test]
fn struct_fields_are_found_by_position() {
    let mut cg = ASTCodeGen::new("m");
    cg.register_struct(&simple_struct("Point", vec![("x", Type::I32), ("y", Type::I64)])).unwrap();
    assert_eq!(cg.struct_field_index("Point", "x"), Ok(0));
    assert_eq!(cg.struct_field_index("Point", "y"), Ok(1));
    assert_eq!(cg.struct_field_index("Point", "z"), Err("Field 'z' not found in struct 'Point'".to_string()));
    assert_eq!(cg.struct_field_index("Line", "x"), Err("Struct 'Line' not found".to_string()));
}

fn generic_pair() -> Struct {
    let mut s = simple_struct(
        "Pair",
        vec![("first", Type::Named("T".to_string())), ("second", Type::Named("U".to_string()))],
    );
    s.type_params = vec![
        TypeParam { name: "T".to_string(), default_type: None },
        TypeParam { name: "U".to_string(), default_type: None },
    ];
    s
}

#[test]
fn struct_type_arguments_map_struct_parameters() {
    let mut cg = ASTCodeGen::new("m");
    cg.register_struct(&generic_pair()).unwrap();
    let s = cg.struct_method_type_substitution("Pair", &[Type::I64, Type::Bool]);
    assert_eq!(s.len(), 2);
    assert!(matches!(s.get("T"), Some(Type::I64)));
    assert!(matches!(s.get("U"), Some(Type::Bool)));
    let partial = cg.struct_method_type_substitution("Pair", &[Type::F64]);
    assert_eq!(partial.len(), 1);
    assert!(matches!(partial.get("T"), Some(Type::F64)));
    assert!(partial.get("U").is_none());
    let defaulted = cg.struct_method_type_substitution("Pair", &[]);
    assert!(matches!(defaulted.get("T"), Some(Type::I32)));
    assert!(matches!(defaulted.get("U"), Some(Type::I32)));
    assert_eq!(cg.struct_method_type_substitution("Missing", &[Type::I64]).len(), 0);
}

#[test]
fn instantiated_struct_gets_substituted_layout_once() {
    let mut cg = ASTCodeGen::new("m");
    cg.register_struct(&generic_pair()).unwrap();
    assert_eq!(cg.struct_field_index("Pair_i64_bool", "second"), Err("Struct 'Pair_i64_bool' not found".to_string()));
    let s = cg.struct_method_type_substitution("Pair", &[Type::I64, Type::Bool]);
    cg.register_instance_layout("Pair_i64_bool", &s);
    assert_eq!(cg.struct_field_index("Pair_i64_bool", "first"), Ok(0));
    let fields = cg.struct_fields("Pair_i64_bool").unwrap();
    assert!(matches!(fields[0].1, Type::I64));
    assert!(matches!(fields[1].1, Type::Bool));
    assert_eq!(cg.struct_field_index("Pair_i64_bool", "second"), Ok(1));
    assert!(!cg.has_struct("Pair_i64_bool"));
    cg.register_instance_layout("Other_i64", &s);
    assert_eq!(cg.struct_field_index("Other_i64", "first"), Err("Struct 'Other_i64' not found".to_string()));
}

fn method_on(receiver_ty: Type, type_params: &[&str]) -> Function {
    let mut f = empty_fn("get", vec![]);
    f.receiver = Some(Receiver { ty: receiver_ty });
    f.type_params = type_params.iter().map(|t| TypeParam { name: t.to_string(), default_type: None }).collect();
    f
}

#[test]
fn methods_on_generic_structs_are_not_declared_up_front() {
    let mut cg = ASTCodeGen::new("m");
    cg.register_struct(&generic_pair()).unwrap();
    cg.register_struct(&simple_struct("Point", vec![("x", Type::I32)])).unwrap();
    let mut vec_struct = simple_struct("Vec", vec![]);
    vec_struct.type_params = vec![TypeParam { name: "T".to_string(), default_type: None }];
    cg.register_struct(&vec_struct).unwrap();

    let on_pair = method_on(Type::Reference(Box::new(Type::Named("Pair".to_string())), false), &[]);
    assert!(cg.is_method_on_generic_struct(&on_pair));
    assert!(!cg.is_declared_up_front(&on_pair));

    let on_point = method_on(Type::Reference(Box::new(Type::Named("Point".to_string())), true), &[]);
    assert!(!cg.is_method_on_generic_struct(&on_point));
    assert!(cg.is_declared_up_front(&on_point));

    let generic_method = method_on(Type::Named("Point".to_string()), &["U"]);
    assert!(!cg.is_method_on_generic_struct(&generic_method));
    assert!(!cg.is_declared_up_front(&generic_method));

    let on_vec = method_on(Type::Reference(Box::new(Type::Vec(Box::new(Type::I32))), false), &[]);
    assert!(cg.is_method_on_generic_struct(&on_vec));
    let on_box = method_on(Type::Box(Box::new(Type::I32)), &[]);
    assert!(!cg.is_method_on_generic_struct(&on_box));

    let free = empty_fn("main", vec![]);
    assert!(!cg.is_method_on_generic_struct(&free));
    assert!(cg.is_declared_up_front(&free));
}

#[test]
fn functions_are_declared_under_qualified_names() {
    let free = empty_fn("main", vec![]);
    assert_eq!(declared_function_name(&free), Ok("main".to_string()));

    let mut stat = empty_fn("op+", vec![]);
    stat.is_static = true;
    stat.static_type = Some("Vec2".to_string());
    assert_eq!(declared_function_name(&stat), Ok("Vec2_opadd".to_string()));
    stat.name = "Vec2_new".to_string();
    assert_eq!(declared_function_name(&stat), Ok("Vec2_new".to_string()));
    stat.static_type = None;
    assert_eq!(declared_function_name(&stat), Err("Static method missing type name".to_string()));

    let m = method_on(Type::Reference(Box::new(Type::Named("Point".to_string())), false), &[]);
    assert_eq!(declared_function_name(&m), Ok("Point_get".to_string()));
    let op = {
        let mut f = method_on(Type::Named("Point".to_string()), &[]);
        f.name = "op+".to_string();
        f
    };
    assert_eq!(declared_function_name(&op), Ok("Point_op+".to_string()));
    let on_vec = method_on(Type::Vec(Box::new(Type::I32)), &[]);
    assert_eq!(declared_function_name(&on_vec), Ok("Vec_get".to_string()));
    let bad = method_on(Type::Reference(Box::new(Type::I32), false), &[]);
    assert_eq!(
        declared_function_name(&bad),
        Err("Receiver must be a named type or reference to named type, got i32".to_string())
    );
}

#[test]
fn compiled_functions_must_be_declared() {
    let mut cg = ASTCodeGen::new("m");
    let get = method_on(Type::Reference(Box::new(Type::Named("Point".to_string())), false), &[]);
    assert_eq!(cg.compiled_function_name(&get), Err("Function Point_get not declared".to_string()));
    cg.register_function("Point_get", "Point_get");
    assert_eq!(cg.compiled_function_name(&get), Ok("Point_get".to_string()));

    let mut add = method_on(Type::Named("Point".to_string()), &[]);
    add.name = "op+".to_string();
    add.params = vec![param("other", Type::Named("Point".to_string()))];
    cg.register_function("Point_opadd", "Point_opadd_Point_1");
    assert_eq!(cg.compiled_function_name(&add), Ok("Point_opadd_Point_1".to_string()));

    let main = empty_fn("main", vec![]);
    assert_eq!(cg.compiled_function_name(&main), Err("Function main not declared".to_string()));
    cg.register_function("main", "main");
    assert_eq!(cg.compiled_function_name(&main), Ok("main".to_string()));

    let bad = method_on(Type::Tuple(vec![]), &[]);
    assert_eq!(
        cg.compiled_function_name(&bad),
        Err("Receiver must be a named type or reference to named type, got ()".to_string())
    );
}

#[test]
fn generic_structs_are_instantiated_once() {
    let mut cg = ASTCodeGen::new("m");
    cg.register_struct(&generic_pair()).unwrap();
    assert_eq!(cg.instantiate_generic_struct("Pair", &[Type::I64, Type::Bool]), Ok("Pair_i64_bool".to_string()));
    assert_eq!(cg.struct_field_index("Pair_i64_bool", "second"), Ok(1));
    let fields = cg.struct_fields("Pair_i64_bool").unwrap();
    assert_eq!(fields.len(), 2);
    assert!(matches!(fields[0].1, Type::I64));
    assert!(matches!(fields[1].1, Type::Bool));
    assert!(matches!(cg.struct_fields("Pair").map(|f| f.len()), None));
    assert_eq!(cg.instantiate_generic_struct("Pair", &[Type::I64, Type::Bool]), Ok("Pair_i64_bool".to_string()));
    assert_eq!(
        cg.instantiate_generic_struct("Pair", &[Type::I64]),
        Err("Struct 'Pair' expects 2 type parameters, got 1".to_string())
    );
    assert_eq!(
        cg.instantiate_generic_struct("Nope", &[Type::I64]),
        Err("Generic struct 'Nope' not found".to_string())
    );
    assert_eq!(cg.struct_field_index("Pair_i64", "first"), Err("Struct 'Pair_i64' not found".to_string()));
    assert_eq!(
        cg.instantiate_generic_struct("Pair", &[Type::Vec(Box::new(Type::I32)), Type::String]),
        Ok("Pair_Vec<i32>_string".to_string())
    );
}

#[test]
fn generic_nesting_is_limited() {
    let mut cg = ASTCodeGen::new("m");
    cg.register_struct(&generic_pair()).unwrap();
    let mut deep = Type::I32;
    for _ in 0..64 {
        deep = Type::Vec(Box::new(deep));
    }
    assert!(cg.instantiate_generic_struct("Pair", &[deep, Type::Bool]).is_ok());
    let mut deeper = Type::I32;
    for _ in 0..65 {
        deeper = Type::Option(Box::new(deeper));
    }
    let e = cg.instantiate_generic_struct("Nope", &[Type::Bool, deeper]).unwrap_err();
    assert!(e.starts_with("Generic type nesting too deep (depth 65, max 64): Option<Option<"));
    assert!(e.ends_with(&format!("<i32{}", ">".repeat(65))));
}

#[test]
fn module_namespaces_are_registered() {
    let mut cg = ASTCodeGen::new("m");
    assert!(cg.module_namespace("math").is_none());
    cg.register_module_namespace("math".to_string(), vec!["sin".to_string(), "cos".to_string()]);
    assert_eq!(cg.module_namespace("math"), Some(&vec!["sin".to_string(), "cos".to_string()]));
    cg.register_module_namespace("math".to_string(), vec!["tan".to_string()]);
    assert_eq!(cg.module_namespace("math"), Some(&vec!["tan".to_string()]));
}
