use vex_codegen::ast::{Block, Function, Param, Type, TypeParam};
use vex_codegen::mangle::{
    encode_operator_name, generate_type_suffix, mangle_function_name, receiver_method_mangled_name, static_method_names,
};
use vex_codegen::type_ops::{
    extract_struct_name_from_receiver, extract_type_args_from_type, parse_type_args_from_mangled_name,
    infer_type_args_from_call, replace_self_in_type, types_equal,
};
use vex_codegen::struct_deps::join_names;

fn named(n: &str) -> Type {
    Type::Named(n.to_string())
}

fn f(name: &str, params: Vec<Param>) -> Function {
    Function {
        name: name.to_string(),
        type_params: vec![],
        params,
        return_type: None,
        receiver: None,
        body: Block { statements: vec![] },
        is_mutable: false,
        is_static: false,
        static_type: None,
    }
}

#[test]
fn operator_names_are_encoded() {
    assert_eq!(encode_operator_name("op+"), "opadd");
    assert_eq!(encode_operator_name("op[]="), "opindexset");
    assert_eq!(encode_operator_name("op=="), "opeq");
    assert_eq!(encode_operator_name("push"), "push");
    assert_eq!(encode_operator_name("opera"), "opera");
}

#[test]
fn function_names_are_mangled_from_parameter_types() {
    let ps = vec![Param { name: "a".to_string(), ty: Type::I32 }, Param { name: "b".to_string(), ty: Type::F64 }];
    assert_eq!(mangle_function_name("add", &ps, true), "add_i32_f64_2");
    assert_eq!(mangle_function_name("add", &ps, false), "add_i32_f64");
    assert_eq!(mangle_function_name("main", &[], true), "main");
    assert_eq!(generate_type_suffix(&Type::I32), "_i32");
}

#[test]
fn receiver_methods_are_mangled() {
    let add = f("op+", vec![Param { name: "rhs".to_string(), ty: Type::I32 }]);
    assert_eq!(receiver_method_mangled_name("Point", &add), "Point_opadd_i32_1");
    assert_eq!(receiver_method_mangled_name("Point", &f("len", vec![])), "Point_len");
    assert_eq!(receiver_method_mangled_name("Point", &f("Point_len", vec![])), "Point_len");
}

#[test]
fn self_is_replaced_once_and_for_all() {
    let t = Type::Reference(Box::new(Type::SelfType), true);
    let r = replace_self_in_type(&t, "Point");
    assert!(types_equal(&r, &Type::Reference(Box::new(named("Point")), true)));
    let again = replace_self_in_type(&r, "Point");
    assert!(types_equal(&again, &r));
    let g = Type::Generic { name: "Self".to_string(), type_args: vec![named("Self")] };
    assert!(types_equal(
        &replace_self_in_type(&g, "P"),
        &Type::Generic { name: "P".to_string(), type_args: vec![named("P")] }
    ));
}

#[test]
fn receiver_struct_names() {
    assert_eq!(extract_struct_name_from_receiver(&Type::Reference(Box::new(named("Point")), false)), Some("Point".to_string()));
    assert_eq!(extract_struct_name_from_receiver(&Type::I32), None);
}

#[test]
fn type_arguments_from_types_and_names() {
    let g = Type::Generic { name: "Map".to_string(), type_args: vec![Type::String, Type::I32] };
    let args = extract_type_args_from_type(&g).unwrap();
    assert_eq!(args.len(), 2);
    assert!(types_equal(&args[1], &Type::I32));
    let parsed = parse_type_args_from_mangled_name(&["i32", "Point"]).unwrap();
    assert_eq!(parsed.len(), 2);
    assert!(types_equal(&parsed[0], &Type::I32));
    assert!(types_equal(&parsed[1], &named("Point")));
    assert_eq!(
        parse_type_args_from_mangled_name(&[]).err().unwrap(),
        "No type arguments could be parsed from mangled name"
    );
}

#[test]
fn type_equality_is_structural() {
    assert!(types_equal(&Type::Vec(Box::new(Type::I32)), &Type::Vec(Box::new(Type::I32))));
    assert!(!types_equal(&Type::Vec(Box::new(Type::I32)), &Type::Vec(Box::new(Type::I64))));
    assert!(!types_equal(&Type::Array(Box::new(Type::I32), 3), &Type::Array(Box::new(Type::I32), 4)));
    assert!(!types_equal(&Type::I32, &Type::U32));
    assert!(types_equal(&Type::Tuple(vec![]), &Type::Tuple(vec![])));
}

#[test]
fn names_join_with_separator() {
    assert_eq!(join_names(&vec!["a".to_string(), "b".to_string(), "c".to_string()], " -> "), "a -> b -> c");
    assert_eq!(join_names(&vec![], "_"), "");
}

fn static_fn(name: &str, ty: Option<&str>, type_params: &[&str], n_params: usize) -> Function {
    Function {
        name: name.to_string(),
        type_params: type_params.iter().map(|t| TypeParam { name: t.to_string(), default_type: None }).collect(),
        params: (0..n_params).map(|i| Param { name: format!("p{}", i), ty: Type::I32 }).collect(),
        return_type: None,
        receiver: None,
        body: Block { statements: vec![] },
        is_mutable: false,
        is_static: true,
        static_type: ty.map(|t| t.to_string()),
    }
}

#[test]
fn static_method_storage_names() {
    let n = static_method_names(&static_fn("new", Some("HashMap"), &["K", "V"], 1)).unwrap();
    assert_eq!(n.mangled, "HashMap_new");
    assert_eq!(n.generic, Some("HashMap_K_V_new_1".to_string()));
    assert_eq!(n.lowercase, "hashmap_new");
    let plain = static_method_names(&static_fn("op+", Some("Vec2"), &[], 2)).unwrap();
    assert_eq!(plain.mangled, "Vec2_opadd");
    assert_eq!(plain.generic, None);
    assert_eq!(plain.lowercase, "vec2_opadd");
    assert_eq!(
        static_method_names(&static_fn("make", None, &[], 0)).err().unwrap(),
        "Static method 'make' missing type name"
    );
}

fn generic_fn(name: &str, type_params: &[&str], params: Vec<(&str, Type)>) -> Function {
    let mut f = static_fn(name, None, type_params, 0);
    f.is_static = false;
    f.params = params.into_iter().map(|(n, t)| Param { name: n.to_string(), ty: t }).collect();
    f
}

#[test]
fn type_arguments_are_inferred_from_argument_types() {
    let max = generic_fn("max", &["T"], vec![("a", Type::Named("T".to_string())), ("b", Type::Named("T".to_string()))]);
    let r = infer_type_args_from_call(&max, &[Type::I64, Type::I64]).unwrap();
    assert_eq!(r.len(), 1);
    assert!(matches!(r[0], Type::I64));

    let pair = generic_fn(
        "first",
        &["K", "V"],
        vec![("p", Type::Tuple(vec![Type::Named("K".to_string()), Type::Named("V".to_string())]))],
    );
    let r = infer_type_args_from_call(&pair, &[Type::Tuple(vec![Type::String, Type::Bool])]).unwrap();
    assert!(matches!(r.as_slice(), [Type::String, Type::Bool]));

    let plain = generic_fn("id", &[], vec![("x", Type::I32)]);
    assert_eq!(infer_type_args_from_call(&plain, &[Type::I32]).unwrap().len(), 0);

    let unused = generic_fn("make", &["T"], vec![("n", Type::I32)]);
    assert_eq!(
        infer_type_args_from_call(&unused, &[Type::I32]).unwrap_err(),
        "Cannot infer type parameter 'T' for function 'make'"
    );
}

#[test]
fn self_is_replaced_at_any_depth() {
    let opt = replace_self_in_type(&Type::Option(Box::new(Type::SelfType)), "P");
    assert!(matches!(&opt, Type::Option(inner) if matches!(&**inner, Type::Named(n) if n == "P")));
    let tuple = replace_self_in_type(&Type::Tuple(vec![Type::I32, Type::Named("Self".to_string())]), "P");
    assert!(types_equal(&tuple, &Type::Tuple(vec![Type::I32, Type::Named("P".to_string())])));
    let f = Type::Function { params: vec![Type::SelfType], return_type: Box::new(Type::Vec(Box::new(Type::SelfType))) };
    let g = Type::Function {
        params: vec![Type::Named("P".to_string())],
        return_type: Box::new(Type::Vec(Box::new(Type::Named("P".to_string())))),
    };
    assert!(types_equal(&replace_self_in_type(&f, "P"), &g));
    let res = Type::Result(Box::new(Type::Box(Box::new(Type::SelfType))), Box::new(Type::String));
    let want = Type::Result(Box::new(Type::Box(Box::new(Type::Named("P".to_string())))), Box::new(Type::String));
    assert!(types_equal(&replace_self_in_type(&res, "P"), &want));
}

#[test]
fn associated_type_suffix() {
    let t = Type::AssociatedType { self_type: Box::new(Type::SelfType), name: "Item".to_string() };
    assert_eq!(generate_type_suffix(&t), "_Self_Item");
}
