use vex_codegen::ast::{
    Block, ConstDecl, Enum, Export, ExportItem, Expression, ExternBlock, ExternFunction, Function, Import, ImportItem,
    ImportKind, Item, Receiver, Struct, TraitImpl, TraitRef, Type,
};
use vex_codegen::codegen::ASTCodeGen;
use vex_codegen::eq_methods::types_needing_ne;
use vex_codegen::imports::{merge_imported_items, plan_import, reexport_sources, should_resolve_import, ImportedItem};

fn func(name: &str) -> Function {
    Function {
        name: name.to_string(),
        type_params: vec![],
        params: vec![],
        return_type: None,
        receiver: None,
        body: Block { statements: vec![] },
        is_mutable: false,
        is_static: false,
        static_type: None,
    }
}

fn method(name: &str, ty: Type) -> Function {
    Function { receiver: Some(Receiver { ty }), ..func(name) }
}

fn strukt(name: &str) -> Struct {
    Struct { name: name.to_string(), type_params: vec![], fields: vec![], methods: vec![], impl_traits: vec![], policies: vec![] }
}

fn konst(name: &str) -> Item {
    Item::Const(ConstDecl { name: name.to_string(), ty: None, value: Expression::IntLiteral(1) })
}

fn export(names: &[(&str, Option<&str>)], from: Option<&str>, wildcard: bool) -> Item {
    Item::Export(Export {
        items: names
            .iter()
            .map(|(n, a)| ExportItem { name: n.to_string(), alias: a.map(|s| s.to_string()) })
            .collect(),
        from_module: from.map(|s| s.to_string()),
        is_wildcard: wildcard,
    })
}

fn named_import(items: &[(&str, Option<&str>)]) -> Import {
    Import {
        module: "m".to_string(),
        kind: ImportKind::Named,
        items: items
            .iter()
            .map(|(n, a)| ImportItem { name: n.to_string(), alias: a.map(|s| s.to_string()) })
            .collect(),
    }
}

fn summary(plan: &[ImportedItem]) -> Vec<(Option<usize>, usize, Option<String>, Option<String>)> {
    plan.iter().map(|e| (e.reexport, e.index, e.new_name.clone(), e.new_static_type.clone())).collect()
}

#[test]
fn relative_imports_are_left_to_the_caller_outside_the_standard_library() {
    assert!(!should_resolve_import("main.vx", "./util"));
    assert!(!should_resolve_import("main.vx", "@relative:x"));
    assert!(should_resolve_import("main.vx", "conv"));
    assert!(should_resolve_import("/home/u/vex-libs/std/io/lib.vx", "../fmt"));
}

#[test]
fn a_module_without_exports_exports_everything() {
    let items = vec![
        Item::Function(func("abs")),
        konst("PI"),
        Item::ExternBlock(ExternBlock { abi: "C".to_string(), functions: vec![ExternFunction { name: "fabs".to_string(), params: vec![], return_type: None, is_variadic: false }] }),
        Item::Function(method("len", Type::Reference(Box::new(Type::Named("Vec".to_string())), false))),
    ];
    let import = Import { module: "math".to_string(), kind: ImportKind::Module, items: vec![] };
    let plan = plan_import(&import, &items, &[]);
    assert_eq!(
        summary(&plan),
        vec![(None, 0, None, None), (None, 1, None, None), (None, 2, None, None), (None, 3, Some("Vec_len".to_string()), None)]
    );
}

#[test]
fn named_imports_take_listed_exported_names_with_aliases() {
    let items = vec![
        export(&[("abs", None), ("PI", Some("pi"))], None, false),
        Item::Function(func("abs")),
        Item::Function(func("hidden")),
        konst("PI"),
        Item::Struct(strukt("Point")),
        Item::Enum(Enum { name: "Dir".to_string(), type_params: vec![], variants: vec![] }),
    ];
    let import = named_import(&[("abs", Some("absolute")), ("hidden", None)]);
    let plan = plan_import(&import, &items, &[]);
    assert_eq!(
        summary(&plan),
        vec![(None, 1, Some("absolute".to_string()), None), (None, 4, None, None), (None, 5, None, None)]
    );
}

#[test]
fn static_methods_come_with_their_type() {
    let mut new_fn = func("new");
    new_fn.is_static = true;
    new_fn.static_type = Some("HashMap".to_string());
    let items = vec![export(&[("HashMap", None)], None, false), Item::Struct(strukt("HashMap")), Item::Function(new_fn)];
    let import = named_import(&[("HashMap", Some("Map"))]);
    let plan = plan_import(&import, &items, &[]);
    assert_eq!(
        summary(&plan),
        vec![(None, 1, Some("Map".to_string()), None), (None, 2, None, Some("Map".to_string()))]
    );
}

#[test]
fn reexports_bring_items_first() {
    let items = vec![
        export(&[], Some("core"), true),
        export(&[("min", Some("minimum")), ("absent", None)], Some("cmp"), false),
        export(&[], Some("missing"), true),
        Item::Function(func("local")),
    ];
    let sources = reexport_sources(&items);
    assert_eq!(sources, vec!["core".to_string(), "cmp".to_string(), "missing".to_string()]);
    let core = vec![Item::Function(func("id")), export(&[], None, false), konst("E")];
    let cmp = vec![Item::Function(func("max")), Item::Function(func("min"))];
    let import = Import { module: "prelude".to_string(), kind: ImportKind::Module, items: vec![] };
    let plan = plan_import(&import, &items, &[Some(core), Some(cmp), None]);
    assert_eq!(
        summary(&plan),
        vec![(Some(0), 0, None, None), (Some(0), 2, None, None), (Some(1), 1, Some("minimum".to_string()), None)]
    );
}

#[test]
fn types_needing_not_equal() {
    let mut point = strukt("Point");
    point.impl_traits = vec![TraitRef { name: "Eq".to_string(), type_args: vec![] }];
    point.methods = vec![func("op==")];
    let mut done = strukt("Done");
    done.impl_traits = vec![TraitRef { name: "Eq".to_string(), type_args: vec![] }];
    done.methods = vec![func("op=="), func("op!=")];
    let items = vec![
        Item::Struct(point),
        Item::Struct(done),
        Item::Function(method("op==", Type::Named("Vec2".to_string()))),
        Item::Function(method("op==", Type::Reference(Box::new(Type::Named("Vec2".to_string())), false))),
        Item::Function(method("op==", Type::Named("Both".to_string()))),
        Item::Function(method("op!=", Type::Reference(Box::new(Type::Named("Both".to_string())), true))),
        Item::TraitImpl(TraitImpl {
            trait_name: "Eq".to_string(),
            for_type: Type::Named("Color".to_string()),
            methods: vec![func("op==")],
        }),
    ];
    assert_eq!(
        types_needing_ne(&items),
        vec![("Point".to_string(), false), ("Vec2".to_string(), true), ("Color".to_string(), false)]
    );
}

#[test]
fn eq_and_ne_method_names() {
    let mut cg = ASTCodeGen::new("m");
    assert_eq!(cg.eq_and_ne_method_names("Point", false), ("Point_opeq_2".to_string(), "Point_opne_2".to_string()));
    assert_eq!(cg.eq_and_ne_method_names("Vec2", true), ("Vec2_opeq".to_string(), "Vec2_opne".to_string()));
    cg.register_function("Vec2_opeq_Vec2_1", "Vec2_opeq_Vec2_1");
    assert_eq!(
        cg.eq_and_ne_method_names("Vec2", true),
        ("Vec2_opeq_Vec2_1".to_string(), "Vec2_opne_Vec2_1".to_string())
    );
}

fn item_label(it: &Item) -> String {
    match it {
        Item::Function(f) => format!("fn {}", f.name),
        Item::Const(c) => format!("const {}", c.name),
        Item::Struct(s) => format!("struct {}", s.name),
        _ => "other".to_string(),
    }
}

#[test]
fn merged_items_put_imported_ones_first() {
    let imported = vec![Item::Function(func("vec_new")), konst("PI")];
    let own = vec![Item::Function(func("main")), Item::Struct(strukt("Point"))];
    let merged = merge_imported_items(imported, own);
    let labels: Vec<String> = merged.iter().map(item_label).collect();
    assert_eq!(labels, vec!["fn vec_new", "const PI", "fn main", "struct Point"]);
}

#[test]
fn merging_nothing_imported_keeps_the_program() {
    let merged = merge_imported_items(vec![], vec![Item::Function(func("main"))]);
    let labels: Vec<String> = merged.iter().map(item_label).collect();
    assert_eq!(labels, vec!["fn main"]);
}

fn import_of(module: &str, kind: ImportKind) -> Import {
    Import { module: module.to_string(), kind, items: vec![] }
}

#[test]
fn namespace_imports_register_their_alias() {
    let mut cg = ASTCodeGen::new("main");
    let imports = vec![
        import_of("math", ImportKind::Namespace("m".to_string())),
        import_of("io", ImportKind::Module),
        import_of("conv", ImportKind::Named),
    ];
    cg.register_namespace_imports(&imports);
    assert_eq!(cg.namespace_import("m").map(|s| s.as_str()), Some("math"));
    assert_eq!(cg.namespace_import("io"), None);
    assert_eq!(cg.namespace_import("conv"), None);
}

#[test]
fn a_later_namespace_import_replaces_the_alias() {
    let mut cg = ASTCodeGen::new("main");
    let imports = vec![
        import_of("math", ImportKind::Namespace("m".to_string())),
        import_of("matrix", ImportKind::Namespace("m".to_string())),
        import_of("strings", ImportKind::Namespace("s".to_string())),
    ];
    cg.register_namespace_imports(&imports);
    assert_eq!(cg.namespace_import("m").map(|s| s.as_str()), Some("matrix"));
    assert_eq!(cg.namespace_import("s").map(|s| s.as_str()), Some("strings"));
}
