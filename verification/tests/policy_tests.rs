use vex_codegen::ast::{Field, Struct, Type};
use vex_codegen::codegen::ASTCodeGen;
use vex_codegen::metadata::Metadata;
use vex_codegen::policy::{
    apply_policy_hierarchy_to_fields, apply_policy_to_fields, resolve_policy_hierarchy, struct_field_metadata, Policy,
    PolicyField,
};
use vex_codegen::strmap::StrMap;

fn pf(name: &str, meta: &str) -> PolicyField {
    PolicyField { name: name.to_string(), metadata: meta.to_string() }
}

fn policy(name: &str, fields: Vec<PolicyField>, parents: &[&str]) -> Policy {
    Policy { name: name.to_string(), fields, parent_policies: parents.iter().map(|p| p.to_string()).collect() }
}

fn names(v: &[&str]) -> Vec<String> {
    v.iter().map(|s| s.to_string()).collect()
}

fn all_of(ps: Vec<Policy>) -> StrMap<Policy> {
    let mut m = StrMap::new();
    for p in ps {
        m.insert(p.name.clone(), p);
    }
    m
}

fn field(name: &str, meta: Option<&str>) -> Field {
    Field { name: name.to_string(), ty: Type::I32, metadata: meta.map(|s| s.to_string()) }
}

fn struct_with(name: &str, fields: Vec<Field>, policies: &[&str]) -> Struct {
    Struct {
        name: name.to_string(),
        type_params: vec![],
        fields,
        methods: vec![],
        impl_traits: vec![],
        policies: names(policies),
    }
}

#[test]
fn policy_applies_to_fields_by_name() {
    let p = policy("P", vec![pf("id", r#"json:"id""#), pf("missing", r#"json:"m""#)], &[]);
    let r = apply_policy_to_fields(&p, &names(&["id", "name"]));
    assert_eq!(r.len(), 2);
    assert_eq!(r[0].0, "id");
    assert_eq!(r[0].1.get("json"), Some(&"id".to_string()));
    assert_eq!(r[1].0, "name");
    assert_eq!(r[1].1.len(), 0);
    assert!(r[0].2.is_empty() && r[1].2.is_empty());
}

#[test]
fn policy_field_with_bad_metadata_gives_nothing() {
    let p = policy("P", vec![pf("id", "json id")], &[]);
    let r = apply_policy_to_fields(&p, &names(&["id"]));
    assert_eq!(r[0].1.len(), 0);
}

#[test]
fn hierarchy_lists_parents_first_and_child_last() {
    let all = all_of(vec![
        policy("Base", vec![], &[]),
        policy("Mid", vec![], &["Base"]),
        policy("Child", vec![], &["Mid"]),
    ]);
    let mut visited = StrMap::new();
    let h = resolve_policy_hierarchy(all.get("Child").unwrap(), &all, &mut visited).unwrap();
    let hn: Vec<&str> = h.iter().map(|p| p.name.as_str()).collect();
    assert_eq!(hn, vec!["Base", "Mid", "Child"]);
}

#[test]
fn hierarchy_lists_each_policy_once() {
    let all = all_of(vec![
        policy("A", vec![], &[]),
        policy("B", vec![], &[]),
        policy("Top", vec![], &["A", "B"]),
    ]);
    let mut visited = StrMap::new();
    let h = resolve_policy_hierarchy(all.get("Top").unwrap(), &all, &mut visited).unwrap();
    let hn: Vec<&str> = h.iter().map(|p| p.name.as_str()).collect();
    assert_eq!(hn, vec!["A", "B", "Top"]);
    for i in 0..hn.len() {
        for j in 0..hn.len() {
            if i != j {
                assert_ne!(hn[i], hn[j]);
            }
        }
    }
    assert_eq!(visited.len(), 3);
}

#[test]
fn hierarchy_errors() {
    let all = all_of(vec![policy("A", vec![], &["B"]), policy("B", vec![], &["A"]), policy("C", vec![], &["Nope"])]);
    let mut v1 = StrMap::new();
    assert_eq!(
        resolve_policy_hierarchy(all.get("A").unwrap(), &all, &mut v1).err().unwrap(),
        "Circular policy dependency detected: 'A'"
    );
    let mut v2 = StrMap::new();
    assert_eq!(
        resolve_policy_hierarchy(all.get("C").unwrap(), &all, &mut v2).err().unwrap(),
        "Parent policy 'Nope' not found"
    );
    let diamond = all_of(vec![
        policy("Base", vec![], &[]),
        policy("Mid", vec![], &["Base"]),
        policy("Top", vec![], &["Mid", "Base"]),
    ]);
    let mut v4 = StrMap::new();
    let h = resolve_policy_hierarchy(diamond.get("Top").unwrap(), &diamond, &mut v4).unwrap();
    let hn: Vec<&str> = h.iter().map(|p| p.name.as_str()).collect();
    assert_eq!(hn, vec!["Base", "Mid", "Top"]);
    assert_eq!(v4.len(), 3);
    assert!(v4.contains_key("Base") && v4.contains_key("Mid") && v4.contains_key("Top"));
    let mut again = v4;
    assert_eq!(
        resolve_policy_hierarchy(diamond.get("Mid").unwrap(), &diamond, &mut again).err().unwrap(),
        "Circular policy dependency detected: 'Mid'"
    );
    let self_parent = all_of(vec![policy("S", vec![], &["S"])]);
    let mut v3 = StrMap::new();
    assert_eq!(
        resolve_policy_hierarchy(self_parent.get("S").unwrap(), &self_parent, &mut v3).err().unwrap(),
        "Circular policy dependency detected: 'S'"
    );
}

#[test]
fn child_policy_overrides_parent_with_warning() {
    let all = all_of(vec![
        policy("Base", vec![pf("id", r#"json:"id" db:"id""#)], &[]),
        policy("Api", vec![pf("id", r#"json:"userId""#)], &["Base"]),
    ]);
    let r = apply_policy_hierarchy_to_fields("Api", &all, &names(&["id", "other"])).unwrap();
    assert_eq!(r.len(), 2);
    assert_eq!(r[0].1.get("json"), Some(&"userId".to_string()));
    assert_eq!(r[0].1.get("db"), Some(&"id".to_string()));
    assert_eq!(r[0].2, vec!["Policy 'Api' overrides 'json': 'id' → 'userId'".to_string()]);
    assert_eq!(r[1].1.len(), 0);
    assert!(r[1].2.is_empty());
}

#[test]
fn unknown_policy_is_an_error() {
    let all = all_of(vec![]);
    assert_eq!(
        apply_policy_hierarchy_to_fields("Ghost", &all, &names(&["id"])).err().unwrap(),
        "Policy 'Ghost' not found"
    );
}

#[test]
fn struct_metadata_combines_policies_and_inline_metadata() {
    let all = all_of(vec![
        policy("A", vec![pf("id", r#"json:"id" db:"id""#)], &[]),
        policy("B", vec![pf("id", r#"db:"user_id""#), pf("name", r#"json:"name""#)], &[]),
    ]);
    let s = struct_with(
        "User",
        vec![field("id", Some(r#"json:"uid""#)), field("name", None), field("age", Some("bad"))],
        &["A", "B"],
    );
    let m = struct_field_metadata(&s, &all).unwrap();
    assert_eq!(m.len(), 2);
    let id: &Metadata = m.get("id").unwrap();
    assert_eq!(id.get("json"), Some(&"uid".to_string()));
    assert_eq!(id.get("db"), Some(&"user_id".to_string()));
    assert_eq!(m.get("name").unwrap().get("json"), Some(&"name".to_string()));
    assert!(m.get("age").is_none());
}

#[test]
fn struct_metadata_fails_on_unknown_policy() {
    let all = all_of(vec![]);
    let s = struct_with("User", vec![field("id", None)], &["Missing"]);
    assert_eq!(struct_field_metadata(&s, &all).err().unwrap(), "Policy 'Missing' not found");
}

#[test]
fn apply_policies_to_struct_registers_policies_and_checks() {
    let mut cg = ASTCodeGen::new("m");
    assert!(cg.register_policy(policy("P", vec![pf("id", r#"json:"id""#)], &[])).is_ok());
    assert_eq!(
        cg.register_policy(policy("P", vec![], &[])).err().unwrap(),
        "Policy 'P' is already defined"
    );
    assert_eq!(
        cg.check_trait_policy_collision("P").err().unwrap(),
        "Trait 'P' conflicts with existing policy of the same name"
    );
    assert!(cg.check_trait_policy_collision("Q").is_ok());
    let s = struct_with("User", vec![field("id", None)], &["P"]);
    assert!(cg.apply_policies_to_struct(&s).is_ok());
    let bad = struct_with("Other", vec![field("id", None)], &["Nope"]);
    assert_eq!(cg.apply_policies_to_struct(&bad).err().unwrap(), "Policy 'Nope' not found");
    assert!(cg.policy_defs().contains_key("P"));
}
