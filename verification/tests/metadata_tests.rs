use vex_codegen::metadata::{merge_metadata, parse_metadata, Metadata};

#[test]
fn test_parse_simple_metadata() {
    let input = r#"json:"id""#;
    let result = parse_metadata(input).unwrap();

    assert_eq!(result.len(), 1);
    assert_eq!(result.get("json"), Some(&"id".to_string()));
}

#[test]
fn test_parse_multiple_metadata() {
    let input = r#"json:"id" db:"user_id" validate:"required""#;
    let result = parse_metadata(input).unwrap();

    assert_eq!(result.len(), 3);
    assert_eq!(result.get("json"), Some(&"id".to_string()));
    assert_eq!(result.get("db"), Some(&"user_id".to_string()));
    assert_eq!(result.get("validate"), Some(&"required".to_string()));
}

#[test]
fn test_parse_with_spaces() {
    let input = r#"  json : "id"   db  :  "user_id"  "#;
    let result = parse_metadata(input).unwrap();

    assert_eq!(result.len(), 2);
    assert_eq!(result.get("json"), Some(&"id".to_string()));
    assert_eq!(result.get("db"), Some(&"user_id".to_string()));
}

#[test]
fn test_parse_escaped_quotes() {
    let input = r#"pattern:"\"hello\"""#;
    let result = parse_metadata(input).unwrap();

    assert_eq!(result.get("pattern"), Some(&r#""hello""#.to_string()));
}

#[test]
fn test_merge_no_conflict() {
    let mut old = Metadata::new();
    old.insert("json".to_string(), "id".to_string());

    let mut new = Metadata::new();
    new.insert("db".to_string(), "user_id".to_string());

    let (merged, conflicts) = merge_metadata(&old, &new);

    assert_eq!(merged.len(), 2);
    assert_eq!(conflicts.len(), 0);
    assert_eq!(merged.get("json"), Some(&"id".to_string()));
    assert_eq!(merged.get("db"), Some(&"user_id".to_string()));
}

#[test]
fn test_merge_with_conflict() {
    let mut old = Metadata::new();
    old.insert("json".to_string(), "id".to_string());

    let mut new = Metadata::new();
    new.insert("json".to_string(), "userId".to_string());

    let (merged, conflicts) = merge_metadata(&old, &new);

    assert_eq!(merged.len(), 1);
    assert_eq!(conflicts.len(), 1);
    assert_eq!(merged.get("json"), Some(&"userId".to_string()));

    let conflict = &conflicts[0];
    assert_eq!(conflict.0, "json");
    assert_eq!(conflict.1, "id");
    assert_eq!(conflict.2, "userId");
}

#[test]
fn parse_empty_and_blank_input_gives_no_metadata() {
    assert_eq!(parse_metadata("").unwrap().len(), 0);
    assert_eq!(parse_metadata("   \t\n ").unwrap().len(), 0);
}

#[test]
fn parse_error_missing_key() {
    assert_eq!(
        parse_metadata(r#":"x""#).err().unwrap(),
        "Expected metadata key (identifier before ':')"
    );
}

#[test]
fn parse_error_missing_colon() {
    assert_eq!(parse_metadata(r#"json "x""#).err().unwrap(), "Expected ':' after metadata key 'json'");
}

#[test]
fn parse_error_missing_opening_quote() {
    assert_eq!(
        parse_metadata("json: id").err().unwrap(),
        "Expected '\"' to start value for key 'json'"
    );
}

#[test]
fn parse_error_unterminated_value() {
    assert_eq!(
        parse_metadata(r#"json:"id"#).err().unwrap(),
        "Unterminated string value for key 'json'"
    );
}

#[test]
fn parse_escape_sequences() {
    let m = parse_metadata(r#"a:"x\ny\tz" b:"back\\slash" c:"\q""#).unwrap();
    assert_eq!(m.get("a"), Some(&"x\ny\tz".to_string()));
    assert_eq!(m.get("b"), Some(&"back\\slash".to_string()));
    assert_eq!(m.get("c"), Some(&"\\q".to_string()));
}

#[test]
fn parse_later_key_replaces_earlier() {
    let m = parse_metadata(r#"json:"a" json:"b""#).unwrap();
    assert_eq!(m.len(), 1);
    assert_eq!(m.get("json"), Some(&"b".to_string()));
}

#[test]
fn parse_keys_with_underscores_and_digits() {
    let m = parse_metadata(r#"max_len2:"10""#).unwrap();
    assert_eq!(m.get("max_len2"), Some(&"10".to_string()));
    assert_eq!(m.get("max_len"), None);
}

#[test]
fn merge_with_empty_changes_nothing() {
    let mut m = Metadata::new();
    m.insert("json".to_string(), "id".to_string());
    let empty = Metadata::new();
    let (a, ca) = merge_metadata(&m, &empty);
    let (b, cb) = merge_metadata(&empty, &m);
    assert_eq!(a.len(), 1);
    assert_eq!(a.get("json"), Some(&"id".to_string()));
    assert_eq!(b.len(), 1);
    assert_eq!(b.get("json"), Some(&"id".to_string()));
    assert!(ca.is_empty());
    assert!(cb.is_empty());
}

#[test]
fn merge_with_itself_reports_no_conflict() {
    let m = parse_metadata(r#"json:"id" db:"user_id""#).unwrap();
    let (merged, conflicts) = merge_metadata(&m, &m);
    assert_eq!(merged.len(), 2);
    assert!(conflicts.is_empty());
}

#[test]
fn merge_reports_conflicts_in_new_order_and_keeps_old_keys() {
    let old = parse_metadata(r#"a:"1" b:"2" c:"3""#).unwrap();
    let new = parse_metadata(r#"c:"30" b:"2" a:"10""#).unwrap();
    let (merged, conflicts) = merge_metadata(&old, &new);
    assert_eq!(merged.len(), 3);
    assert_eq!(merged.get("a"), Some(&"10".to_string()));
    assert_eq!(merged.get("b"), Some(&"2".to_string()));
    assert_eq!(merged.get("c"), Some(&"30".to_string()));
    assert_eq!(conflicts.len(), 2);
    assert_eq!(conflicts[0], ("c".to_string(), "3".to_string(), "30".to_string()));
    assert_eq!(conflicts[1], ("a".to_string(), "1".to_string(), "10".to_string()));
}

#[test]
fn written_metadata_reads_back() {
    let m = parse_metadata(r#"json:"a\"b" path:"c:\\d" empty:"""#).unwrap();
    assert_eq!(m.len(), 3);
    assert_eq!(m.get("json"), Some(&"a\"b".to_string()));
    assert_eq!(m.get("path"), Some(&"c:\\d".to_string()));
    assert_eq!(m.get("empty"), Some(&"".to_string()));
}
