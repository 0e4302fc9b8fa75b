use semcode::json::{parse_call_list, parse_type_list, write_name_list};

#[test]
fn parses_a_list_of_names() {
    assert_eq!(
        parse_call_list(r#"["memcpy","kmalloc"]"#).unwrap(),
        vec!["memcpy".to_string(), "kmalloc".to_string()]
    );
    assert!(parse_call_list("[]").unwrap().is_empty());
}

#[test]
fn rejects_values_that_are_not_a_list_of_names() {
    // Truncated, and an object where a list belongs.
    assert!(parse_call_list(r#"["memcpy""#).is_err());
    assert!(parse_call_list(r#"{"calls":["memcpy"]}"#).is_err());

    // A future encoding that carries more than a name. Silently reporting
    // no calls for these is exactly the failure this rejects.
    assert!(parse_call_list(r#"[{"name":"read","kind":"member"}]"#).is_err());
}

#[test]
fn error_names_the_offending_value() {
    let err = parse_call_list("not json").unwrap_err().to_string();
    assert!(err.contains("not json"), "unhelpful error: {err}");
}

#[test]
fn lists_of_names_are_read_back() {
    let names = vec!["a\"b".to_string(), String::new(), "zwölf".to_string()];
    let json = write_name_list(&names).unwrap();
    assert_eq!(json, r#"["a\"b","","zwölf"]"#);
    assert_eq!(parse_call_list(&json).unwrap(), names);
    assert_eq!(parse_type_list(&json).unwrap(), names);
    assert!(parse_type_list("{}").is_none());
}
