use semcode::call_rows::{
    build_caller_index_with_manifest, callers_filter, callers_with_manifest_filter,
    find_callers_efficient, function_exists_in_manifest, get_all_call_relationships,
    get_entry_point_functions, get_function_callees_with_manifest, get_function_callers,
    get_function_callers_git_aware, get_function_callers_with_manifest,
    get_function_types_with_manifest, NameListRow,
};
use semcode::names::NameMap;
use semcode::selection::{
    filter_implementations_only, find_function_git_aware, get_function_callees,
    select_best_function_match,
};
use semcode::types::{FunctionInfo, ParameterInfo};

fn function(name: &str, file_path: &str, lines: (u32, u32), body: &str) -> FunctionInfo {
    FunctionInfo {
        name: name.to_string(),
        file_path: file_path.to_string(),
        git_file_hash: format!("hash-{file_path}"),
        line_start: lines.0,
        line_end: lines.1,
        return_type: "int".to_string(),
        parameters: Vec::new(),
        body: body.to_string(),
        calls: None,
        types: None,
    }
}

fn long_body() -> String {
    format!("int f(void) {{ {} return 0; }}", "g(); ".repeat(12))
}

fn row(name: &str, file_path: &str, list: Option<&str>) -> NameListRow {
    NameListRow {
        name: name.to_string(),
        file_path: file_path.to_string(),
        git_file_hash: format!("hash-{file_path}"),
        line_start: 1,
        line_end: 5,
        list: list.map(|l| l.to_string()),
    }
}

fn manifest(paths: &[&str]) -> NameMap<String> {
    let mut map = NameMap::new();
    for path in paths {
        map.insert(path.to_string(), format!("hash-{path}"));
    }
    map
}

fn names(list: &[&str]) -> Vec<String> {
    list.iter().map(|n| n.to_string()).collect()
}

#[test]
fn a_source_file_is_preferred_to_a_header() {
    let header = function("f", "f.h", (1, 30), &long_body());
    let source = function("f", "f.c", (1, 1), "int f(void);");
    let best = select_best_function_match(vec![header, source]);
    assert_eq!(best.file_path, "f.c");
}

#[test]
fn then_a_body_then_parameters_then_length_decide() {
    let declared = function("f", "a.c", (1, 1), &long_body());
    let defined = function("f", "b.c", (1, 9), &long_body());
    assert_eq!(select_best_function_match(vec![declared, defined]).file_path, "b.c");

    let plain = function("f", "a.c", (1, 9), &(long_body() + "        "));
    let mut with_parameters = function("f", "b.c", (1, 9), &long_body());
    with_parameters.parameters.push(ParameterInfo {
        declared_type: "int".to_string(),
        name: "x".to_string(),
    });
    assert_eq!(select_best_function_match(vec![plain, with_parameters]).file_path, "b.c");

    let shorter = function("f", "a.c", (1, 9), &long_body());
    let longer = function("f", "b.c", (1, 9), &(long_body() + " "));
    assert_eq!(select_best_function_match(vec![shorter, longer]).file_path, "b.c");
}

#[test]
fn the_first_of_equals_is_chosen() {
    let a = function("f", "a.c", (1, 9), &long_body());
    let b = function("f", "b.c", (1, 9), &long_body());
    assert_eq!(select_best_function_match(vec![a, b]).file_path, "a.c");
}

#[test]
fn declarations_are_left_out_and_macros_kept() {
    let mut macro_row = function("M", "m.h", (1, 1), "x");
    macro_row.return_type = String::new();
    let short = function("s", "s.c", (1, 9), "int s(void) { return 0; }");
    let declaration = function("d", "d.h", (1, 2), &format!("int d({});  ", "int a, ".repeat(12)));
    let defined = function("f", "f.c", (1, 9), &long_body());
    let kept = filter_implementations_only(vec![macro_row, short, declaration, defined]);
    let kept: Vec<&str> = kept.iter().map(|f| f.name.as_str()).collect();
    assert_eq!(kept, ["M", "f"]);
}

#[test]
fn a_body_is_measured_in_bytes() {
    // Twenty-six characters of two bytes each.
    let wide = function("w", "w.c", (1, 9), &"ä".repeat(26));
    let narrow = function("n", "n.c", (1, 9), &"a".repeat(26));
    let kept = filter_implementations_only(vec![wide, narrow]);
    assert_eq!(kept.len(), 1);
    assert_eq!(kept[0].name, "w");
}

#[test]
fn the_working_tree_answers_before_the_index() {
    let here = function("f", "here.c", (1, 9), "");
    let there = function("f", "there.c", (1, 9), "");
    let anywhere = function("f", "anywhere.c", (1, 9), "");
    let path = |found: Option<FunctionInfo>| found.map(|f| f.file_path);
    let some = |f: &FunctionInfo| vec![f.clone()];
    assert_eq!(
        path(find_function_git_aware(Some(here), true, true, some(&there), some(&anywhere))),
        Some("here.c".to_string())
    );
    assert_eq!(
        path(find_function_git_aware(None, true, true, some(&there), some(&anywhere))),
        Some("there.c".to_string())
    );
    assert_eq!(
        path(find_function_git_aware(None, true, true, vec![], some(&anywhere))),
        Some("anywhere.c".to_string())
    );
    assert_eq!(
        path(find_function_git_aware(None, false, false, vec![], some(&anywhere))),
        Some("anywhere.c".to_string())
    );
    assert_eq!(path(find_function_git_aware(None, true, false, vec![], some(&anywhere))), None);
    assert_eq!(path(find_function_git_aware(None, true, true, vec![], vec![])), None);
}

#[test]
fn callees_are_those_of_the_best_definition() {
    let mut header = function("f", "f.h", (1, 9), &long_body());
    header.calls = Some(names(&["h"]));
    let mut source = function("f", "f.c", (1, 9), &long_body());
    source.calls = Some(names(&["a", "b"]));
    assert_eq!(get_function_callees(vec![header, source]), names(&["a", "b"]));
    assert!(get_function_callees(vec![function("f", "f.c", (1, 9), "")]).is_empty());
    assert!(get_function_callees(vec![]).is_empty());
}

#[test]
fn callers_are_read_from_the_lists_of_calls() {
    let rows = vec![
        row("a", "a.c", Some(r#"["target","x"]"#)),
        row("b", "b.c", Some(r#"["target_suffix"]"#)),
        row("a", "c.c", Some(r#"["target"]"#)),
        row("d", "d.c", None),
    ];
    assert_eq!(get_function_callers(&rows, "target").unwrap(), names(&["a"]));
    let here = manifest(&["c.c", "b.c"]);
    assert_eq!(
        get_function_callers_with_manifest(&rows, "target", &here).unwrap(),
        names(&["a"])
    );
    let all = manifest(&["a.c", "b.c", "c.c", "d.c"]);
    assert_eq!(
        get_function_callers_with_manifest(&rows, "target", &all).unwrap(),
        names(&["a", "a"])
    );
}

#[test]
fn a_list_that_cannot_be_read_is_an_error_only_where_it_counts() {
    let rows = vec![row("a", "a.c", Some("[")), row("b", "b.c", Some(r#"["t"]"#))];
    let message = get_function_callers(&rows, "t").unwrap_err();
    assert!(message.starts_with("call list is not a JSON array of names ("), "{message}");
    assert!(message.ends_with("): ["), "{message}");
    assert_eq!(
        get_function_callers_with_manifest(&rows, "t", &manifest(&["b.c"])).unwrap(),
        names(&["b"])
    );
    assert!(get_all_call_relationships(&rows).is_err());
    assert!(get_entry_point_functions(&rows).is_err());
    assert!(get_function_callees_with_manifest(&rows, &manifest(&["a.c"])).is_err());
    assert!(build_caller_index_with_manifest(&rows, &manifest(&["a.c"])).is_err());
}

#[test]
fn callers_of_both_sides_come_once() {
    let overlay = vec![function("a", "a.c", (1, 1), ""), function("a", "b.c", (1, 1), "")];
    let callers = get_function_callers_git_aware(&overlay, names(&["b", "a", "b"]));
    assert_eq!(callers, names(&["a", "a", "b"]));
}

#[test]
fn the_fullest_row_gives_its_names() {
    let mut header = row("f", "f.h", Some(r#"["h"]"#));
    header.line_end = 90;
    let mut short = row("f", "s.c", Some(r#"["s"]"#));
    short.line_end = 2;
    let first = row("f", "a.c", Some(r#"["a"]"#));
    let last = row("f", "b.c", Some(r#"["b"]"#));
    let rows = vec![header, short, first, last];
    let all = manifest(&["f.h", "s.c", "a.c", "b.c"]);
    assert_eq!(get_function_callees_with_manifest(&rows, &all).unwrap(), names(&["b"]));
    assert_eq!(get_function_types_with_manifest(&rows, &all), names(&["b"]));
    let some = manifest(&["f.h", "s.c"]);
    assert_eq!(get_function_types_with_manifest(&rows, &some), names(&["s"]));
    assert!(get_function_types_with_manifest(&rows, &manifest(&[])).is_empty());
    let broken = vec![row("f", "a.c", Some("nothing"))];
    assert!(get_function_types_with_manifest(&broken, &all).is_empty());
}

#[test]
fn calls_are_relations() {
    let rows = vec![row("a", "a.c", Some(r#"["x","y"]"#)), row("b", "b.c", None)];
    let all = get_all_call_relationships(&rows).unwrap();
    assert_eq!(all.len(), 2);
    assert_eq!((all[1].caller.as_str(), all[1].callee.as_str()), ("a", "y"));
    assert_eq!(all[1].caller_git_file_hash, "hash-a.c");
    assert!(all[1].callee_git_file_hash.is_none());
}

#[test]
fn an_entry_point_calls_and_is_not_called() {
    let rows = vec![
        row("main", "m.c", Some(r#"["helper"]"#)),
        row("helper", "h.c", Some(r#"["leaf"]"#)),
        row("leaf", "l.c", Some("[]")),
        row("alone", "a.c", None),
        row("main", "m2.c", Some(r#"["leaf"]"#)),
    ];
    assert_eq!(get_entry_point_functions(&rows).unwrap(), names(&["main"]));
}

#[test]
fn the_caller_index_counts_every_call() {
    let rows = vec![
        row("a", "a.c", Some(r#"["x","y","x"]"#)),
        row("b", "b.c", Some(r#"["x"]"#)),
        row("c", "gone.c", Some(r#"["x"]"#)),
    ];
    let index = build_caller_index_with_manifest(&rows, &manifest(&["a.c", "b.c"])).unwrap();
    assert_eq!(index.get("x").unwrap(), &names(&["a", "a", "b"]));
    assert_eq!(index.get("y").unwrap(), &names(&["a"]));
    assert!(index.get("z").is_none());
}

#[test]
fn callers_at_a_revision_are_first_definitions_that_stand_there() {
    let mut functions = NameMap::new();
    functions.insert(
        "a".to_string(),
        vec![function("a", "a.c", (1, 1), ""), function("a", "b.c", (1, 1), "")],
    );
    functions.insert("b".to_string(), vec![function("b", "gone.c", (1, 1), "")]);
    functions.insert("c".to_string(), vec![]);
    let asked = names(&["b", "a", "c", "d"]);
    let here = manifest(&["a.c", "b.c"]);
    let found = find_callers_efficient(&asked, &functions, Some(&here));
    assert_eq!(found.len(), 1);
    assert_eq!(found[0].file_path, "a.c");
    let anywhere = find_callers_efficient(&asked, &functions, None);
    let anywhere: Vec<&str> = anywhere.iter().map(|f| f.name.as_str()).collect();
    assert_eq!(anywhere, ["b", "a"]);
    assert!(function_exists_in_manifest(functions.get("a").unwrap(), &here));
    assert!(!function_exists_in_manifest(functions.get("b").unwrap(), &here));
}

#[test]
fn filters_for_callers_quote_the_name() {
    assert_eq!(
        callers_filter("it's"),
        "calls IS NOT NULL AND (calls LIKE '%\"it''s\",%' OR calls LIKE '%\"it''s\"]%')"
    );
    assert_eq!(
        callers_with_manifest_filter("f"),
        "calls IS NOT NULL AND calls LIKE '%\\\"f\\\"%%'"
    );
}
