use semcode::grep::{
    body_hash_filter, body_hash_filters, content_pattern_filter, files_to_resolve,
    grep_function_bodies, grep_function_bodies_git_aware,
};
use semcode::names::{NameMap, NameSet};
use semcode::types::FunctionInfo;

fn function(name: &str, file_path: &str, hash: &str) -> FunctionInfo {
    FunctionInfo {
        name: name.to_string(),
        file_path: file_path.to_string(),
        git_file_hash: hash.to_string(),
        line_start: 1,
        line_end: 3,
        return_type: "int".to_string(),
        parameters: Vec::new(),
        body: String::new(),
        calls: None,
        types: None,
    }
}

fn three() -> Vec<FunctionInfo> {
    vec![function("a", "fs/a.c", "h"), function("b", "mm/b.c", "h"), function("c", "FS/c.c", "h")]
}

fn found(result: (Vec<FunctionInfo>, bool)) -> (Vec<String>, bool) {
    (result.0.into_iter().map(|f| f.name).collect(), result.1)
}

fn names(list: &[&str]) -> Vec<String> {
    list.iter().map(|n| n.to_string()).collect()
}

#[test]
fn only_quotes_are_escaped_in_a_content_pattern() {
    assert_eq!(content_pattern_filter(r"it's\b"), r"regexp_like(content, 'it''s\b')");
}

#[test]
fn bodies_are_asked_for_in_one_query_or_in_chunks() {
    assert_eq!(body_hash_filter(&names(&["a", "b"])), "body_hash IN ('a', 'b')");
    let many: Vec<String> = (0..1001).map(|i| format!("h{i}")).collect();
    assert_eq!(body_hash_filters(&many, 4).len(), 1);
    let chunks = body_hash_filters(&many, 8);
    assert_eq!(chunks.len(), 3);
    assert_eq!(chunks[2], "body_hash IN ('h1000')");
    assert_eq!(body_hash_filters(&many[..1000].to_vec(), 8).len(), 1);
}

#[test]
fn a_limit_applies_to_what_the_path_pattern_leaves() {
    let hashes = names(&["x"]);
    let all = grep_function_bodies(&hashes, three(), None, 0).unwrap();
    assert_eq!(found(all), (names(&["a", "b", "c"]), false));
    let two = grep_function_bodies(&hashes, three(), None, 2).unwrap();
    assert_eq!(found(two), (names(&["a", "b"]), true));
    let exactly = grep_function_bodies(&hashes, three(), None, 3).unwrap();
    assert_eq!(found(exactly), (names(&["a", "b", "c"]), false));
    let on_path = grep_function_bodies(&hashes, three(), Some("^fs/"), 2).unwrap();
    assert_eq!(found(on_path), (names(&["a", "c"]), false));
    let one = grep_function_bodies(&hashes, three(), Some("^fs/"), 1).unwrap();
    assert_eq!(found(one), (names(&["a"]), true));
}

#[test]
fn a_broken_path_pattern_is_an_error_where_something_matched() {
    let message = grep_function_bodies(&names(&["x"]), vec![], Some("("), 0).unwrap_err();
    assert!(message.starts_with("Invalid path regex '(': "), "{message}");
    assert!(message.contains("unclosed group"), "{message}");
    let nothing = grep_function_bodies(&vec![], vec![], Some("("), 0).unwrap();
    assert_eq!(found(nothing), (vec![], false));
}

#[test]
fn a_search_at_a_revision_lays_the_working_tree_over_the_index() {
    let mut manifest = NameMap::new();
    manifest.insert("a.c".to_string(), "new".to_string());
    manifest.insert("b.c".to_string(), "b".to_string());
    manifest.insert("c.c".to_string(), "c".to_string());
    manifest.insert("gone.c".to_string(), "g".to_string());
    let mut deleted = NameSet::new();
    deleted.insert("gone.c");
    let stored = || {
        vec![
            function("old", "a.c", "old"),
            function("changed", "b.c", "b"),
            function("gone", "gone.c", "g"),
            function("c", "c.c", "c"),
            function("nowhere", "n.c", "n"),
        ]
    };
    assert_eq!(files_to_resolve(&stored()), names(&["a.c", "b.c", "gone.c", "c.c", "n.c"]));
    let overlay = || vec![function("here", "b.c", "dirty")];
    let all = grep_function_bodies_git_aware(overlay(), stored(), &manifest, &deleted, 0);
    assert_eq!(found(all), (names(&["here", "c"]), false));
    let one = grep_function_bodies_git_aware(overlay(), stored(), &manifest, &deleted, 1);
    assert_eq!(found(one), (names(&["here"]), true));
    let untracked = grep_function_bodies_git_aware(overlay(), vec![], &NameMap::new(), &deleted, 1);
    assert_eq!(found(untracked), (names(&["here"]), false));
    let unknown = grep_function_bodies_git_aware(overlay(), stored(), &NameMap::new(), &deleted, 0);
    assert_eq!(found(unknown), (names(&["here"]), false));
    let nothing = grep_function_bodies_git_aware(vec![], stored(), &NameMap::new(), &deleted, 0);
    assert_eq!(found(nothing), (vec![], false));
}
