use semcode::chained::{
    agreed_field_type, bases_to_look_up, members_to_look_up, type_chained_receivers,
};
use semcode::names::{NameMap, NameSet};
use semcode::overlay::{
    find_all_functions_git_aware, find_type_git_aware, find_typedef_git_aware,
    find_types_git_aware, merge_overlay,
};
use semcode::references::{
    get_distinct_reference_counts_git_aware, relationship_filter, ReferenceRow,
};
use semcode::resolution::{group_by_member, indirect_callers};
use semcode::revision::{at_revision, RevisionPaths};
use semcode::stored::group_by_name;
use semcode::types::{
    DispatchKind, DispatchSite, FieldInfo, FunctionInfo, Registration, RegistrationKind, TypeInfo,
    TypedefInfo,
};

fn type_info(name: &str, file_path: &str, line_start: u32) -> TypeInfo {
    TypeInfo {
        name: name.to_string(),
        file_path: file_path.to_string(),
        git_file_hash: format!("hash-{file_path}"),
        line_start,
        kind: "struct".to_string(),
        size: None,
        members: Vec::new(),
        definition: String::new(),
        types: None,
    }
}

fn test_function(name: &str, file_path: &str, git_file_hash: &str) -> FunctionInfo {
    FunctionInfo {
        name: name.to_string(),
        file_path: file_path.to_string(),
        git_file_hash: git_file_hash.to_string(),
        line_start: 1,
        line_end: 3,
        return_type: "int".to_string(),
        parameters: Vec::new(),
        body: format!("int {name}(void) {{ return 0; }}"),
        calls: Some(vec!["target".to_string()]),
        types: None,
    }
}

fn paths(types: &[TypeInfo]) -> Vec<(&str, u32)> {
    types.iter().map(|t| (t.file_path.as_str(), t.line_start)).collect()
}

fn set(names: &[&str]) -> NameSet {
    let mut out = NameSet::new();
    for name in names {
        out.insert(name);
    }
    out
}

#[test]
fn a_changed_file_answers_for_itself() {
    let overlay = vec![type_info("t", "b.h", 7)];
    let stored = vec![
        type_info("t", "b.h", 1),
        type_info("t", "a.h", 9),
        type_info("t", "gone.h", 1),
        type_info("t", "a.h", 2),
    ];
    let merged = merge_overlay(overlay.clone(), stored.clone(), &set(&["gone.h"]));
    assert_eq!(paths(&merged), [("b.h", 7), ("a.h", 9), ("a.h", 2)]);

    let answer = find_types_git_aware(overlay, true, stored, None, &set(&["gone.h"]));
    assert_eq!(paths(&answer), [("a.h", 2), ("a.h", 9), ("b.h", 7)]);
    assert_eq!(find_type_git_aware(answer).unwrap().line_start, 2);
}

#[test]
fn a_type_falls_back_on_the_working_tree_and_then_on_any() {
    let none = NameSet::new();
    let overlay = vec![type_info("t", "z.h", 1), type_info("t", "a.h", 1)];
    let kept = find_types_git_aware(overlay.clone(), true, vec![], Some(type_info("t", "x.h", 1)), &none);
    assert_eq!(paths(&kept), [("z.h", 1), ("a.h", 1)]);
    let stored = vec![type_info("t", "s.h", 1)];
    let unknown = find_types_git_aware(overlay, false, stored, None, &none);
    assert_eq!(paths(&unknown), [("z.h", 1), ("a.h", 1)]);
    let any = find_types_git_aware(vec![], true, vec![], Some(type_info("t", "x.h", 1)), &none);
    assert_eq!(paths(&any), [("x.h", 1)]);
    assert!(find_types_git_aware(vec![], true, vec![], None, &none).is_empty());
    assert!(find_type_git_aware(vec![]).is_none());
}

#[test]
fn a_typedef_is_the_first_at_the_revision_or_any() {
    let typedef = |path: &str| TypedefInfo {
        name: "t".to_string(),
        file_path: path.to_string(),
        git_file_hash: String::new(),
        line_start: 1,
        underlying_type: "int".to_string(),
        definition: String::new(),
    };
    let path = |found: Option<TypedefInfo>| found.map(|t| t.file_path);
    let none = NameSet::new();
    let mut deleted = NameSet::new();
    deleted.insert("a.h");
    let find = |overlay: &[&str], has_files: bool, stored: &[&str], anywhere: &[&str], deleted: &NameSet| {
        let all = |paths: &[&str]| paths.iter().map(|path| typedef(path)).collect::<Vec<_>>();
        path(find_typedef_git_aware(
            all(overlay),
            has_files,
            all(stored),
            all(anywhere).pop(),
            deleted,
        ))
    };
    let at = |path: &str| Some(path.to_string());
    assert_eq!(find(&[], true, &["a.h", "b.h"], &[], &none), at("a.h"));
    assert_eq!(find(&[], true, &["a.h", "b.h"], &[], &deleted), at("b.h"));
    assert_eq!(find(&["w.h"], true, &["a.h"], &["c.h"], &none), at("w.h"));
    assert_eq!(find(&["w.h"], true, &[], &["c.h"], &none), at("w.h"));
    assert_eq!(find(&[], true, &[], &["c.h"], &none), at("c.h"));
    assert_eq!(find(&[], true, &["a.h"], &["c.h"], &deleted), None);
    assert_eq!(find(&["w.h"], false, &[], &["c.h"], &none), at("w.h"));
    assert_eq!(find(&[], false, &["a.h"], &["c.h"], &none), None);
}

#[test]
fn all_functions_are_implementations() {
    let body = format!("int f(void) {{ {} }}", "g(); ".repeat(12));
    let implemented = |path: &str| FunctionInfo {
        body: body.clone(),
        line_end: 9,
        ..test_function("f", path, "h")
    };
    let declared = test_function("f", "f.h", "h");
    let none = NameSet::new();
    let files = |found: Vec<FunctionInfo>| -> Vec<String> {
        found.into_iter().map(|f| f.file_path).collect()
    };
    assert_eq!(
        files(find_all_functions_git_aware(
            vec![implemented("a.c")],
            true,
            vec![implemented("a.c"), implemented("b.c"), declared.clone()],
            vec![],
            &none
        )),
        ["a.c", "b.c"]
    );
    assert_eq!(
        files(find_all_functions_git_aware(
            vec![implemented("a.c")],
            true,
            vec![],
            vec![implemented("a.c"), implemented("x.c"), declared],
            &none
        )),
        ["a.c", "x.c"]
    );
    assert_eq!(
        files(find_all_functions_git_aware(
            vec![implemented("a.c")],
            false,
            vec![],
            vec![implemented("x.c")],
            &none
        )),
        ["a.c"]
    );
}

#[test]
fn bulk_lookup_returns_every_definition_of_a_name() {
    // Two static functions of the same name in different files, as the
    // kernel has by the thousand.
    let map = group_by_name(vec![
        test_function("dup_caller", "a.c", "hash-a"),
        test_function("dup_caller", "b.c", "hash-b"),
    ]);

    let candidates = map.get("dup_caller").expect("name missing from bulk lookup");
    let mut files: Vec<&str> = candidates.iter().map(|f| f.file_path.as_str()).collect();
    files.sort_unstable();

    assert_eq!(files, vec!["a.c", "b.c"]);
}

#[test]
fn git_aware_type_lookup_returns_all_definitions() {
    let reference = |name: &str, path: &str, line: i64, calls: Option<&str>, types: Option<&str>| {
        ReferenceRow {
            name: name.to_string(),
            file_path: path.to_string(),
            git_file_hash: format!("hash-{path}"),
            line,
            calls: calls.map(|c| c.to_string()),
            types: types.map(|t| t.to_string()),
        }
    };
    let definitions = find_types_git_aware(
        vec![],
        true,
        vec![type_info("duplicate", "b.h", 1), type_info("duplicate", "a.h", 1)],
        None,
        &NameSet::new(),
    );
    let found: Vec<&str> = definitions.iter().map(|ty| ty.file_path.as_str()).collect();
    assert_eq!(found, vec!["a.h", "b.h"]);

    let mut manifest = NameMap::new();
    manifest.insert("a.h".to_string(), "hash-a.h".to_string());
    manifest.insert("b.h".to_string(), "hash-b.h".to_string());
    let functions = vec![
        reference("caller_one", "a.h", 2, Some(r#"["target"]"#), Some(r#"["duplicate"]"#)),
        reference("caller_two", "b.h", 3, Some(r#"["target"]"#), Some(r#"["duplicate"]"#)),
    ];
    let types = vec![reference("container", "b.h", 2, None, Some(r#"["duplicate"]"#))];
    let (function_counts, type_counts) = get_distinct_reference_counts_git_aware(
        &functions,
        &types,
        &vec!["target".to_string()],
        &vec!["duplicate".to_string()],
        &manifest,
        &NameSet::new(),
        &NameMap::new(),
        &NameMap::new(),
    )
    .ok()
    .unwrap();
    assert_eq!(function_counts.get("target"), Some(&2));
    assert_eq!(type_counts.get("duplicate"), Some(&3));
}

#[test]
fn references_count_once_and_only_at_the_revision() {
    let row = |name: &str, path: &str, line: i64, calls: &str| ReferenceRow {
        name: name.to_string(),
        file_path: path.to_string(),
        git_file_hash: "h".to_string(),
        line,
        calls: Some(calls.to_string()),
        types: Some("broken".to_string()),
    };
    let mut manifest = NameMap::new();
    manifest.insert("a.c".to_string(), "h".to_string());
    manifest.insert("dirty.c".to_string(), "h".to_string());
    manifest.insert("stale.c".to_string(), "other".to_string());
    let mut overlay = NameMap::new();
    overlay.insert("t".to_string(), 5usize);
    let rows = vec![
        row("f", "a.c", 1, r#"["t"]"#),
        row("f", "a.c", 1, r#"["t","t"]"#),
        row("f", "a.c", -2, r#"["t"]"#),
        row("f", "dirty.c", 1, r#"["t"]"#),
        row("f", "stale.c", 1, r#"["t"]"#),
    ];
    let mut hidden = NameSet::new();
    hidden.insert("dirty.c");
    let asked = vec!["t".to_string(), "u".to_string()];
    let types = vec!["s".to_string()];
    let none = NameMap::new();
    let counted = get_distinct_reference_counts_git_aware(
        &rows, &vec![], &asked, &types, &manifest, &hidden, &overlay, &none,
    );
    let (functions, types) = counted.ok().unwrap();
    assert_eq!(functions.get("t"), Some(&7));
    assert_eq!(functions.get("u"), Some(&0));
    assert_eq!(types.get("s"), Some(&0));

    let broken = vec![row("f", "a.c", 1, "{}")];
    let failed = get_distinct_reference_counts_git_aware(
        &broken, &vec![], &asked, &vec![], &manifest, &hidden, &overlay, &none,
    );
    assert!(failed.is_err());
    let asked_nothing = get_distinct_reference_counts_git_aware(
        &broken, &vec![], &vec![], &vec![], &manifest, &hidden, &overlay, &none,
    );
    let (functions, types) = asked_nothing.ok().unwrap();
    assert!(functions.is_empty() && types.is_empty());

    assert_eq!(relationship_filter(true, true), Some("calls IS NOT NULL OR types IS NOT NULL"));
    assert_eq!(relationship_filter(true, false), Some("calls IS NOT NULL"));
    assert_eq!(relationship_filter(false, true), Some("types IS NOT NULL"));
    assert_eq!(relationship_filter(false, false), None);
}

fn site(file: &str, hash: &str, receiver_type: Option<&str>) -> DispatchSite {
    DispatchSite {
        caller_name: "vfs_read".to_string(),
        file_path: file.to_string(),
        git_file_hash: hash.to_string(),
        byte_start: 0,
        line: 1,
        member: "read".to_string(),
        receiver_expr: Some("f->f_op".to_string()),
        receiver_type: receiver_type.map(|t| t.to_string()),
        receiver_base_type: None,
        receiver_field: None,
        kind: DispatchKind::MemberArrow,
        target: None,
    }
}

fn registration(member: &str) -> Registration {
    Registration {
        container_type: "file_operations".to_string(),
        member: member.to_string(),
        target: "my_read".to_string(),
        file_path: "driver.c".to_string(),
        git_file_hash: "hash-driver".to_string(),
        byte_start: 0,
        line: 1,
        enclosing_function: String::new(),
        kind: RegistrationKind::DesignatedInit,
        container_base_type: None,
        container_field: None,
    }
}

#[test]
fn indirect_callers_come_from_the_revision_being_queried() {
    let mut manifest = NameMap::new();
    manifest.insert("driver.c".to_string(), "hash-driver".to_string());
    manifest.insert("vfs.c".to_string(), "hash-vfs".to_string());
    let revision = RevisionPaths::from_map(manifest);
    let registrations = at_revision(vec![registration("read")], &revision, |r: &Registration| {
        (r.file_path.clone(), r.git_file_hash.clone())
    })
    .ok()
    .unwrap();
    let sites = at_revision(
        vec![
            site("vfs.c", "hash-vfs", Some("file_operations")),
            // Same site recorded when vfs.c had different content: it is not
            // part of this revision and must not answer.
            site("vfs.c", "stale-hash", Some("file_operations")),
        ],
        &revision,
        |s: &DispatchSite| (s.file_path.clone(), s.git_file_hash.clone()),
    )
    .ok()
    .unwrap();

    let found = indirect_callers(&registrations, &group_by_member(sites), &[]);

    assert_eq!(found.len(), 1, "stale rows answered too: {found:?}");
    assert_eq!(found[0].caller_name, "vfs_read");
    assert!(
        found[0].evidence.is_type_matched(),
        "receiver type matched the registration but was not reported as such: {:?}",
        found[0].evidence
    );
}

#[test]
fn what_a_site_states_comes_before_what_is_registered() {
    let stated = site("vfs.c", "h", None);
    let joined = site("vfs.c", "h", None);
    let found =
        indirect_callers(&[registration("read")], &group_by_member(vec![joined]), &[stated]);
    assert_eq!(found.len(), 2);
    assert_eq!(format!("{:?}", found[0].evidence), "StatedAtSite");
}

#[test]
fn a_receiver_is_typed_where_every_definition_agrees() {
    let container = |path: &str, declared: &str| {
        let mut t = type_info("file", path, 1);
        t.members.push(FieldInfo {
            name: "f_op".to_string(),
            declared_type: declared.to_string(),
            offset: None,
        });
        t.members.push(FieldInfo {
            name: "f_op".to_string(),
            declared_type: "struct later *".to_string(),
            offset: None,
        });
        t
    };
    let ops = "const struct file_operations *";
    let agreeing = vec![
        container("a.h", ops),
        type_info("file", "b.h", 1),
        container("c.h", ops),
        container("d.h", "int"),
    ];
    assert_eq!(agreed_field_type(&agreeing, "f_op"), Some("file_operations".to_string()));
    assert_eq!(agreed_field_type(&agreeing, "other"), None);
    let differing = vec![container("a.h", ops), container("b.h", "struct other *")];
    assert_eq!(agreed_field_type(&differing, "f_op"), None);

    let mut chained = site("vfs.c", "h", None);
    chained.receiver_base_type = Some("file".to_string());
    chained.receiver_field = Some("f_op".to_string());
    let mut typed = chained.clone();
    typed.receiver_type = Some("known".to_string());
    let mut elsewhere = chained.clone();
    elsewhere.receiver_base_type = Some("unknown".to_string());
    let plain = site("vfs.c", "h", None);
    let mut sites = vec![chained, typed, elsewhere, plain];
    assert_eq!(bases_to_look_up(&sites), ["file", "unknown"]);
    let mut containers = NameMap::new();
    containers.insert("file".to_string(), agreeing);
    type_chained_receivers(&mut sites, &containers);
    let types: Vec<Option<&str>> = sites.iter().map(|s| s.receiver_type.as_deref()).collect();
    assert_eq!(types, [Some("file_operations"), Some("known"), None, None]);
    assert_eq!(sites[0].receiver_field.as_deref(), Some("f_op"));
}

#[test]
fn each_member_is_looked_up_once() {
    let registrations = vec![registration("read"), registration("write"), registration("read")];
    assert_eq!(members_to_look_up(&registrations), ["read", "write"]);
}
