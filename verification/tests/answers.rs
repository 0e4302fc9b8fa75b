use semcode::answers::{show_callers_to_writer, CallersFound};
use semcode::callchain::{
    build_callchain_recursive_sync, find_paths_bfs, CallNode, CallRelationships,
};
use semcode::callchain_text::{print_callchain_tree_to_writer, show_indirect_callers};
use semcode::names::NameMap;
use semcode::resolution::{Evidence, IndirectCaller};
use semcode::types::FunctionInfo;

fn caller(name: &str, type_matched: bool) -> IndirectCaller {
    IndirectCaller {
        caller_name: name.to_string(),
        site_file: "fs/read_write.c".to_string(),
        site_line: 572,
        site_byte_start: 100,
        member: "read".to_string(),
        site_kind: "member_arrow".to_string(),
        evidence: Evidence::Registered {
            container_type: "file_operations".to_string(),
            registration_file: "fs/proc/inode.c".to_string(),
            registration_line: 556,
            registration_count: 1,
            type_matched,
        },
    }
}

fn rendered(callers: &[IndirectCaller]) -> String {
    let mut out = String::new();
    show_indirect_callers(callers, &mut out);
    out
}

#[test]
fn the_count_alone_still_gets_a_heading() {
    // Without one the note hangs off the direct callers above it and
    // reads as a footnote to them.
    let text = rendered(&[caller("vfs_read", false)]);

    assert!(text.contains("Indirect Callers"), "{text}");
    assert!(text.contains("1 call sites"), "{text}");
    assert!(
        !text.contains("further"),
        "nothing was listed above the note: {text}"
    );
}

#[test]
fn a_note_after_answers_says_further() {
    let text = rendered(&[caller("vfs_read", true), caller("loop_rw_iter", false)]);

    assert!(text.contains("1 call sites can reach it"), "{text}");
    assert!(text.contains("1 further call sites"), "{text}");
}

fn function(name: &str) -> FunctionInfo {
    FunctionInfo {
        name: name.to_string(),
        file_path: format!("{name}.c"),
        git_file_hash: "h".to_string(),
        line_start: 3,
        line_end: 9,
        return_type: "int".to_string(),
        parameters: vec![],
        body: String::new(),
        calls: None,
        types: None,
    }
}

fn graph(edges: &[(&str, &[&str])]) -> (NameMap<Vec<FunctionInfo>>, CallRelationships) {
    let mut functions = NameMap::new();
    let mut calls = CallRelationships::new();
    for (name, callees) in edges {
        functions.insert(name.to_string(), vec![function(name)]);
        calls.record(
            name,
            callees.iter().map(|c| c.to_string()).collect(),
            vec![],
        );
    }
    (functions, calls)
}

fn plain(s: &str) -> String {
    let mut out = String::new();
    let mut in_code = false;
    for c in s.chars() {
        if c == '\u{1b}' {
            in_code = true;
        } else if in_code {
            in_code = c != 'm';
        } else {
            out.push(c);
        }
    }
    out
}

#[test]
fn a_cycle_ends_where_it_closes() {
    let (functions, calls) = graph(&[("a", &["b"]), ("b", &["a"])]);
    let node =
        build_callchain_recursive_sync(&functions, &calls, "a", 5, true, &mut Vec::new());
    let mut out = String::new();
    print_callchain_tree_to_writer(&node, 0, &mut out);
    assert_eq!(
        plain(&out),
        "a (a.c:3)\n  └─ b (b.c:3)\n    └─ a\n      (...)\n"
    );
}

#[test]
fn names_of_a_tree_are_yellow_and_files_grey() {
    let node = CallNode {
        name: "f".to_string(),
        file: "x.c".to_string(),
        line: 7,
        children: vec![],
    };
    let mut out = String::from("> ");
    print_callchain_tree_to_writer(&node, 0, &mut out);
    assert_eq!(
        out,
        "> \u{1b}[33mf\u{1b}[39m (\u{1b}[90mx.c\u{1b}[39m:7)\n"
    );
}

#[test]
fn shortest_ways_are_found_breadth_first() {
    let (functions, calls) = graph(&[
        ("main", &["a", "b"]),
        ("a", &["target", "c"]),
        ("b", &["c"]),
        ("c", &["target"]),
    ]);
    let paths = find_paths_bfs(&functions, &calls, "main", "target", 10).unwrap();
    let joined: Vec<String> = paths.iter().map(|p| p.join(">")).collect();
    assert_eq!(joined, vec!["main>a>target", "main>a>c>target"]);
    assert!(find_paths_bfs(&functions, &calls, "main", "nowhere", 10).is_none());
    assert!(find_paths_bfs(&functions, &calls, "main", "target", 1).is_none());
    assert_eq!(
        find_paths_bfs(&functions, &calls, "main", "main", 0).unwrap(),
        vec![vec!["main".to_string()]]
    );
}

#[test]
fn the_first_way_is_shortest_though_a_longer_one_is_called_first() {
    let (functions, calls) = graph(&[
        ("main", &["a", "d"]),
        ("a", &["b"]),
        ("b", &["target"]),
        ("d", &["target"]),
    ]);
    let paths = find_paths_bfs(&functions, &calls, "main", "target", 10).unwrap();
    let joined: Vec<String> = paths.iter().map(|p| p.join(">")).collect();
    assert_eq!(joined, vec!["main>d>target", "main>a>b>target"]);
}

#[test]
fn an_entry_point_is_not_dead_code() {
    let found = Some(CallersFound {
        func: function("init"),
        callers: vec![],
        caller_infos: vec![],
        indirect: vec![],
        boot_levels: vec!["module_exit".to_string(), "device_initcall".to_string()],
        handed: vec![],
    });
    let mut known = NameMap::new();
    known.insert(
        "module_exit".to_string(),
        "runs when the module is removed".to_string(),
    );
    let mut out = String::new();
    show_callers_to_writer("init", false, "sha", &found, &known, &mut out);
    assert_eq!(
        plain(&out),
        "Finding all functions that call: init\n\
         Entry point: runs at boot, filed as device_initcall\n\
         Entry point: runs when the module is removed, filed as module_exit\n\
         Info: nothing in the source calls it\n"
    );
}

#[test]
fn an_unknown_function_is_an_error() {
    let mut out = String::new();
    show_callers_to_writer("f", true, "sha", &None, &NameMap::new(), &mut out);
    assert_eq!(
        out,
        "Finding all functions that call: \u{1b}[36mf\u{1b}[39m\n\
         \u{1b}[31mError:\u{1b}[39m No function 'f' found in database\n"
    );
}
