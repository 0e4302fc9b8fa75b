use semcode::answers::{
    asks_for_subject, show_implementors_to_writer, show_registrations_to_writer, when_it_runs,
    HandedArgument,
};
use semcode::callchain::{CallNode, CallRelationships};
use semcode::callchain_text::{describe_locations, write_caller_above};
use semcode::chain_answers::{
    dispatch_groups, find_all_paths_to_writer, names_the_site, show_callchain_to_writer,
    show_callees_to_writer, shown_count, write_indirect_reverse_chain, CalleesFound, ChainFound,
};
use semcode::collect::ChainCollector;
use semcode::display::{
    display_function_to_writer, display_function_to_writer_with_options, display_type_to_writer,
    display_typedef_to_writer,
};
use semcode::help::{
    print_command_help, print_help, print_welcome_message, print_welcome_message_with_model,
};
use semcode::names::NameMap;
use semcode::resolution::{Evidence, IndirectCaller};
use semcode::types::{
    ArgumentFunction, CalleeDefinition, EdgeLocation, FieldInfo, FunctionInfo, Handover,
    ParameterDispatch, ParameterInfo, Registration, RegistrationKind, TypeInfo, TypedefInfo,
    UnresolvedEdge,
};

fn plain(s: &str) -> String {
    let mut out = String::new();
    let mut in_code = false;
    for c in s.chars() {
        if c == '\u{1b}' {
            in_code = true;
        } else if in_code {
            in_code = c != 'm';
        } else {
            out.push(c);
        }
    }
    out
}

fn function(name: &str) -> FunctionInfo {
    FunctionInfo {
        name: name.to_string(),
        file_path: format!("{name}.c"),
        git_file_hash: "h".to_string(),
        line_start: 3,
        line_end: 9,
        return_type: "int".to_string(),
        parameters: vec![
            ParameterInfo { declared_type: "char *".to_string(), name: "p".to_string() },
            ParameterInfo { declared_type: "int".to_string(), name: "n".to_string() },
        ],
        body: "{ return 0; }".to_string(),
        calls: None,
        types: None,
    }
}

fn names(list: &[&str]) -> Vec<String> {
    list.iter().map(|n| n.to_string()).collect()
}

fn node(name: &str, children: Vec<CallNode>) -> CallNode {
    CallNode { name: name.to_string(), file: format!("{name}.c"), line: 1, children }
}

#[test]
fn a_function_is_shown_with_its_declaration_and_body() {
    let mut out = String::from("> ");
    display_function_to_writer_with_options(&function("f"), &mut out, false);
    assert_eq!(
        plain(&out),
        "> \n=== Function Information ===\nName: f\nFile: f.c\nHash: h\nLines: 3 - 9\n\n\
         Declaration: int f(char * p, int n)\n\n"
    );
    let mut full = String::new();
    display_function_to_writer(&function("f"), &mut full);
    let rule = "─".repeat(80);
    assert!(
        plain(&full).contains(&format!("\nFunction Definition:\n{rule}\n{{ return 0; }}\n{rule}\n")),
        "{full}"
    );
    let none = FunctionInfo { parameters: vec![], body: String::new(), ..function("g") };
    let mut short = String::new();
    display_function_to_writer(&none, &mut short);
    assert!(plain(&short).ends_with("Declaration: int g(void)\n\n"), "{short}");
}

#[test]
fn colors_are_those_of_a_terminal() {
    let mut out = String::new();
    display_function_to_writer_with_options(&function("f"), &mut out, false);
    for part in [
        "\u{1b}[32m\u{1b}[1m=== Function Information ===\u{1b}[0m\u{1b}[39m",
        "\u{1b}[33mf\u{1b}[39m",
        "\u{1b}[36mf.c\u{1b}[39m",
        "\u{1b}[90mh\u{1b}[39m",
        "\u{1b}[32mint f(char * p, int n)\u{1b}[39m",
    ] {
        assert!(out.contains(part), "{part:?} is not in {out:?}");
    }
    let welcome = print_welcome_message_with_model("db", &[], Some("model"));
    assert!(welcome.contains("\u{1b}[94mmodel\u{1b}[39m"), "{welcome:?}");
    assert!(
        welcome.contains("\u{1b}[31mWarning: No tables found in database!\u{1b}[39m"),
        "{welcome:?}"
    );
    let found = Some(ChainFound {
        func: function("f"),
        reverse: Some(node("f", vec![])),
        indirect: vec![],
        aboves: vec![],
        forward: Some(node("f", vec![])),
    });
    let mut chain = String::new();
    show_callchain_to_writer("f", &found, &mut chain);
    for part in ["\u{1b}[35m\u{1b}[1m=== Reverse", "\u{1b}[34m\u{1b}[1m=== Forward"] {
        assert!(chain.contains(part), "{part:?} is not in {chain:?}");
    }
}

#[test]
fn a_type_is_shown_with_its_fields() {
    let field = |name: &str, offset| FieldInfo {
        name: name.to_string(),
        declared_type: "u32".to_string(),
        offset,
    };
    let mut info = TypeInfo {
        name: "t".to_string(),
        file_path: "t.h".to_string(),
        git_file_hash: "h".to_string(),
        line_start: 4,
        kind: "struct".to_string(),
        size: Some(8),
        members: vec![field("a", Some(0)), field("b", None)],
        definition: String::new(),
        types: None,
    };
    let shown = |info: &TypeInfo| {
        let mut out = String::new();
        display_type_to_writer(info, &mut out);
        plain(&out)
    };
    let text = shown(&info);
    assert!(text.contains("Name: struct t\nFile: t.h\nHash: h\nLine: 4\nSize: 8 bytes\n"), "{text}");
    assert!(text.contains("\nFields:\n  - u32 a (offset: 0)\n  - u32 b\n"), "{text}");
    info.members.clear();
    info.size = None;
    let text = shown(&info);
    assert!(text.contains("Fields: (none)") && !text.contains("Size"), "{text}");
    info.kind = "enum".to_string();
    assert!(!shown(&info).contains("Fields"));

    let typedef = TypedefInfo {
        name: "u8".to_string(),
        file_path: "t.h".to_string(),
        git_file_hash: "h".to_string(),
        line_start: 5,
        underlying_type: "unsigned char".to_string(),
        definition: "typedef unsigned char u8;".to_string(),
    };
    let mut out = String::new();
    display_typedef_to_writer(&typedef, &mut out);
    let text = plain(&out);
    assert!(text.contains("Line: 5\nUnderlying Type: unsigned char\n"), "{text}");
    assert!(text.contains("Typedef Definition:\n"), "{text}");
}

#[test]
fn help_names_the_commands() {
    let help = plain(&print_command_help());
    for command in ["callchain", "callers", "calls", "implementors", "grep", "lore", "quit"] {
        assert!(help.contains(command), "{command} is not in {help}");
    }
    assert!(!print_help().is_empty());
    let welcome = plain(&print_welcome_message("db", &names(&["functions"])));
    assert!(welcome.starts_with("=== Semantic Code Query Tool ===\nDatabase: db\n"), "{welcome}");
    assert!(!welcome.contains("Warning") && !welcome.contains("Model Path"), "{welcome}");
}

fn definition(file_path: &str, callees: &[&str], is_definition: bool) -> CalleeDefinition {
    CalleeDefinition {
        file_path: file_path.to_string(),
        line_start: 3,
        callees: names(callees),
        is_definition,
    }
}

fn callees(found: Option<CalleesFound>, verbose: bool) -> String {
    let mut out = String::new();
    show_callees_to_writer("f", verbose, "abc", found, &mut out);
    plain(&out)
}

fn found_callees(definitions: Vec<CalleeDefinition>) -> CalleesFound {
    CalleesFound {
        func: function("f"),
        dispatches: vec![],
        unresolved: vec![],
        definitions,
        callee_infos: vec![],
    }
}

#[test]
fn callees_of_the_only_definition_are_listed() {
    assert_eq!(
        callees(None, false),
        "Finding all functions called by: f\nError: No function 'f' found in database\n"
    );
    let found = found_callees(vec![
        definition("f.c", &["a", "b"], true),
        definition("f.h", &[], false),
    ]);
    let text = callees(Some(found), false);
    assert!(text.contains("Note: 1 of the 2 rows for 'f' declare it without defining it.\n"), "{text}");
    assert!(text.contains("'f' directly calls 2 functions:\n  1. a\n  2. b\n"), "{text}");
    let nothing = callees(Some(found_callees(vec![definition("f.c", &[], true)])), false);
    assert!(nothing.contains("Info: Function 'f' doesn't call any other functions\n"), "{nothing}");
}

#[test]
fn a_verbose_answer_says_where_callees_are() {
    let found = CalleesFound {
        callee_infos: vec![Some(function("a")), None],
        ..found_callees(vec![definition("f.c", &["a", "b"], true)])
    };
    let text = callees(Some(found), true);
    assert!(text.contains("Using git commit: abc\nTarget function 'f' defined in: f.c [file SHA: h]\n"), "{text}");
    assert!(text.contains("  1. a\n     int (a.c:3) [file SHA: h]\n  2. b\n"), "{text}");
}

#[test]
fn every_definition_of_a_name_answers() {
    let found = found_callees(vec![
        definition("x.c", &["a"], true),
        definition("y.c", &[], true),
        definition("f.h", &[], false),
    ]);
    let text = callees(Some(found), false);
    assert!(text.contains("This revision defines 'f' 3 times, 2 of them definitions."), "{text}");
    assert!(text.contains("x.c") && text.contains("y.c") && !text.contains("f.h"), "{text}");
}

#[test]
fn calls_that_cannot_be_followed_are_named() {
    let location = |role: &str, line: u32| EdgeLocation {
        role: role.to_string(),
        file_path: "a.S".to_string(),
        line,
    };
    let locations = vec![location("site", 2), location("table", 7)];
    assert_eq!(describe_locations(&locations), "site a.S:2, table a.S:7");
    let edge = |direction: &str| UnresolvedEdge {
        name: "sys_read".to_string(),
        direction: direction.to_string(),
        kind: "asm".to_string(),
        evidence: String::new(),
        locations: locations.clone(),
        file_path: "a.S".to_string(),
        git_file_hash: "h".to_string(),
        line: 2,
    };
    let dispatch = ParameterDispatch {
        file_path: "f.c".to_string(),
        line: 5,
        parameter: "fn".to_string(),
        position: 1,
        candidates: (0..14).map(|i| (format!("g{i}"), "g.c".to_string(), i)).collect(),
    };
    let found = CalleesFound {
        dispatches: vec![dispatch],
        unresolved: vec![edge("out"), edge("in")],
        ..found_callees(vec![definition("f.c", &["a"], true)])
    };
    let text = callees(Some(found), false);
    assert!(
        text.contains("Through a parameter: f.c:5 calls through fn (parameter 1), which its callers hand:\n  g0 (g.c:0)\n"),
        "{text}"
    );
    assert!(text.contains("  g11 (g.c:11)\n  ... and 2 more\n"), "{text}");
    assert_eq!(text.matches("Unresolved:").count(), 1, "{text}");
    assert!(text.contains("site a.S:2, table a.S:7"), "{text}");
}

fn indirect(caller_name: &str, line: u32) -> IndirectCaller {
    IndirectCaller {
        caller_name: caller_name.to_string(),
        site_file: "s.c".to_string(),
        site_line: line,
        site_byte_start: line as u64,
        member: "read".to_string(),
        site_kind: "member_arrow".to_string(),
        evidence: Evidence::Registered {
            container_type: "file_operations".to_string(),
            registration_file: "r.c".to_string(),
            registration_line: 1,
            registration_count: 1,
            type_matched: true,
        },
    }
}

#[test]
fn dispatches_of_one_function_are_one_way_in() {
    let sites = [indirect("go", 1), indirect("", 2), indirect("go", 3), indirect("other", 4)];
    let groups: Vec<(usize, usize)> =
        dispatch_groups(&sites).iter().map(|g| (g.first, g.sites)).collect();
    assert_eq!(groups, [(0, 2), (1, 1), (3, 1)]);

    let aboves = vec![Some(node("go", vec![node("up", vec![node("top", vec![])])])), None, None];
    let mut out = String::new();
    assert_eq!(write_indirect_reverse_chain(&sites, &aboves, 2, 2, &mut out), 2);
    assert_eq!(
        plain(&out),
        "\n=== Reverse Chain (Through a Function Pointer) ===\n\
         go (s.c:1) dispatches read (2 sites)\n  └─ up (up.c:1)\n    └─ top (top.c:1)\n\
         STORE at s.c:2 dispatches read\n\
         ... and 1 more dispatching sites\n"
    );
    let mut none = String::new();
    assert_eq!(write_indirect_reverse_chain(&[], &vec![], 2, 2, &mut none), 0);
    assert_eq!(none, "");
    assert_eq!((shown_count(7, 0), shown_count(7, 3), shown_count(2, 9)), (1, 3, 2));
}

#[test]
fn callers_above_a_site_are_shown_to_a_depth() {
    let chain = node("a", vec![node("b", vec![node("c", vec![])])]);
    let mut out = String::new();
    write_caller_above(&chain, 1, 2, &mut out);
    assert_eq!(plain(&out), "  └─ a (a.c:1)\n    └─ b (b.c:1)\n");
}

#[test]
fn a_name_belongs_to_its_only_definition() {
    assert!(names_the_site(&[function("f")], "f.c"));
    assert!(!names_the_site(&[function("f")], "g.c"));
    assert!(!names_the_site(&[function("f"), function("f")], "f.c"));
    assert!(!names_the_site(&[], "f.c"));
}

#[test]
fn an_isolated_function_is_said_to_be_one() {
    let shown = |found: Option<ChainFound>| {
        let mut out = String::new();
        show_callchain_to_writer("f", &found, &mut out);
        plain(&out)
    };
    assert!(shown(None).ends_with("Error: Function 'f' not found in database\n"));
    let alone = ChainFound {
        func: function("f"),
        reverse: None,
        indirect: vec![],
        aboves: vec![],
        forward: None,
    };
    assert_eq!(
        shown(Some(alone)),
        "Building call chain for: f\n=== Function Call Chain ===\nFunction: f (f.c:3)\n\
         Return Type: int\nParameters:\n  - char * p\n  - int n\n\n\
         Info: This function is isolated (no callers or callees)\n"
    );
}

fn graph(edges: &[(&str, &[&str])]) -> (NameMap<Vec<FunctionInfo>>, CallRelationships) {
    let mut functions = NameMap::new();
    let mut calls = CallRelationships::new();
    for (name, callees) in edges {
        functions.insert(name.to_string(), vec![function(name)]);
        calls.record(name, names(callees), vec![]);
    }
    (functions, calls)
}

#[test]
fn paths_are_listed_by_where_they_begin() {
    let (functions, calls) = graph(&[("main", &["a"]), ("init", &["b"]), ("a", &["t"]), ("b", &[]), ("t", &[])]);
    let shown = |exists: bool, entries: &[&str]| {
        let mut out = String::new();
        find_all_paths_to_writer("t", exists, &names(entries), &functions, &calls, &mut out);
        plain(&out)
    };
    assert_eq!(
        shown(true, &["main", "init"]),
        "Finding all paths that lead to function: t\n=== Path Analysis ===\nTarget function: t\n\
         Found 2 potential entry points\n\nEntry: From 'main' (1 paths found):\n\
         \x20 1. main → a → t\n\nSummary: Total paths found: 1\n"
    );
    assert!(shown(true, &["init"]).contains("Info: No execution paths found to 't'\n"));
    assert!(shown(false, &["main"]).ends_with("Error: Target function 't' not found in database\n"));
}

fn registration(enclosing: &str) -> Registration {
    Registration {
        container_type: "file_operations".to_string(),
        member: "read".to_string(),
        target: "my_read".to_string(),
        file_path: "a.c".to_string(),
        git_file_hash: "h".to_string(),
        byte_start: 1,
        line: 10,
        enclosing_function: enclosing.to_string(),
        kind: RegistrationKind::DesignatedInit,
        container_base_type: None,
        container_field: None,
    }
}

#[test]
fn what_is_installed_in_a_member_is_listed() {
    let shown = |found: &[Registration]| {
        let mut out = String::new();
        show_implementors_to_writer("file_operations", "read", found, &mut out);
        plain(&out)
    };
    assert_eq!(
        shown(&[]),
        "Finding functions installed in file_operations::read\n\
         Info: Nothing is installed in file_operations::read\n"
    );
    let text = shown(&[registration(""), registration("setup")]);
    assert!(text.contains("2 installed:\n  1. my_read at a.c:10 [designated_init]\n"), "{text}");
    assert!(text.contains("  2. my_read at a.c:10 in setup [designated_init]\n"), "{text}");
}

#[test]
fn a_function_handed_to_a_call_is_followed() {
    let argument = ArgumentFunction {
        target: "irq".to_string(),
        callee: "request_irq".to_string(),
        argument_index: 1,
        taken_address: false,
        file_path: "a.c".to_string(),
        git_file_hash: "h".to_string(),
        byte_start: 1,
        line: 4,
        enclosing_function: "probe".to_string(),
        subject_type: Some("dev".to_string()),
        subject_member: Some("work".to_string()),
    };
    let stored = Handover::StoredIn {
        path: names(&["request_irq", "setup"]),
        container_type: "irqaction".to_string(),
        member: "handler".to_string(),
    };
    let shown = |handover: Option<Handover>| {
        let mut out = String::new();
        let handed = HandedArgument { argument: argument.clone(), handover, holds: None };
        show_registrations_to_writer("irq", &[], &[handed], &mut out);
        plain(&out)
    };
    let text = shown(Some(stored));
    assert!(text.contains("1 calls are handed it as an argument:\n  1. request_irq() argument 1 at a.c:4 in probe\n"), "{text}");
    assert!(text.contains("     installs it in irqaction::handler, called later through request_irq -> setup\n"), "{text}");
    let text = shown(Some(Handover::Invoked { path: names(&["request_irq"]) }));
    assert!(text.contains("     calls it before returning through request_irq\n"), "{text}");
    assert!(!asks_for_subject(&ArgumentFunction { subject_type: None, ..argument.clone() }, &None));
    let mut nothing = String::new();
    show_registrations_to_writer("irq", &[], &[], &mut nothing);
    assert!(
        plain(&nothing).ends_with("Info: irq is not installed in any struct member, and no call is handed it\n"),
        "{nothing}"
    );
}

#[test]
fn a_known_level_says_when_it_runs() {
    let mut known = NameMap::new();
    known.insert("6".to_string(), "runs with the devices".to_string());
    assert_eq!(when_it_runs("elsewhere", &known), "runs at boot");
}

#[test]
fn a_chain_is_collected_to_its_depth() {
    let callees = |name: &str| match name {
        "a" => names(&["b", "c"]),
        "b" => names(&["d", "a"]),
        "d" => names(&["e"]),
        _ => vec![],
    };
    let collected = |depth: usize| {
        let mut collector = ChainCollector::begin("a", depth);
        while let Some(name) = collector.next_name() {
            let next = callees(name);
            collector.follow(&next);
        }
        let found = collector.into_found();
        (0..found.len()).map(|i| found.name_at(i).to_string()).collect::<Vec<_>>()
    };
    assert_eq!(collected(0), ["a"]);
    assert_eq!(collected(2), ["a", "b", "c", "d"]);
    assert_eq!(collected(9), ["a", "b", "c", "d", "e"]);
}
