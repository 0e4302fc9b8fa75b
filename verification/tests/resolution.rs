use semcode::aggregate::aggregate_of;
use semcode::names::NameMap;
use semcode::resolution::{group_by_member, indirect_callers, Evidence};
use semcode::types::{DispatchKind, DispatchSite, Registration, RegistrationKind};

fn site(member: &str, caller: &str, receiver_type: Option<&str>) -> DispatchSite {
    DispatchSite {
        caller_name: caller.to_string(),
        file_path: "user.c".to_string(),
        git_file_hash: "hash-user".to_string(),
        byte_start: 10,
        line: 42,
        member: member.to_string(),
        receiver_expr: Some("ops".to_string()),
        receiver_type: receiver_type.map(|t| t.to_string()),
        receiver_base_type: None,
        receiver_field: None,
        kind: DispatchKind::MemberArrow,
        target: None,
    }
}

fn registration(container: &str, member: &str, target: &str) -> Registration {
    Registration {
        container_type: container.to_string(),
        member: member.to_string(),
        target: target.to_string(),
        file_path: "driver.c".to_string(),
        git_file_hash: "hash-driver".to_string(),
        byte_start: 20,
        line: 7,
        enclosing_function: String::new(),
        kind: RegistrationKind::DesignatedInit,
        container_base_type: None,
        container_field: None,
    }
}

#[test]
fn a_member_call_reaches_what_is_installed_in_that_member() {
    let sites = group_by_member(vec![site("read", "vfs_read", None)]);
    let found = indirect_callers(
        &[registration("file_operations", "read", "my_read")],
        &sites,
        &[],
    );

    assert_eq!(found.len(), 1);
    assert_eq!(found[0].caller_name, "vfs_read");
    match &found[0].evidence {
        Evidence::Registered {
            container_type,
            type_matched,
            ..
        } => {
            assert_eq!(container_type, "file_operations");
            // The site did not say what type its receiver had.
            assert!(!type_matched);
        }
        other => panic!("unexpected evidence: {other:?}"),
    }
}

#[test]
fn a_typed_site_does_not_match_another_types_member() {
    let sites = group_by_member(vec![site("read", "vfs_read", Some("file_operations"))]);
    let found = indirect_callers(
        &[registration("proto_ops", "read", "sock_read")],
        &sites,
        &[],
    );

    assert!(found.is_empty(), "matched across types: {found:?}");
}

#[test]
fn a_site_that_names_the_target_needs_no_registration() {
    let mut stated = site("handler", "ip_protocol_deliver_rcu", None);
    stated.kind = DispatchKind::MacroDeclared;
    stated.target = Some("tcp_v4_rcv".to_string());

    let found = indirect_callers(&[], &NameMap::new(), &[stated]);

    assert_eq!(found.len(), 1);
    assert_eq!(found[0].evidence, Evidence::StatedAtSite);
    assert!(found[0].evidence.is_type_matched());
}

#[test]
fn a_field_declaration_yields_the_struct_it_names() {
    assert_eq!(
        aggregate_of("struct file_operations *"),
        Some("file_operations".to_string())
    );
    assert_eq!(
        aggregate_of("const struct proto_ops *"),
        Some("proto_ops".to_string())
    );
    assert_eq!(aggregate_of("union u *"), Some("u".to_string()));
}

#[test]
fn a_field_that_is_not_an_aggregate_yields_nothing() {
    // Nothing is registered under a builtin, and a function pointer
    // declares a signature rather than something to dispatch through.
    assert_eq!(aggregate_of("int"), None);
    assert_eq!(aggregate_of("unsigned long"), None);
    assert_eq!(aggregate_of("void *"), None);
    assert_eq!(aggregate_of("int (*)(void)"), None);
}

#[test]
fn a_typedef_name_is_a_container_like_any_other() {
    assert_eq!(aggregate_of("atomic_t"), Some("atomic_t".to_string()));
    assert_eq!(
        aggregate_of("const nvkm_ior_func_bl *"),
        Some("nvkm_ior_func_bl".to_string())
    );
}

#[test]
fn a_site_is_one_answer_however_many_places_install_the_target() {
    // seq_read sits in file_operations::read hundreds of times. The call
    // in vfs_read is still one call.
    let sites = group_by_member(vec![site("read", "vfs_read", Some("file_operations"))]);
    let installs: Vec<Registration> = (0..3)
        .map(|i| {
            let mut registration = registration("file_operations", "read", "seq_read");
            registration.file_path = format!("fs/{i}.c");
            registration.line = 10 + i;
            registration
        })
        .collect();

    let found = indirect_callers(&installs, &sites, &[]);

    assert_eq!(found.len(), 1, "one site, one answer: {found:?}");
    match &found[0].evidence {
        Evidence::Registered {
            registration_count,
            registration_file,
            ..
        } => {
            assert_eq!(*registration_count, 3);
            // The exemplar is the same one whichever order they arrive in.
            assert_eq!(registration_file, "fs/0.c");
        }
        other => panic!("unexpected evidence: {other:?}"),
    }
}

#[test]
fn two_sites_stay_two_answers() {
    let sites = group_by_member(vec![
        site("read", "vfs_read", Some("file_operations")),
        site("read", "loop_rw_iter", Some("file_operations")),
    ]);

    let found = indirect_callers(
        &[registration("file_operations", "read", "seq_read")],
        &sites,
        &[],
    );

    assert_eq!(found.len(), 2, "{found:?}");
}

#[test]
fn two_dispatches_on_one_line_are_two_answers() {
    // `a->run(); b->run();` is two calls, and the answer for each has to
    // count its own installations rather than both.
    let mut first = site("run", "caller", Some("ops"));
    let mut second = site("run", "caller", Some("ops"));
    first.byte_start = 100;
    second.byte_start = 140;

    let found = indirect_callers(
        &[registration("ops", "run", "impl")],
        &group_by_member(vec![first, second]),
        &[],
    );

    assert_eq!(found.len(), 2, "one line swallowed both: {found:?}");
    for caller in &found {
        match &caller.evidence {
            Evidence::Registered {
                registration_count, ..
            } => assert_eq!(*registration_count, 1, "count doubled: {caller:?}"),
            other => panic!("unexpected evidence: {other:?}"),
        }
    }
}

#[test]
fn the_first_place_in_the_tree_is_shown_whatever_the_order() {
    let sites = group_by_member(vec![site("read", "vfs_read", None)]);
    let mut late = registration("file_operations", "read", "seq_read");
    late.file_path = "fs/b.c".to_string();
    late.line = 3;
    let mut early = registration("file_operations", "read", "seq_read");
    early.file_path = "fs/a.c".to_string();
    early.line = 90;
    let mut earliest = registration("file_operations", "read", "seq_read");
    earliest.file_path = "fs/a.c".to_string();
    earliest.line = 9;
    let found = indirect_callers(&[late, early, earliest], &sites, &[]);
    assert_eq!(found.len(), 1);
    assert_eq!(
        found[0].evidence,
        Evidence::Registered {
            container_type: "file_operations".to_string(),
            registration_file: "fs/a.c".to_string(),
            registration_line: 9,
            registration_count: 3,
            type_matched: false,
        }
    );
}

#[test]
fn answers_are_listed_in_order_and_once() {
    let mut a = site("m", "b_caller", None);
    a.target = Some("t".to_string());
    let b = a.clone();
    let mut c = site("m", "a_caller", None);
    c.target = Some("t".to_string());
    let found = indirect_callers(&[], &NameMap::new(), &[a, c, b]);
    let callers: Vec<&str> = found.iter().map(|f| f.caller_name.as_str()).collect();
    assert_eq!(callers, vec!["a_caller", "b_caller"]);
}

#[test]
fn a_site_without_a_member_joins_with_nothing() {
    let grouped = group_by_member(vec![site("", "x", None), site("read", "y", None)]);
    assert_eq!(grouped.len(), 1);
    assert_eq!(grouped.get("read").map(|s| s.len()), Some(1));
    assert!(grouped.get("").is_none());
}

#[test]
fn aggregate_names_are_identifiers() {
    assert_eq!(aggregate_of("struct"), None);
    assert_eq!(aggregate_of("struct 9lives"), None);
    assert_eq!(aggregate_of("volatile struct foo *"), Some("foo".to_string()));
    assert_eq!(aggregate_of("std::string"), None);
    assert_eq!(aggregate_of("größe"), Some("größe".to_string()));
    assert_eq!(aggregate_of(""), None);
}

#[test]
fn signatures_arrays_and_enumerations_are_no_aggregates() {
    assert_eq!(aggregate_of("struct page *(*)(int)"), None);
    assert_eq!(aggregate_of("struct page (*handler)(struct inode *)"), None);
    assert_eq!(aggregate_of("struct page [4]"), None);
    assert_eq!(aggregate_of("volatile struct foo bar[4]"), None);
    assert_eq!(aggregate_of("enum e"), None);
    assert_eq!(aggregate_of("const enum e"), None);
    assert_eq!(aggregate_of("enumeration"), Some("enumeration".to_string()));
}

#[test]
fn attributes_are_cut_off() {
    let page = Some("page".to_string());
    assert_eq!(aggregate_of("struct page __aligned(16)"), page);
    assert_eq!(aggregate_of("struct page __attribute__((packed))"), page);
    assert_eq!(aggregate_of("struct page *__counted_by(n * 2)"), page);
    assert_eq!(aggregate_of("struct page __aligned(sizeof(int[4]))"), page);
    assert_eq!(aggregate_of("struct page __aligned(16"), page);
    assert_eq!(aggregate_of("page_t __aligned (16)"), Some("page_t".to_string()));
    assert_eq!(aggregate_of("struct page *get(int)"), page);
    assert_eq!(aggregate_of("typeof(x)"), Some("typeof".to_string()));
    // A pointer in brackets is still a pointer to the aggregate.
    assert_eq!(aggregate_of("struct page (*x)"), page);
    assert_eq!(aggregate_of("struct page (*x)[4]"), None);
    assert_eq!(aggregate_of("struct page __aligned(16) x[4]"), None);
    assert_eq!(aggregate_of("struct page __aligned(8) (*f)(int)"), None);
    assert_eq!(aggregate_of("page_t (WINAPI *f) (int)"), None);
    assert_eq!(aggregate_of("page_t (*(*f)(int))(char)"), None);
}

#[test]
fn the_order_of_the_rows_changes_no_answer() {
    let at = |container: &str, path: &str, line: u32| {
        let mut r = registration(container, "read", "t");
        r.file_path = path.to_string();
        r.line = line;
        r
    };
    let named = |caller: &str| {
        let mut s = site("read", caller, None);
        s.target = Some("t".to_string());
        s
    };
    let installs = vec![at("ops", "b.c", 2), at("ops", "a.c", 9), at("other", "a.c", 1)];
    let through = vec![
        site("read", "y", None),
        site("read", "x", Some("ops")),
        site("write", "z", None),
    ];
    let stated = vec![named("y"), named("w"), named("y")];
    let backwards = |mut rows: Vec<Registration>| {
        rows.reverse();
        rows
    };
    let mut other_through = through.clone();
    other_through.rotate_left(1);
    let mut other_stated = stated.clone();
    other_stated.swap(0, 1);

    let found = indirect_callers(&installs, &group_by_member(through), &stated);
    let other = indirect_callers(
        &backwards(installs),
        &group_by_member(other_through),
        &other_stated,
    );
    assert_eq!(found.len(), 5);
    assert_eq!(other.len(), 5);
    assert!(found.iter().all(|answer| other.contains(answer)));
    let counted = found
        .iter()
        .find(|answer| answer.caller_name == "x")
        .expect("the typed site is answered");
    assert_eq!(
        counted.evidence,
        Evidence::Registered {
            container_type: "ops".to_string(),
            registration_file: "a.c".to_string(),
            registration_line: 9,
            registration_count: 2,
            type_matched: true,
        }
    );
}

#[test]
fn stored_kinds_are_read_back() {
    for kind in [DispatchKind::MemberArrow, DispatchKind::MacroDeclared] {
        assert_eq!(DispatchKind::from_column_value(kind.as_str()), Some(kind));
    }
    assert_eq!(DispatchKind::from_column_value("other"), None);
    assert_eq!(
        RegistrationKind::from_column_value(RegistrationKind::DesignatedInit.as_str()),
        Some(RegistrationKind::DesignatedInit)
    );
    assert_eq!(RegistrationKind::from_column_value(""), None);
}
