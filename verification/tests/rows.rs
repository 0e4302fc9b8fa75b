use semcode::duplicates::{
    create_readable_row_summary, create_row_signature, scan_table_for_duplicates, tables_to_scan,
};
use semcode::index_state::{
    get_files_for_incremental_scan, index_predates_reader, initial_metadata, mark_file_processed,
    processed_by_this_extractor, recorded_index_options, ChangeType, ChangedFile, ManifestCache,
};
use semcode::inserts::{insert_batch_combined, symbol_filename_pairs, unique_definitions};
use semcode::keyed::one_row_per_key;
use semcode::names::NameMap;
use semcode::rows::{
    all_macros, find_by_name_file_and_hash, function_in_file_filter, last_by_name,
    one_macro_per_definition, one_site_per_place, read_argument, read_function, read_record,
    read_registration, read_site, read_type, typedefs_filter, write_argument, write_function,
    write_function_metadata, write_record, write_registration, write_site, write_type,
    write_type_metadata, Paging,
};
use semcode::stored::{
    metadata_into_function, metadata_into_type, metadata_only_function, metadata_only_type,
    one_type_per_key, prefer_definitions, typedef_from_type, typedef_into_type,
    ProcessedFileRecord,
};
use semcode::types::{
    ArgumentFunction, DispatchKind, DispatchSite, FunctionInfo, ObjectMacro, Registration,
    RegistrationKind, TypeInfo, TypedefInfo,
};

fn names(list: &[&str]) -> Vec<String> {
    list.iter().map(|n| n.to_string()).collect()
}

fn function() -> FunctionInfo {
    FunctionInfo {
        name: "f".to_string(),
        file_path: "f.c".to_string(),
        git_file_hash: "h".to_string(),
        line_start: 3,
        line_end: u32::MAX,
        return_type: "int".to_string(),
        parameters: Vec::new(),
        body: "int f(void) {}".to_string(),
        calls: Some(names(&["a", "b"])),
        types: None,
    }
}

fn type_info() -> TypeInfo {
    TypeInfo {
        name: "t".to_string(),
        file_path: "t.h".to_string(),
        git_file_hash: "h".to_string(),
        line_start: 9,
        kind: "struct".to_string(),
        size: Some(u64::MAX),
        members: Vec::new(),
        definition: String::new(),
        types: Some(names(&["u"])),
    }
}

fn site() -> DispatchSite {
    DispatchSite {
        caller_name: "go".to_string(),
        file_path: "a.c".to_string(),
        git_file_hash: "hash-a".to_string(),
        byte_start: 120,
        line: 7,
        member: "read".to_string(),
        receiver_expr: Some("ops".to_string()),
        receiver_type: None,
        receiver_base_type: None,
        receiver_field: None,
        kind: DispatchKind::MemberArrow,
        target: None,
    }
}

#[test]
fn functions_are_read_back_as_they_were_stored() {
    let row = write_function(&function(), "[]", "b3").unwrap();
    assert_eq!(row.calls.as_deref(), Some(r#"["a","b"]"#));
    assert_eq!(row.types, None);
    assert_eq!(row.body_hash.as_deref(), Some("b3"));
    let read = read_function(row, Vec::new()).ok().unwrap();
    assert_eq!((read.line_start, read.line_end), (3, u32::MAX));
    assert_eq!(read.calls, Some(names(&["a", "b"])));
    assert_eq!(read.types, None);

    let empty = FunctionInfo { body: String::new(), ..function() };
    assert_eq!(write_function(&empty, "[]", "b3").unwrap().body_hash, None);
}

#[test]
fn metadata_rows_have_no_nulls() {
    let row = write_function_metadata(&function(), "[]", "b3");
    assert_eq!(row.types.as_deref(), Some(""));
    assert_eq!(row.body_hash.as_deref(), Some("b3"));
    let unknown = FunctionInfo { calls: None, body: String::new(), ..function() };
    let row = write_function_metadata(&unknown, "[]", "b3");
    assert_eq!(row.body_hash.as_deref(), Some(""));
    // A list of calls that is not known cannot be told from one that is broken.
    assert!(read_function(row, Vec::new()).is_err());

    let unsized_type = TypeInfo { size: None, types: None, ..type_info() };
    let row = write_type_metadata(&unsized_type, "[]", "b3");
    assert_eq!(row.size, Some(0));
    assert_eq!(row.types.as_deref(), Some(""));
    assert_eq!(row.definition_hash.as_deref(), Some(""));
}

#[test]
fn types_are_read_back_as_they_were_stored() {
    let row = write_type(&type_info(), "[]", "b3").unwrap();
    assert_eq!(row.size, Some(-1));
    assert_eq!(row.definition_hash, None);
    let read = read_type(row, Vec::new());
    assert_eq!(read.size, Some(u64::MAX));
    assert_eq!(read.types, Some(names(&["u"])));
}

#[test]
fn sites_are_read_back_as_they_were_stored() {
    let wide = DispatchSite {
        byte_start: u64::MAX,
        target: Some("f".to_string()),
        kind: DispatchKind::MacroDeclared,
        ..site()
    };
    let row = write_site(wide.clone());
    assert_eq!((row.byte_start, row.kind.as_str()), (-1, "macro_declared"));
    assert_eq!(format!("{:?}", read_site(row).unwrap()), format!("{wide:?}"));
    let row = write_site(site());
    assert_eq!(row.target.as_deref(), Some(""));
    assert_eq!(read_site(row).unwrap().target, None);
    let mut unknown = write_site(site());
    unknown.kind = "guess".to_string();
    assert_eq!(read_site(unknown).unwrap_err(), "unknown dispatch kind 'guess'");
}

#[test]
fn registrations_are_read_back_as_they_were_stored() {
    let registration = Registration {
        container_type: String::new(),
        member: "read".to_string(),
        target: "my_read".to_string(),
        file_path: "a.c".to_string(),
        git_file_hash: "h".to_string(),
        byte_start: 100,
        line: 10,
        enclosing_function: "init".to_string(),
        kind: RegistrationKind::DesignatedInit,
        container_base_type: Some("file".to_string()),
        container_field: Some("f_op".to_string()),
    };
    let row = write_registration(registration.clone());
    assert_eq!(format!("{:?}", read_registration(row.clone()).unwrap()), format!("{registration:?}"));
    let mut empty = row.clone();
    empty.container_field = Some(String::new());
    assert_eq!(read_registration(empty).unwrap().container_field, None);
    let mut unknown = row;
    unknown.kind = "guess".to_string();
    assert_eq!(read_registration(unknown).unwrap_err(), "unknown registration kind 'guess'");
}

#[test]
fn arguments_and_records_are_read_back_as_they_were_stored() {
    let argument = ArgumentFunction {
        target: "f".to_string(),
        callee: "register".to_string(),
        argument_index: 2,
        taken_address: true,
        file_path: "a.c".to_string(),
        git_file_hash: "h".to_string(),
        byte_start: 1 << 63,
        line: 4,
        enclosing_function: "init".to_string(),
        subject_type: None,
        subject_member: None,
    };
    let read = read_argument(write_argument(argument.clone()));
    assert_eq!(format!("{read:?}"), format!("{argument:?}"));

    let record = ProcessedFileRecord {
        file: "a.c".to_string(),
        git_sha: None,
        git_file_sha: "h".to_string(),
        extractor_version: Some(u32::MAX),
    };
    let row = write_record(record);
    assert_eq!(row.extractor_version, Some(4294967295));
    assert_eq!(read_record(row).extractor_version, Some(u32::MAX));
}

#[test]
fn reindexing_unchanged_content_keeps_one_row_per_dispatch_site() {
    let kept = one_site_per_place(vec![site(), site()]);
    assert_eq!(kept.len(), 1, "re-inserting the same site duplicated it");
    assert_eq!(format!("{:?}", kept[0]), format!("{:?}", site()));

    let named = DispatchSite { target: Some("f".to_string()), ..site() };
    let later = DispatchSite { line: 8, ..site() };
    let kept = one_site_per_place(vec![site(), named, later]);
    let lines: Vec<(u32, Option<&str>)> =
        kept.iter().map(|s| (s.line, s.target.as_deref())).collect();
    assert_eq!(lines, [(7, Some("f")), (8, None)]);
}

#[test]
fn the_last_row_of_a_key_is_kept() {
    let rows = vec![(1u64, "a"), (2, "b"), (1, "c")];
    let kept = one_row_per_key(rows, |row: &(u64, &str)| row.0);
    assert_eq!(kept, [(2, "b"), (1, "c")]);
    // Keys that would be one text when put next to each other are still two.
    let rows = vec![("a", "bc"), ("ab", "c")];
    let kept = one_row_per_key(rows, |row: &(&str, &str)| (row.0.to_string(), row.1.to_string()));
    assert_eq!(kept.len(), 2);
}

#[test]
fn the_first_type_of_a_key_is_kept() {
    let second = TypeInfo { line_start: 20, ..type_info() };
    let other = TypeInfo { kind: "union".to_string(), ..type_info() };
    let kept = one_type_per_key(vec![type_info(), second, other]);
    let kept: Vec<(u32, &str)> = kept.iter().map(|t| (t.line_start, t.kind.as_str())).collect();
    assert_eq!(kept, [(9, "struct"), (9, "union")]);
}

#[test]
fn the_first_macro_of_a_name_wins() {
    let pair = |n: &str, e: &str| (n.to_string(), e.to_string());
    let macros = all_macros(vec![pair("A", "1"), pair("B", "2"), pair("A", "3")]);
    assert_eq!(macros.get("A").unwrap(), "1");
    assert_eq!(macros.len(), 2);
    let row = |expansion: &str| ObjectMacro {
        name: "A".to_string(),
        expansion: expansion.to_string(),
        file_path: "a.h".to_string(),
        git_file_hash: "h".to_string(),
    };
    let kept = one_macro_per_definition(vec![row("1"), row("2")]);
    assert_eq!(kept.len(), 1);
    assert_eq!(kept[0].expansion, "2");
}

#[test]
fn typedefs_are_stored_as_types() {
    let typedef = TypedefInfo {
        name: "u8".to_string(),
        file_path: "t.h".to_string(),
        git_file_hash: "h".to_string(),
        line_start: 5,
        underlying_type: "unsigned char".to_string(),
        definition: "typedef unsigned char u8;\n".to_string(),
    };
    let stored = typedef_into_type(typedef.clone());
    assert_eq!(stored.kind, "typedef");
    assert_eq!(
        stored.definition,
        "// Underlying type: unsigned char\ntypedef unsigned char u8;\n"
    );
    let read = typedef_from_type(stored.clone());
    assert_eq!(format!("{read:?}"), format!("{typedef:?}"));
    let plain = TypeInfo { definition: "typedef int x;".to_string(), ..stored };
    let read = typedef_from_type(plain);
    assert_eq!((read.underlying_type.as_str(), read.definition.as_str()), ("unknown", "typedef int x;"));
}

#[test]
fn rows_are_found_by_name_and_content() {
    let later = TypeInfo { line_start: 20, ..type_info() };
    let by_name = last_by_name(vec![type_info(), later]);
    assert_eq!(by_name.get("t").unwrap().line_start, 20);

    let second = FunctionInfo { line_start: 4, ..function() };
    let other = FunctionInfo { git_file_hash: "x".to_string(), ..function() };
    let found = find_by_name_file_and_hash(vec![other, function(), second], "h").unwrap();
    assert_eq!(found.line_start, 3);
    assert!(find_by_name_file_and_hash(vec![function()], "y").is_none());
    assert_eq!(
        function_in_file_filter("f", "a'b.c"),
        "name = 'f' AND file_path = 'a''b.c'"
    );
    assert_eq!(typedefs_filter("name = 'x'"), "name = 'x' AND kind = 'typedef'");
}

#[test]
fn a_page_that_is_not_full_is_the_last() {
    let mut paging = Paging::begin();
    assert!(!paging.page(10000));
    assert_eq!(paging.offset, 10000);
    assert!(paging.page(9999));
}

#[test]
fn a_batch_stores_bodies_definitions_and_where_names_are_defined() {
    let empty = FunctionInfo { body: String::new(), name: "m".to_string(), ..function() };
    let defined = TypeInfo { definition: "struct t;".to_string(), ..type_info() };
    let batch = insert_batch_combined(vec![function()], &vec![defined], vec![empty]);
    assert_eq!(batch.functions.len(), 2);
    assert_eq!(batch.contents, ["int f(void) {}", "struct t;"]);
    let symbols: Vec<(&str, &str)> =
        batch.symbols.iter().map(|(n, f)| (n.as_str(), f.as_str())).collect();
    assert_eq!(symbols, [("f", "f.c"), ("m", "f.c"), ("t", "t.h")]);
    assert_eq!(symbol_filename_pairs(&vec![function()]).len(), 1);
    assert_eq!(
        unique_definitions(&vec![function(), function()]),
        ["int f(void) {}"]
    );
}

fn record(hash: &str, version: Option<u32>) -> ProcessedFileRecord {
    ProcessedFileRecord {
        file: "a.c".to_string(),
        git_sha: None,
        git_file_sha: hash.to_string(),
        extractor_version: version,
    }
}

#[test]
fn files_read_by_an_older_build_are_read_again() {
    let records = vec![record("a", Some(1)), record("b", None), record("a", Some(1)), record("c", Some(2))];
    assert_eq!(processed_by_this_extractor(&records), ["a"]);
    assert!(index_predates_reader(&records, Some(1)));
    assert!(!index_predates_reader(&vec![record("a", Some(1))], None));
    assert!(index_predates_reader(&vec![], None));
    assert!(!index_predates_reader(&vec![], Some(1)));
}

#[test]
fn a_file_marked_now_may_be_skipped() {
    let marked = mark_file_processed("a.c".to_string(), Some("abc".to_string()), "a".to_string());
    assert_eq!(marked.extractor_version, Some(1));
    assert_eq!(processed_by_this_extractor(&vec![record("b", None), marked]), ["a"]);
}

#[test]
fn what_is_not_fetched_is_shown_by_its_hash() {
    let row = write_function(&function(), "[]", "b3").unwrap();
    let metadata = read_function(row, Vec::new()).ok().unwrap();
    let shown = metadata_only_function(metadata);
    assert_eq!((shown.name.as_str(), shown.body.as_str()), ("f", "[blake3:6233]"));
    let row = write_type(&type_info(), "[]", "b3").unwrap();
    assert_eq!(metadata_only_type(read_type(row, Vec::new())).definition, "");
}

#[test]
fn bodies_and_definitions_are_attached_by_their_hash() {
    let mut contents = NameMap::new();
    contents.insert("b3".to_string(), "int f(void) {}".to_string());
    let read = |hash: &str| {
        let row = write_function(&function(), "[]", hash).unwrap();
        read_function(row, Vec::new()).ok().unwrap()
    };
    assert_eq!(metadata_into_function(read("b3"), &contents).body, "int f(void) {}");
    assert_eq!(metadata_into_function(read("other"), &contents).body, "");
    let row = write_type_metadata(&type_info(), "[]", "b3");
    assert_eq!(metadata_into_type(read_type(row, Vec::new()), &contents).definition, "");
}

#[test]
fn definitions_are_preferred_to_declarations() {
    let long = FunctionInfo { body: "x".repeat(101), line_end: 9, ..function() };
    let short = FunctionInfo { body: "x".repeat(100), line_end: 9, ..function() };
    let kept = prefer_definitions(vec![short.clone(), long]);
    assert_eq!(kept.len(), 1);
    assert_eq!(kept[0].body.len(), 101);
    assert_eq!(prefer_definitions(vec![short.clone(), short]).len(), 2);
}

#[test]
fn an_index_says_how_it_was_built() {
    assert_eq!(recorded_index_options(None, Some("skipped")), None);
    assert_eq!(recorded_index_options(Some(""), None), None);
    assert_eq!(
        recorded_index_options(Some("c,h"), Some("skipped")),
        Some((names(&["c", "h"]), true))
    );
    assert_eq!(recorded_index_options(Some("c"), Some("kept")), Some((names(&["c"]), false)));
    let said = initial_metadata(12);
    assert_eq!(said[0], ("schema_version".to_string(), "1".to_string()));
    assert_eq!(said[2].1, "12");
}

#[test]
fn one_manifest_is_held() {
    let mut cache = ManifestCache::new();
    assert!(cache.get("one").is_none());
    let mut manifest = NameMap::new();
    manifest.insert("a.c".to_string(), "h".to_string());
    cache.keep("one", manifest);
    assert_eq!(cache.get("one").unwrap().get("a.c").unwrap(), "h");
    cache.keep("two", NameMap::new());
    assert!(cache.get("one").is_none());
    assert!(cache.get("two").unwrap().is_empty());
}

#[test]
fn an_incremental_scan_reads_what_changed_and_is_left() {
    let changed = |path: &str, change_type: ChangeType| ChangedFile {
        path: path.to_string(),
        change_type,
    };
    let files = get_files_for_incremental_scan(
        &vec![
            changed("new.c", ChangeType::Added),
            changed("gone.c", ChangeType::Deleted),
            changed("m.c", ChangeType::Modified),
        ],
        &names(&["near.c", "gone.c", "m.c"]),
    );
    assert_eq!(files.len(), 3);
    for path in ["new.c", "m.c", "near.c"] {
        assert!(files.contains(path), "{path}");
    }
}

fn cells(list: &[Option<&str>]) -> Vec<Option<String>> {
    list.iter().map(|c| c.map(|t| t.to_string())).collect()
}

#[test]
fn rows_are_duplicates_where_all_columns_are_identical() {
    assert_eq!(create_row_signature(&cells(&[Some("ab"), None, Some("")])), "2:ab-0:");
    let rows = vec![
        cells(&[Some("a||b"), Some("c")]),
        cells(&[Some("a"), Some("b||c")]),
        cells(&[Some("NULL"), Some("x")]),
        cells(&[None, Some("x")]),
        cells(&[Some("NULL"), Some("x")]),
        cells(&[Some("NULL"), Some("x")]),
    ];
    let scan = scan_table_for_duplicates("lore", &rows, true);
    assert_eq!(scan.total_rows, 6);
    assert_eq!(scan.duplicate_groups, 1);
    assert_eq!(scan.duplicate_rows, 3);
    assert_eq!(scan.examples, [("lore row: NULL".to_string(), 3)]);
    assert_eq!(tables_to_scan().len(), 9);
}

#[test]
fn at_most_five_groups_are_shown() {
    let mut rows = Vec::new();
    for i in 0..7 {
        let text = i.to_string();
        rows.push(cells(&[Some(&text)]));
        rows.push(cells(&[Some(&text)]));
    }
    let scan = scan_table_for_duplicates("vectors", &rows, false);
    assert_eq!((scan.duplicate_groups, scan.duplicate_rows), (7, 14));
    assert_eq!(scan.examples.len(), 5);
    assert_eq!(scan.examples[4], ("vectors row: ...".to_string(), 2));
}

#[test]
fn rows_are_summarized_by_their_table() {
    let row = cells(&[Some("f"), Some("a.c"), Some("0123456789")]);
    assert_eq!(create_readable_row_summary("functions", &row, true), "f() in a.c (01234567...)");
    let row = cells(&[Some("f"), None, Some("012")]);
    assert_eq!(create_readable_row_summary("functions", &row, true), "f() in NULL (012...)");
    let row = cells(&[Some("t"), Some("t.h"), None, None, Some("struct")]);
    assert_eq!(create_readable_row_summary("types", &row, true), "struct t in t.h");
}
