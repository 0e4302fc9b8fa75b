use semcode::chunks::chunk_texts;
use semcode::duplicates::scan_table_for_duplicates;
use semcode::names::{NameMap, NameSet};
use semcode::reports::{
    check_optimization_health, get_compaction_stats, get_lore_table_info, get_storage_stats,
    report_duplicates, statistics_tables, IndexDescription, Paint, Span, TableCount,
    TableFragments,
};
use semcode::revision::{
    at_revision, manifest_of, normalize_manifest_path, workdir_merged_manifest, PathAnswer,
    RevisionPaths,
};
use semcode::sql::{
    contents_filter, equals_filter, member_for_container_filter, name_in_filter, quote,
    slot_filter, type_filter, typedefs_by_contents_filter, types_by_contents_filter,
};
use semcode::stored::{
    content_placeholder, cut_content, of_commit_filter, of_content_filter,
    processed_file_filter, referenced_hashes, MAX_CONTENT_SIZE,
};
use semcode::tables::{
    columns_of, commits_filter, compact_lore_tables, compaction_summary, create_all_fts_indices,
    create_scalar_indices, ensure_fts_plan, existing_data_tables, lore_migration, missing_tables,
    optimize_outcome, orphaned_commits, should_compact, should_merge_fts, worth_optimizing,
    ColumnKind, FtsPlan, OptimizeOutcome, RecreatePhase, Recreation, StepResult,
};

fn names(list: &[&str]) -> Vec<String> {
    list.iter().map(|n| n.to_string()).collect()
}

#[test]
fn missing_tables_are_created_in_order() {
    assert_eq!(missing_tables(&[]).len(), 30);
    let missing = missing_tables(&names(&["functions", "content_0", "lore"]));
    assert_eq!(missing.len(), 27);
    assert_eq!(missing[0], "types");
    assert_eq!(missing[missing.len() - 1], "content_15");
    let unordered = names(&["content_3", "lore", "unknown", "functions"]);
    assert_eq!(existing_data_tables(&unordered), ["functions", "lore", "content_3"]);
    assert_eq!(compact_lore_tables(&unordered), ["lore"]);
}

#[test]
fn tables_have_their_columns() {
    let functions = columns_of("functions").unwrap();
    assert_eq!(functions.len(), 10);
    assert_eq!(functions[7].name, "body_hash");
    assert!(functions[7].nullable && !functions[0].nullable);
    let vectors = columns_of("vectors").unwrap();
    assert!(matches!(vectors[1].kind, ColumnKind::Vector));
    assert_eq!(columns_of("content_12").unwrap()[0].name, "blake3_hash");
    assert!(columns_of("unknown").is_none());
}

#[test]
fn indices_are_created_for_the_tables_there_are() {
    let plan = create_scalar_indices(&names(&["functions"]), None, Some(100));
    assert_eq!(plan.len(), 7);
    assert_eq!(plan[0].description, "BTree index on functions.name");
    assert_eq!(plan[6].columns, ["name", "git_file_hash"]);
    assert_eq!(plan[6].description, "Composite index on functions.(name,git_file_hash)");
    assert!(create_scalar_indices(&names(&["functions"]), Some(101), None).is_empty());
    assert!(create_scalar_indices(&names(&["functions"]), None, Some(101)).is_empty());
}

#[test]
fn small_tables_and_emails_are_not_optimized() {
    assert!(worth_optimizing("functions", 1000));
    assert!(!worth_optimizing("functions", 999));
    assert!(!worth_optimizing("lore", 5000));
    assert!(should_compact(None) && should_compact(Some(500)) && !should_compact(Some(501)));
    let outcomes = vec![
        Some(optimize_outcome(Some(true), true, true)),
        Some(optimize_outcome(None, true, true)),
        Some(optimize_outcome(Some(false), true, true)),
        Some(OptimizeOutcome::Skipped),
        None,
    ];
    assert_eq!(compaction_summary(&outcomes), "    Optimized 2 tables, 1 skipped, 2 failed");
    assert_eq!(compaction_summary(&vec![]), "    Optimized 0 tables");
}

#[test]
fn full_text_indices_are_all_there_or_built_anew() {
    assert!(matches!(ensure_fts_plan(0), FtsPlan::Create));
    assert!(matches!(ensure_fts_plan(4), FtsPlan::Rebuild));
    assert!(matches!(ensure_fts_plan(5), FtsPlan::Keep));
    assert_eq!(create_all_fts_indices(), ["from", "subject", "body", "recipients", "symbols"]);
    assert!(should_merge_fts(None, 1) && should_merge_fts(Some(100), 5));
    assert!(!should_merge_fts(Some(101), 5) && !should_merge_fts(None, 0));
}

#[test]
fn an_old_table_of_emails_is_migrated() {
    let old = lore_migration(&names(&["from", "headers"]));
    assert!(old.drop_headers && old.add_timestamps);
    let columns: Vec<String> =
        columns_of("lore").unwrap().into_iter().map(|c| c.name).collect();
    let new = lore_migration(&columns);
    assert!(!new.drop_headers && !new.add_timestamps);
    let mut stored = NameSet::new();
    stored.insert("b");
    assert_eq!(orphaned_commits(&names(&["a", "b", "c"]), &stored), ["a", "c"]);
    assert_eq!(commits_filter(&names(&["a", "c"])), "git_commit_sha IN ('a', 'c')");
}

#[test]
fn a_table_is_dropped_only_once_its_rows_are_read() {
    let mut recreation = Recreation::of_existing(&names(&["functions", "lore"]));
    assert_eq!(recreation.tables, ["functions", "lore"]);
    recreation.step(StepResult::Exported(0));
    assert!(matches!(recreation.phase, RecreatePhase::Exporting));
    assert_eq!(recreation.at, 1);
    recreation.step(StepResult::Exported(3));
    assert!(matches!(recreation.phase, RecreatePhase::Dropping));
    recreation.step(StepResult::Done);
    assert!(matches!(recreation.phase, RecreatePhase::Creating));
    recreation.step(StepResult::Done);
    assert!(matches!(recreation.phase, RecreatePhase::Importing));
    recreation.step(StepResult::Done);
    assert!(matches!(recreation.phase, RecreatePhase::Indexing));
    recreation.step(StepResult::Done);
    assert!(matches!(recreation.phase, RecreatePhase::FtsIndexing));
    recreation.step(StepResult::Failed);
    assert!(matches!(recreation.phase, RecreatePhase::Finished));
}

#[test]
fn a_failed_export_drops_nothing() {
    let mut recreation = Recreation::of_table("types", &names(&["types"])).ok().unwrap();
    recreation.step(StepResult::Failed);
    assert!(matches!(recreation.phase, RecreatePhase::Failed));
    let mut empty = Recreation::of_table("types", &names(&["types"])).ok().unwrap();
    empty.step(StepResult::Exported(0));
    assert!(matches!(empty.phase, RecreatePhase::Finished));
    let missing = Recreation::of_table("types", &names(&["functions"])).err().unwrap();
    assert_eq!(missing, "Table types does not exist");
}

fn fragments(table: &str, rows: usize, count: usize, small: usize) -> TableFragments {
    TableFragments {
        table: table.to_string(),
        rows,
        fragments: count,
        small_fragments: small,
        mean_rows: if count == 0 { 0 } else { rows / count },
        small_share: "60.0".to_string(),
    }
}

fn shown(spans: &[Span]) -> String {
    spans.iter().map(|s| s.text.as_str()).collect()
}

#[test]
fn fragmented_tables_are_reported() {
    let (ill, report) = check_optimization_health(
        &vec![fragments("functions", 20000, 601, 0), fragments("types", 100, 20, 11)],
        &vec![fragments("content_0", 10, 3001, 4)],
    );
    assert!(ill);
    assert_eq!(
        shown(&report),
        "Optimizing database...\n\
         \x20 • functions: 601 fragments (auto-optimize threshold: 600)\n\
         \x20 • functions: small mean fragment size (33 rows/fragment)\n\
         \x20 • types: 60.0% small fragments (11/20)\n\
         \x20 • content shards: 3001 fragments across 16 shards (threshold: 3000)\n\
         \nTotal: 3622 fragments (15 small)\n"
    );
    assert!(matches!(report[0].paint, Paint::Yellow));
}

#[test]
fn a_healthy_database_is_said_to_be_one() {
    let (ill, report) = check_optimization_health(
        &vec![fragments("functions", 600000, 600, 0), fragments("types", 100, 22, 11)],
        &vec![fragments("content_0", 10, 3000, 4)],
    );
    assert!(!ill);
    assert_eq!(shown(&report), "✓ Database is healthy (3622 fragments, 15 small)\n");
}

fn count(table: &str, rows: Result<usize, &str>) -> TableCount {
    TableCount { table: table.to_string(), rows: rows.map_err(|m| m.to_string()) }
}

#[test]
fn storage_is_counted_table_by_table() {
    let tables = vec![count("functions", Ok(2048)), count("types", Err("gone"))];
    let shards = vec![count("content_0", Ok(3)), count("content_1", Ok(4))];
    let text = shown(&get_storage_stats(&tables, &shards, 1024, "50.0"));
    assert!(text.starts_with("=== Database Storage Statistics ===\nfunctions: 2048 rows\n"), "{text}");
    assert!(
        text.contains(
            "  Functions with vectors: 1024\n  Functions without vectors: 1024\n  Vector storage: 1 MB\n  Estimated text storage: 4 MB\n  Vector coverage: 50.0%\n"
        ),
        "{text}"
    );
    assert!(text.contains("types: Error getting count - gone\n"), "{text}");
    assert!(text.contains("content: 7 rows (across 16 shards)\n"), "{text}");
    assert!(text.contains("Total: 2055 rows\n\n"), "{text}");
    let text = shown(&get_compaction_stats(&tables, &shards));
    assert!(text.contains("types: Error - gone\n"), "{text}");
    assert_eq!(statistics_tables().len(), 9);
}

#[test]
fn duplicates_are_reported() {
    let row = |text: &str| vec![Some(text.to_string())];
    let scan = scan_table_for_duplicates("lore", &vec![row("a"), row("a"), row("b")], true);
    assert_eq!(
        shown(&report_duplicates("lore", &scan, "66.7")),
        "=== lore ===\nTotal rows: 3\nDuplicate groups: 1\nTotal duplicate rows: 2\n\
         Duplicate percentage: 66.7%\n\nExample duplicates (showing up to 5 groups):\n\
         \x20 Group 1: 2 identical rows\n    Sample: lore row: a\n\n"
    );
    let none = scan_table_for_duplicates("lore", &vec![row("a"), row("b")], true);
    assert_eq!(
        shown(&report_duplicates("lore", &none, "0.0")),
        "=== lore ===\nTotal rows: 2\nNo duplicates found ✓\n\n"
    );
}

#[test]
fn indices_of_the_emails_are_described() {
    let index = IndexDescription {
        name: "from_idx".to_string(),
        columns: "[\"from\"]".to_string(),
        kind: "FTS".to_string(),
    };
    assert_eq!(
        get_lore_table_info(12, &vec![index]),
        "Lore Table Information:\n  Total emails: 12\n\nIndices (1 total):\n  - from_idx on [\"from\"] (type: FTS)\n"
    );
}

#[test]
fn quotes_in_values_are_doubled() {
    assert_eq!(quote("it's"), "'it''s'");
    assert_eq!(equals_filter("name", "a' OR '1'='1"), "name = 'a'' OR ''1''=''1'");
    assert!(name_in_filter(&names(&["a", "b'"])).contains("'b'''"));
    assert_eq!(slot_filter("ops", "read"), "container_type = 'ops' AND member = 'read'");
    assert_eq!(
        type_filter("t", "struct", "a'.h"),
        "name = 't' AND kind = 'struct' AND file_path = 'a''.h'"
    );
    assert!(member_for_container_filter("ops", "read").contains("member = 'read'"));
    for filter in [
        contents_filter(&names(&["h1", "h2"])),
        types_by_contents_filter(&names(&["h1", "h2"]), Some("t"), Some("struct")),
        typedefs_by_contents_filter(&names(&["h1", "h2"]), Some("t")),
    ] {
        assert!(filter.contains("'h1'") && filter.contains("'h2'"), "{filter}");
    }
}

#[test]
fn commits_are_selected_by_their_text() {
    assert_eq!(of_commit_filter(Some("abc0")), "git_sha = 'abc0'");
    assert_eq!(of_commit_filter(None), "git_sha IS NULL");
    assert_eq!(of_commit_filter(Some("a'")), "git_sha = 'a'''");
    assert_eq!(of_content_filter("h"), "git_file_sha = 'h'");
    assert_eq!(
        processed_file_filter("a.c", None, "h"),
        "file = 'a.c' AND git_sha IS NULL AND git_file_sha = 'h'"
    );
}

#[test]
fn content_that_is_not_fetched_is_its_hash() {
    assert_eq!(content_placeholder(&Some("aZ".to_string())), "[blake3:615a]");
    assert_eq!(content_placeholder(&Some("aY".to_string())), "[blake3:6159]");
    assert_eq!(content_placeholder(&None), "");
    let hashes = referenced_hashes(&vec![Some("a".to_string()), None, Some("a".to_string())]);
    assert_eq!(hashes.len(), 1);
}

#[test]
fn long_content_is_cut() {
    let long = "x".repeat(MAX_CONTENT_SIZE + 1);
    assert_eq!(cut_content(long).len(), MAX_CONTENT_SIZE);
    assert_eq!(cut_content("short".to_string()), "short");
}

#[test]
fn lists_are_cut_into_chunks() {
    let chunks = chunk_texts(&names(&["a", "b", "c"]), 2);
    assert_eq!(chunks, [names(&["a", "b"]), names(&["c"])]);
    assert!(chunk_texts(&[], 2).is_empty());
}

fn known(answer: PathAnswer) -> Option<String> {
    match answer {
        PathAnswer::Known(hash) => hash,
        _ => panic!("the path has to be looked up"),
    }
}

#[test]
fn the_working_tree_answers_before_the_revision() {
    let mut dirty = NameMap::new();
    dirty.insert("a.c".to_string(), "dirty".to_string());
    let mut deleted = NameSet::new();
    deleted.insert("gone.c");
    let mut paths =
        RevisionPaths::new_lazy("/repo".to_string(), "abc".to_string(), dirty, deleted, true);
    assert_eq!((paths.repo_path(), paths.git_sha()), ("/repo", "abc"));
    assert_eq!(known(paths.hash_of("a.c")), Some("dirty".to_string()));
    assert_eq!(known(paths.hash_of("gone.c")), None);
    assert!(matches!(paths.hash_of("b.c"), PathAnswer::ResolvePath));
    assert_eq!(paths.record_resolved("b.c", Some("b".to_string())), Some("b".to_string()));
    assert_eq!(paths.record_resolved("b.c", None), Some("b".to_string()));
    assert_eq!(known(paths.hash_of("b.c")), Some("b".to_string()));
}

#[test]
fn the_tree_is_walked_after_many_lookups() {
    let mut paths = RevisionPaths::new_lazy(
        "/repo".to_string(),
        "abc".to_string(),
        NameMap::new(),
        NameSet::new(),
        true,
    );
    for i in 0..64 {
        assert!(matches!(paths.hash_of(&format!("{i}.c")), PathAnswer::ResolvePath));
        paths.record_resolved(&format!("{i}.c"), None);
    }
    assert!(matches!(paths.hash_of("next.c"), PathAnswer::WalkTree));
    let tree = manifest_of(&vec![("next.c".to_string(), "n".to_string())]);
    assert_eq!(paths.record_walk("next.c", Some(tree)), Some("n".to_string()));
    assert_eq!(known(paths.hash_of("next.c")), Some("n".to_string()));
    assert_eq!(known(paths.hash_of("other.c")), None);
}

#[test]
fn rows_of_another_revision_are_left_out() {
    let paths = RevisionPaths::from_map(manifest_of(&vec![
        ("a.c".to_string(), "new".to_string()),
        ("b.c".to_string(), "b".to_string()),
    ]));
    assert_eq!(paths.len(), 2);
    let rows = vec![("a.c", "old"), ("b.c", "b"), ("a.c", "new"), ("c.c", "c")];
    let kept = at_revision(rows, &paths, |row: &(&str, &str)| (row.0.to_string(), row.1.to_string()));
    assert_eq!(kept.ok().unwrap(), [("b.c", "b"), ("a.c", "new")]);

    let lazy = RevisionPaths::new_lazy(
        "/repo".to_string(),
        "abc".to_string(),
        NameMap::new(),
        NameSet::new(),
        true,
    );
    let (rows, lookup) =
        at_revision(vec![("a.c", "x")], &lazy, |row: &(&str, &str)| (row.0.to_string(), row.1.to_string()))
            .err()
            .unwrap();
    assert_eq!(rows.len(), 1);
    assert_eq!((lookup.path.as_str(), lookup.walk), ("a.c", false));
    assert_eq!(normalize_manifest_path("a//b.c"), "a/b.c");
}

#[test]
fn a_manifest_shows_the_working_tree() {
    let entry = |path: &str, hash: &str| (path.to_string(), hash.to_string());
    let head = manifest_of(&vec![entry("a.c", "a"), entry("b.c", "b"), entry("gone.c", "g")]);
    let mut dirty = NameMap::new();
    dirty.insert("b.c".to_string(), "dirty".to_string());
    dirty.insert("new.c".to_string(), "new".to_string());
    let mut deleted = NameSet::new();
    deleted.insert("gone.c");
    let merged = workdir_merged_manifest(&head, &dirty, &deleted);
    assert_eq!(merged.len(), 3);
    assert_eq!(merged.get("a.c").unwrap(), "a");
    assert_eq!(merged.get("b.c").unwrap(), "dirty");
    assert_eq!(merged.get("new.c").unwrap(), "new");
}
