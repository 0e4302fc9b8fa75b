use semcode::database_utils::{
    database_marker, process_database_path, requested_path, resolve_path,
};

#[test]
fn test_process_database_path_with_explicit_path() {
    // A path naming the database itself is used as given.
    let result = process_database_path(Some("/path/to/.semcode.db"), None, false, None);
    assert_eq!(result, "/path/to/.semcode.db");
}

#[test]
fn test_process_database_path_with_directory() {
    // Anything else names a directory to hold one, whether or not it is
    // there yet: the indexer creates it, and a later query must be told
    // the same place.
    let result = process_database_path(Some("/existing/dir"), None, false, None);
    assert_eq!(result, "/existing/dir/.semcode.db");
}

#[test]
fn test_process_database_path_no_args_no_source() {
    let result = process_database_path(None, None, false, None);
    assert_eq!(result, "./.semcode.db");
}

#[test]
fn test_process_database_path_no_args_with_source() {
    let result = process_database_path(None, None, false, Some("/source/code"));
    assert_eq!(result, "/source/code/.semcode.db");
}

#[test]
fn test_process_database_path_current_dir_source() {
    let result = process_database_path(None, None, false, Some("."));
    assert_eq!(result, "./.semcode.db");
    assert_eq!(
        process_database_path(None, None, false, Some("./")),
        "./.semcode.db"
    );
}

#[test]
fn test_env_var_used_when_no_flag() {
    let env = Some("/data/my-project.semcode.db");
    let result = process_database_path(None, env, false, None);
    assert_eq!(result, "/data/my-project.semcode.db");

    // Also overrides source_dir fallback
    let result = process_database_path(None, env, false, Some("/source/code"));
    assert_eq!(result, "/data/my-project.semcode.db");
}

#[test]
fn test_flag_overrides_env_var() {
    let result = process_database_path(
        Some("/flag/path.semcode.db"),
        Some("/env/path.semcode.db"),
        false,
        None,
    );
    assert_eq!(result, "/flag/path.semcode.db");
}

#[test]
fn test_empty_env_var_ignored() {
    assert_eq!(
        process_database_path(None, Some(""), false, None),
        "./.semcode.db"
    );
    assert_eq!(
        process_database_path(None, Some(" \t\n"), false, None),
        "./.semcode.db"
    );
    assert_eq!(requested_path(None, Some("  /a ")), Some("/a".to_string()));
}

#[test]
fn a_directory_that_does_not_exist_yet_holds_the_database() {
    assert_eq!(resolve_path("/tmp/x/index", false), "/tmp/x/index/.semcode.db");
    assert_eq!(resolve_path("/tmp/x/", false), "/tmp/x/.semcode.db");
    assert_eq!(resolve_path("", false), ".semcode.db");
}

#[test]
fn the_same_argument_names_the_same_database_once_it_exists() {
    // What the indexer wrote is what a later query must read.
    let written = resolve_path("/tmp/x/index", false);
    assert_eq!(resolve_path("/tmp/x/index", false), written);
    assert_eq!(resolve_path(&written, false), written);
    assert_eq!(resolve_path(&written, true), written);
}

#[test]
fn a_database_written_at_the_path_itself_is_read_there() {
    // Databases already written this way keep working.
    assert_eq!(resolve_path("/tmp/x", true), "/tmp/x");
    assert_eq!(database_marker("/tmp/x"), "/tmp/x/functions.lance");
}
