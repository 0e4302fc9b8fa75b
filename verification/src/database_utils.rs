//! Where the database is: the rules that turn an argument into a path.
use vstd::prelude::*;
use crate::paths::{below, current_dir, is_current_dir, join_path};
use crate::text::{ends_with, has_suffix, trim, trimmed};

verus! {

/// The path a database argument names: the argument itself where it already
/// names a database, else the database in the directory it names.
pub open spec fn resolved(path: Seq<char>, is_database: bool) -> Seq<char> {
    if has_suffix(path, ".semcode.db"@) || is_database {
        path
    } else {
        below(path, ".semcode.db"@)
    }
}

/// The file whose presence shows that a path is itself a database.
pub fn database_marker(path: &str) -> (r: String)
    ensures
        r@ == below(path@, "functions.lance"@),
{
    join_path(path, "functions.lance")
}

/// Normalizes a database path. `is_database` says whether the path holds a
/// database on disk, so that one argument names one database whatever order the
/// commands run in.
pub fn resolve_path(path: &str, is_database: bool) -> (r: String)
    ensures
        r@ == resolved(path@, is_database),
{
    if ends_with(path, ".semcode.db") || is_database {
        String::from_str(path)
    } else {
        join_path(path, ".semcode.db")
    }
}

/// The path that was asked for: the argument, or else what the environment
/// says, unless that is blank.
pub open spec fn requested(database_arg: Option<&str>, env_path: Option<&str>) -> Option<Seq<char>> {
    match (database_arg, env_path) {
        (Some(path), _) => Some(path@),
        (None, Some(path)) => if trimmed(path@).len() > 0 {
            Some(trimmed(path@))
        } else {
            None
        },
        (None, None) => None,
    }
}

/// The path that was asked for, if one was: the one to look for a database at.
pub fn requested_path(database_arg: Option<&str>, env_path: Option<&str>) -> (r: Option<String>)
    ensures
        match r {
            Some(path) => requested(database_arg, env_path) == Some(path@),
            None => requested(database_arg, env_path) is None,
        },
{
    match database_arg {
        Some(path) => Some(String::from_str(path)),
        None => match env_path {
            Some(env_path) => {
                let path = trim(env_path);
                if path.as_str().is_empty() {
                    None
                } else {
                    Some(path)
                }
            },
            None => None,
        },
    }
}

/// Where the database is when nothing was asked for: in the source directory
/// when something is indexed, else in the current directory.
pub open spec fn default_place(source_dir: Option<&str>) -> Seq<char> {
    match source_dir {
        Some(dir) => if current_dir(dir@) {
            "./.semcode.db"@
        } else {
            below(dir@, ".semcode.db"@)
        },
        None => "./.semcode.db"@,
    }
}

/// The database to use.
///
/// An argument goes first, then what the environment says; either names a
/// database or a directory to hold one. With neither, an indexing run uses the
/// source directory and a query the current one. `is_database` says whether the
/// path that was asked for holds a database on disk.
pub fn process_database_path(
    database_arg: Option<&str>,
    env_path: Option<&str>,
    is_database: bool,
    source_dir: Option<&str>,
) -> (r: String)
    ensures
        r@ == (match requested(database_arg, env_path) {
            Some(path) => resolved(path, is_database),
            None => default_place(source_dir),
        }),
{
    match requested_path(database_arg, env_path) {
        Some(path) => resolve_path(path.as_str(), is_database),
        None => match source_dir {
            Some(dir) => if is_current_dir(dir) {
                String::from_str("./.semcode.db")
            } else {
                join_path(dir, ".semcode.db")
            },
            None => String::from_str("./.semcode.db"),
        },
    }
}

/// A path that the rules gave names the same database when it is given as the
/// argument, whatever is on disk there by then.
pub proof fn a_resolved_path_names_itself(path: Seq<char>, is_database: bool, later: bool)
    requires
        is_database ==> has_suffix(path, ".semcode.db"@) || later,
    ensures
        resolved(resolved(path, is_database), later) == resolved(path, is_database),
{
    let name = ".semcode.db"@;
    let joined = below(path, name);
    assert(joined.skip(joined.len() - name.len()) =~= name);
}

} // verus!
