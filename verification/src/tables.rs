//! The tables of the database: their columns, their indices, and what is done to
//! them.
use vstd::prelude::*;
use crate::names::NameSet;
use crate::sql::{one_of, one_of_filter};
use crate::text::{
    decimal, decimal_of, has_prefix, join, joined, lemma_texts_push, starts_with, str_eq, texts,
};

verus! {

/// Bumped when the meaning of stored data changes, not merely its shape: a reader
/// that does not understand a version must refuse rather than guess.
pub const SCHEMA_VERSION: u32 = 1;

/// How many numbers a vector has.
pub const VECTOR_DIMENSIONS: i32 = 256;

/// How many tables the contents are spread over.
pub const CONTENT_SHARDS: usize = 16;

/// What a column holds.
#[derive(Debug, Clone, Copy, PartialEq, Eq, Structural)]
pub enum ColumnKind {
    Text,
    Integer,
    Vector,
}

/// A column of a table.
pub struct ColumnSpec {
    pub name: String,
    pub kind: ColumnKind,
    pub nullable: bool,
}

/// What a column is, apart from the string that holds its name.
pub struct Column {
    pub name: Seq<char>,
    pub kind: ColumnKind,
    pub nullable: bool,
}

pub open spec fn column(name: Seq<char>, kind: ColumnKind, nullable: bool) -> Column {
    Column { name, kind, nullable }
}

/// The columns of a list.
pub open spec fn columns(list: Seq<ColumnSpec>) -> Seq<Column> {
    list.map_values(|c: ColumnSpec| column(c.name@, c.kind, c.nullable))
}

impl ColumnSpec {
    fn of(name: &str, kind: ColumnKind, nullable: bool) -> (r: Self)
        ensures
            column(r.name@, r.kind, r.nullable) == column(name@, kind, nullable),
    {
        ColumnSpec { name: String::from_str(name), kind, nullable }
    }
}

/// The name of one of the tables that contents are spread over.
pub open spec fn shard_name(shard: nat) -> Seq<char> {
    "content_"@ + decimal(shard)
}

/// The tables that contents are spread over.
pub open spec fn shards() -> Seq<Seq<char>> {
    Seq::new(16, |i: int| shard_name(i as nat))
}

/// The tables that contents are spread over.
pub fn content_shards() -> (r: Vec<String>)
    ensures
        texts(r@) == shards(),
{
    let mut out: Vec<String> = Vec::new();
    let mut i: usize = 0;
    assert(texts(out@) =~= shards().take(0));
    while i < CONTENT_SHARDS
        invariant
            i <= 16,
            texts(out@) == shards().take(i as int),
        decreases 16 - i,
    {
        let mut name = String::from_str("content_");
        name.append(decimal_of(i as u64).as_str());
        proof {
            lemma_texts_push(out@, name);
        }
        out.push(name);
        i += 1;
        assert(texts(out@) =~= shards().take(i as int));
    }
    assert(shards().take(16) =~= shards());
    out
}

/// Functions and macros, with their bodies by hash.
pub open spec fn functions_columns() -> Seq<Column> {
    seq![
        column("name"@, ColumnKind::Text, false),
        column("file_path"@, ColumnKind::Text, false),
        column("git_file_hash"@, ColumnKind::Text, false),
        column("line_start"@, ColumnKind::Integer, false),
        column("line_end"@, ColumnKind::Integer, false),
        column("return_type"@, ColumnKind::Text, false),
        column("parameters"@, ColumnKind::Text, false),
        column("body_hash"@, ColumnKind::Text, true),
        column("calls"@, ColumnKind::Text, true),
        column("types"@, ColumnKind::Text, true),
    ]
}

fn functions_column_list() -> (r: Vec<ColumnSpec>)
    ensures
        columns(r@) == functions_columns(),
{
    let r = vec![
        ColumnSpec::of("name", ColumnKind::Text, false),
        ColumnSpec::of("file_path", ColumnKind::Text, false),
        ColumnSpec::of("git_file_hash", ColumnKind::Text, false),
        ColumnSpec::of("line_start", ColumnKind::Integer, false),
        ColumnSpec::of("line_end", ColumnKind::Integer, false),
        ColumnSpec::of("return_type", ColumnKind::Text, false),
        ColumnSpec::of("parameters", ColumnKind::Text, false),
        ColumnSpec::of("body_hash", ColumnKind::Text, true),
        ColumnSpec::of("calls", ColumnKind::Text, true),
        ColumnSpec::of("types", ColumnKind::Text, true),
    ];
    assert(columns(r@) =~= functions_columns());
    r
}

/// Calls that go through a value. The target is part of the merge key, so it is
/// empty rather than missing.
pub open spec fn dispatch_sites_columns() -> Seq<Column> {
    seq![
        column("caller_name"@, ColumnKind::Text, true),
        column("file_path"@, ColumnKind::Text, false),
        column("git_file_hash"@, ColumnKind::Text, false),
        column("byte_start"@, ColumnKind::Integer, false),
        column("line"@, ColumnKind::Integer, false),
        column("member"@, ColumnKind::Text, false),
        column("receiver_expr"@, ColumnKind::Text, true),
        column("receiver_type"@, ColumnKind::Text, true),
        column("kind"@, ColumnKind::Text, false),
        column("target"@, ColumnKind::Text, false),
    ]
}

fn dispatch_sites_column_list() -> (r: Vec<ColumnSpec>)
    ensures
        columns(r@) == dispatch_sites_columns(),
{
    let r = vec![
        ColumnSpec::of("caller_name", ColumnKind::Text, true),
        ColumnSpec::of("file_path", ColumnKind::Text, false),
        ColumnSpec::of("git_file_hash", ColumnKind::Text, false),
        ColumnSpec::of("byte_start", ColumnKind::Integer, false),
        ColumnSpec::of("line", ColumnKind::Integer, false),
        ColumnSpec::of("member", ColumnKind::Text, false),
        ColumnSpec::of("receiver_expr", ColumnKind::Text, true),
        ColumnSpec::of("receiver_type", ColumnKind::Text, true),
        ColumnSpec::of("kind", ColumnKind::Text, false),
        ColumnSpec::of("target", ColumnKind::Text, false),
    ];
    assert(columns(r@) =~= dispatch_sites_columns());
    r
}

/// Functions installed in struct members.
pub open spec fn registrations_columns() -> Seq<Column> {
    seq![
        column("container_type"@, ColumnKind::Text, false),
        column("member"@, ColumnKind::Text, false),
        column("target"@, ColumnKind::Text, false),
        column("file_path"@, ColumnKind::Text, false),
        column("git_file_hash"@, ColumnKind::Text, false),
        column("byte_start"@, ColumnKind::Integer, false),
        column("line"@, ColumnKind::Integer, false),
        column("enclosing_function"@, ColumnKind::Text, false),
        column("kind"@, ColumnKind::Text, false),
    ]
}

fn registrations_column_list() -> (r: Vec<ColumnSpec>)
    ensures
        columns(r@) == registrations_columns(),
{
    let r = vec![
        ColumnSpec::of("container_type", ColumnKind::Text, false),
        ColumnSpec::of("member", ColumnKind::Text, false),
        ColumnSpec::of("target", ColumnKind::Text, false),
        ColumnSpec::of("file_path", ColumnKind::Text, false),
        ColumnSpec::of("git_file_hash", ColumnKind::Text, false),
        ColumnSpec::of("byte_start", ColumnKind::Integer, false),
        ColumnSpec::of("line", ColumnKind::Integer, false),
        ColumnSpec::of("enclosing_function", ColumnKind::Text, false),
        ColumnSpec::of("kind", ColumnKind::Text, false),
    ];
    assert(columns(r@) =~= registrations_columns());
    r
}

/// The schema version, and since when each feature is populated.
pub open spec fn schema_meta_columns() -> Seq<Column> {
    seq![
        column("key"@, ColumnKind::Text, false),
        column("value"@, ColumnKind::Text, false),
    ]
}

fn schema_meta_column_list() -> (r: Vec<ColumnSpec>)
    ensures
        columns(r@) == schema_meta_columns(),
{
    let r = vec![
        ColumnSpec::of("key", ColumnKind::Text, false),
        ColumnSpec::of("value", ColumnKind::Text, false),
    ];
    assert(columns(r@) =~= schema_meta_columns());
    r
}

/// Types and typedefs, with their definitions by hash.
pub open spec fn types_columns() -> Seq<Column> {
    seq![
        column("name"@, ColumnKind::Text, false),
        column("file_path"@, ColumnKind::Text, false),
        column("git_file_hash"@, ColumnKind::Text, false),
        column("line"@, ColumnKind::Integer, false),
        column("kind"@, ColumnKind::Text, false),
        column("size"@, ColumnKind::Integer, true),
        column("fields"@, ColumnKind::Text, false),
        column("definition_hash"@, ColumnKind::Text, true),
        column("types"@, ColumnKind::Text, true),
    ]
}

fn types_column_list() -> (r: Vec<ColumnSpec>)
    ensures
        columns(r@) == types_columns(),
{
    let r = vec![
        ColumnSpec::of("name", ColumnKind::Text, false),
        ColumnSpec::of("file_path", ColumnKind::Text, false),
        ColumnSpec::of("git_file_hash", ColumnKind::Text, false),
        ColumnSpec::of("line", ColumnKind::Integer, false),
        ColumnSpec::of("kind", ColumnKind::Text, false),
        ColumnSpec::of("size", ColumnKind::Integer, true),
        ColumnSpec::of("fields", ColumnKind::Text, false),
        ColumnSpec::of("definition_hash", ColumnKind::Text, true),
        ColumnSpec::of("types", ColumnKind::Text, true),
    ];
    assert(columns(r@) =~= types_columns());
    r
}

/// The vectors of function bodies.
pub open spec fn vectors_columns() -> Seq<Column> {
    seq![
        column("content_hash"@, ColumnKind::Text, false),
        column("vector"@, ColumnKind::Vector, false),
    ]
}

fn vectors_column_list() -> (r: Vec<ColumnSpec>)
    ensures
        columns(r@) == vectors_columns(),
{
    let r = vec![
        ColumnSpec::of("content_hash", ColumnKind::Text, false),
        ColumnSpec::of("vector", ColumnKind::Vector, false),
    ];
    assert(columns(r@) =~= vectors_columns());
    r
}

/// The vectors of commits.
pub open spec fn commit_vectors_columns() -> Seq<Column> {
    seq![
        column("git_commit_sha"@, ColumnKind::Text, false),
        column("vector"@, ColumnKind::Vector, false),
    ]
}

fn commit_vectors_column_list() -> (r: Vec<ColumnSpec>)
    ensures
        columns(r@) == commit_vectors_columns(),
{
    let r = vec![
        ColumnSpec::of("git_commit_sha", ColumnKind::Text, false),
        ColumnSpec::of("vector", ColumnKind::Vector, false),
    ];
    assert(columns(r@) =~= commit_vectors_columns());
    r
}

/// The vectors of emails.
pub open spec fn lore_vectors_columns() -> Seq<Column> {
    seq![
        column("message_id"@, ColumnKind::Text, false),
        column("vector"@, ColumnKind::Vector, false),
    ]
}

fn lore_vectors_column_list() -> (r: Vec<ColumnSpec>)
    ensures
        columns(r@) == lore_vectors_columns(),
{
    let r = vec![
        ColumnSpec::of("message_id", ColumnKind::Text, false),
        ColumnSpec::of("vector", ColumnKind::Vector, false),
    ];
    assert(columns(r@) =~= lore_vectors_columns());
    r
}

/// The files that have been read.
pub open spec fn processed_files_columns() -> Seq<Column> {
    seq![
        column("file"@, ColumnKind::Text, false),
        column("git_sha"@, ColumnKind::Text, true),
        column("git_file_sha"@, ColumnKind::Text, false),
    ]
}

fn processed_files_column_list() -> (r: Vec<ColumnSpec>)
    ensures
        columns(r@) == processed_files_columns(),
{
    let r = vec![
        ColumnSpec::of("file", ColumnKind::Text, false),
        ColumnSpec::of("git_sha", ColumnKind::Text, true),
        ColumnSpec::of("git_file_sha", ColumnKind::Text, false),
    ];
    assert(columns(r@) =~= processed_files_columns());
    r
}

/// Which file defines which symbol.
pub open spec fn symbol_filename_columns() -> Seq<Column> {
    seq![
        column("symbol"@, ColumnKind::Text, false),
        column("filename"@, ColumnKind::Text, false),
    ]
}

fn symbol_filename_column_list() -> (r: Vec<ColumnSpec>)
    ensures
        columns(r@) == symbol_filename_columns(),
{
    let r = vec![
        ColumnSpec::of("symbol", ColumnKind::Text, false),
        ColumnSpec::of("filename", ColumnKind::Text, false),
    ];
    assert(columns(r@) =~= symbol_filename_columns());
    r
}

/// Commits.
pub open spec fn git_commits_columns() -> Seq<Column> {
    seq![
        column("git_sha"@, ColumnKind::Text, false),
        column("parent_sha"@, ColumnKind::Text, false),
        column("author"@, ColumnKind::Text, false),
        column("subject"@, ColumnKind::Text, false),
        column("message"@, ColumnKind::Text, false),
        column("tags"@, ColumnKind::Text, false),
        column("diff"@, ColumnKind::Text, false),
        column("symbols"@, ColumnKind::Text, false),
        column("files"@, ColumnKind::Text, false),
    ]
}

fn git_commits_column_list() -> (r: Vec<ColumnSpec>)
    ensures
        columns(r@) == git_commits_columns(),
{
    let r = vec![
        ColumnSpec::of("git_sha", ColumnKind::Text, false),
        ColumnSpec::of("parent_sha", ColumnKind::Text, false),
        ColumnSpec::of("author", ColumnKind::Text, false),
        ColumnSpec::of("subject", ColumnKind::Text, false),
        ColumnSpec::of("message", ColumnKind::Text, false),
        ColumnSpec::of("tags", ColumnKind::Text, false),
        ColumnSpec::of("diff", ColumnKind::Text, false),
        ColumnSpec::of("symbols", ColumnKind::Text, false),
        ColumnSpec::of("files", ColumnKind::Text, false),
    ];
    assert(columns(r@) =~= git_commits_columns());
    r
}

/// Emails.
pub open spec fn lore_columns() -> Seq<Column> {
    seq![
        column("git_commit_sha"@, ColumnKind::Text, false),
        column("from"@, ColumnKind::Text, false),
        column("date"@, ColumnKind::Text, false),
        column("date_timestamp"@, ColumnKind::Integer, false),
        column("message_id"@, ColumnKind::Text, false),
        column("in_reply_to"@, ColumnKind::Text, true),
        column("subject"@, ColumnKind::Text, false),
        column("references"@, ColumnKind::Text, true),
        column("recipients"@, ColumnKind::Text, false),
        column("body"@, ColumnKind::Text, false),
        column("symbols"@, ColumnKind::Text, false),
    ]
}

fn lore_column_list() -> (r: Vec<ColumnSpec>)
    ensures
        columns(r@) == lore_columns(),
{
    let r = vec![
        ColumnSpec::of("git_commit_sha", ColumnKind::Text, false),
        ColumnSpec::of("from", ColumnKind::Text, false),
        ColumnSpec::of("date", ColumnKind::Text, false),
        ColumnSpec::of("date_timestamp", ColumnKind::Integer, false),
        ColumnSpec::of("message_id", ColumnKind::Text, false),
        ColumnSpec::of("in_reply_to", ColumnKind::Text, true),
        ColumnSpec::of("subject", ColumnKind::Text, false),
        ColumnSpec::of("references", ColumnKind::Text, true),
        ColumnSpec::of("recipients", ColumnKind::Text, false),
        ColumnSpec::of("body", ColumnKind::Text, false),
        ColumnSpec::of("symbols", ColumnKind::Text, false),
    ];
    assert(columns(r@) =~= lore_columns());
    r
}

/// The commits whose emails have been read.
pub open spec fn lore_indexed_commits_columns() -> Seq<Column> {
    seq![
        column("git_commit_sha"@, ColumnKind::Text, false),
    ]
}

fn lore_indexed_commits_column_list() -> (r: Vec<ColumnSpec>)
    ensures
        columns(r@) == lore_indexed_commits_columns(),
{
    let r = vec![
        ColumnSpec::of("git_commit_sha", ColumnKind::Text, false),
    ];
    assert(columns(r@) =~= lore_indexed_commits_columns());
    r
}

/// Bodies and definitions by hash.
pub open spec fn content_columns() -> Seq<Column> {
    seq![
        column("blake3_hash"@, ColumnKind::Text, false),
        column("content"@, ColumnKind::Text, false),
    ]
}

fn content_column_list() -> (r: Vec<ColumnSpec>)
    ensures
        columns(r@) == content_columns(),
{
    let r = vec![
        ColumnSpec::of("blake3_hash", ColumnKind::Text, false),
        ColumnSpec::of("content", ColumnKind::Text, false),
    ];
    assert(columns(r@) =~= content_columns());
    r
}

/// The columns that a table is created with, where its name is known. All tables
/// that contents are spread over are alike.
pub open spec fn table_columns(name: Seq<char>) -> Option<Seq<Column>> {
    if name == "functions"@ {
        Some(functions_columns())
    } else if name == "types"@ {
        Some(types_columns())
    } else if name == "vectors"@ {
        Some(vectors_columns())
    } else if name == "commit_vectors"@ {
        Some(commit_vectors_columns())
    } else if name == "lore_vectors"@ {
        Some(lore_vectors_columns())
    } else if name == "processed_files"@ {
        Some(processed_files_columns())
    } else if name == "symbol_filename"@ {
        Some(symbol_filename_columns())
    } else if name == "dispatch_sites"@ {
        Some(dispatch_sites_columns())
    } else if name == "registrations"@ {
        Some(registrations_columns())
    } else if name == "schema_meta"@ {
        Some(schema_meta_columns())
    } else if name == "git_commits"@ {
        Some(git_commits_columns())
    } else if name == "lore"@ {
        Some(lore_columns())
    } else if name == "lore_indexed_commits"@ {
        Some(lore_indexed_commits_columns())
    } else if name == "content"@ || has_prefix(name, "content_"@) {
        Some(content_columns())
    } else {
        None
    }
}

/// The columns that a table is created with, where its name is known.
pub fn columns_of(name: &str) -> (r: Option<Vec<ColumnSpec>>)
    ensures
        match r {
            Some(list) => table_columns(name@) == Some(columns(list@)),
            None => table_columns(name@) is None,
        },
{
    if str_eq(name, "functions") {
        Some(functions_column_list())
    } else if str_eq(name, "types") {
        Some(types_column_list())
    } else if str_eq(name, "vectors") {
        Some(vectors_column_list())
    } else if str_eq(name, "commit_vectors") {
        Some(commit_vectors_column_list())
    } else if str_eq(name, "lore_vectors") {
        Some(lore_vectors_column_list())
    } else if str_eq(name, "processed_files") {
        Some(processed_files_column_list())
    } else if str_eq(name, "symbol_filename") {
        Some(symbol_filename_column_list())
    } else if str_eq(name, "dispatch_sites") {
        Some(dispatch_sites_column_list())
    } else if str_eq(name, "registrations") {
        Some(registrations_column_list())
    } else if str_eq(name, "schema_meta") {
        Some(schema_meta_column_list())
    } else if str_eq(name, "git_commits") {
        Some(git_commits_column_list())
    } else if str_eq(name, "lore") {
        Some(lore_column_list())
    } else if str_eq(name, "lore_indexed_commits") {
        Some(lore_indexed_commits_column_list())
    } else if str_eq(name, "content") || starts_with(name, "content_") {
        Some(content_column_list())
    } else {
        None
    }
}

/// Whether a list has a name.
pub fn has_name(names: &[String], name: &str) -> (r: bool)
    ensures
        r == texts(names@).contains(name@),
{
    let mut i: usize = 0;
    while i < names.len()
        invariant
            i <= names@.len(),
            forall|j: int| 0 <= j < i ==> names@[j]@ != name@,
        decreases names@.len() - i,
    {
        if str_eq(names[i].as_str(), name) {
            assert(texts(names@)[i as int] == name@);
            return true;
        }
        i += 1;
    }
    assert(!texts(names@).contains(name@)) by {
        if texts(names@).contains(name@) {
            let j = choose|j: int| 0 <= j < texts(names@).len() && texts(names@)[j] == name@;
            assert(names@[j]@ == name@);
        }
    }
    false
}

/// The names of a list that are, or are not, among some others, in order.
pub open spec fn those_among(
    list: Seq<Seq<char>>,
    existing: Seq<Seq<char>>,
    among: bool,
) -> Seq<Seq<char>> {
    list.filter(|name: Seq<char>| existing.contains(name) == among)
}

fn select_names(list: &Vec<String>, existing: &[String], among: bool) -> (r: Vec<String>)
    ensures
        texts(r@) == those_among(texts(list@), texts(existing@), among),
{
    let ghost all = texts(list@);
    let ghost wanted = |name: Seq<char>| texts(existing@).contains(name) == among;
    let mut out: Vec<String> = Vec::new();
    let mut i: usize = 0;
    proof {
        reveal(Seq::filter);
        assert(all.take(0) =~= Seq::empty());
        assert(texts(out@) =~= Seq::empty());
    }
    while i < list.len()
        invariant
            i <= list@.len(),
            all == texts(list@),
            wanted == (|name: Seq<char>| texts(existing@).contains(name) == among),
            texts(out@) == all.take(i as int).filter(wanted),
        decreases list@.len() - i,
    {
        proof {
            reveal(Seq::filter);
            assert(all.take(i + 1).drop_last() =~= all.take(i as int));
            assert(all.take(i + 1).last() == list@[i as int]@);
        }
        if has_name(existing, list[i].as_str()) == among {
            let copy = list[i].clone();
            proof {
                lemma_texts_push(out@, copy);
            }
            out.push(copy);
        }
        i += 1;
    }
    assert(all.take(i as int) =~= all);
    out
}

fn append_all(list: Vec<String>, more: Vec<String>) -> (r: Vec<String>)
    ensures
        texts(r@) == texts(list@) + texts(more@),
{
    let mut out = list;
    let mut rest = more;
    out.append(&mut rest);
    assert(texts(out@) =~= texts(list@) + texts(more@));
    out
}

/// The tables there are, but for those that contents are spread over, in the
/// order they are created in.
pub open spec fn all_tables() -> Seq<Seq<char>> {
    seq![
        "functions"@,
        "types"@,
        "vectors"@,
        "processed_files"@,
        "symbol_filename"@,
        "dispatch_sites"@,
        "registrations"@,
        "schema_meta"@,
        "git_commits"@,
        "commit_vectors"@,
        "lore"@,
        "lore_indexed_commits"@,
        "lore_vectors"@,
        "indexed_branches"@,
    ]
}

/// The tables that are missing, in the order they are to be created in. A table
/// of emails that is there already is migrated instead.
pub fn missing_tables(existing: &[String]) -> (r: Vec<String>)
    ensures
        texts(r@) == those_among(all_tables() + shards(), texts(existing@), false),
{
    let main = vec![
        String::from_str("functions"),
        String::from_str("types"),
        String::from_str("vectors"),
        String::from_str("processed_files"),
        String::from_str("symbol_filename"),
        String::from_str("dispatch_sites"),
        String::from_str("registrations"),
        String::from_str("schema_meta"),
        String::from_str("git_commits"),
        String::from_str("commit_vectors"),
        String::from_str("lore"),
        String::from_str("lore_indexed_commits"),
        String::from_str("lore_vectors"),
        String::from_str("indexed_branches"),
    ];
    assert(texts(main@) =~= all_tables());
    let list = append_all(main, content_shards());
    select_names(&list, existing, false)
}

/// The tables that hold data, in the order they are worked through.
pub open spec fn data_tables() -> Seq<Seq<char>> {
    seq![
        "functions"@,
        "types"@,
        "vectors"@,
        "commit_vectors"@,
        "lore_vectors"@,
        "processed_files"@,
        "symbol_filename"@,
        "git_commits"@,
        "lore"@,
        "indexed_branches"@,
        "lore_indexed_commits"@,
    ] + shards()
}

/// The tables that hold data and are there: those that are compacted, cleared or
/// recreated.
pub fn existing_data_tables(existing: &[String]) -> (r: Vec<String>)
    ensures
        texts(r@) == those_among(data_tables(), texts(existing@), true),
{
    let main = vec![
        String::from_str("functions"),
        String::from_str("types"),
        String::from_str("vectors"),
        String::from_str("commit_vectors"),
        String::from_str("lore_vectors"),
        String::from_str("processed_files"),
        String::from_str("symbol_filename"),
        String::from_str("git_commits"),
        String::from_str("lore"),
        String::from_str("indexed_branches"),
        String::from_str("lore_indexed_commits"),
    ];
    let ghost first = texts(main@);
    let list = append_all(main, content_shards());
    assert(texts(list@) =~= data_tables());
    select_names(&list, existing, true)
}

/// Every table that holds data is one of those that are created.
pub proof fn data_tables_are_created(name: Seq<char>)
    requires
        data_tables().contains(name),
    ensures
        (all_tables() + shards()).contains(name),
{
    let all = all_tables() + shards();
    let i = choose|i: int| 0 <= i < data_tables().len() && data_tables()[i] == name;
    if i >= 11 {
        assert(all[14 + (i - 11)] == shards()[i - 11]);
        assert(all[14 + (i - 11)] == name);
    } else {
        let place: int = if i == 0 {
            0
        } else if i == 1 {
            1
        } else if i == 2 {
            2
        } else if i == 3 {
            9
        } else if i == 4 {
            12
        } else if i == 5 {
            3
        } else if i == 6 {
            4
        } else if i == 7 {
            8
        } else if i == 8 {
            10
        } else if i == 9 {
            13
        } else {
            11
        };
        assert(all[place] == all_tables()[place]);
        assert(all[place] == name);
    }
}

fn one(a: &str) -> (r: Vec<String>)
    ensures
        texts(r@) == seq![a@],
{
    let r = vec![String::from_str(a)];
    assert(texts(r@) =~= seq![a@]);
    r
}

fn two(a: &str, b: &str) -> (r: Vec<String>)
    ensures
        texts(r@) == seq![a@, b@],
{
    let r = vec![String::from_str(a), String::from_str(b)];
    assert(texts(r@) =~= seq![a@, b@]);
    r
}

fn three(a: &str, b: &str, c: &str) -> (r: Vec<String>)
    ensures
        texts(r@) == seq![a@, b@, c@],
{
    let r = vec![String::from_str(a), String::from_str(b), String::from_str(c)];
    assert(texts(r@) =~= seq![a@, b@, c@]);
    r
}

/// The texts of a list of lists of columns.
pub open spec fn column_lists(lists: Seq<Vec<String>>) -> Seq<Seq<Seq<char>>> {
    lists.map_values(|l: Vec<String>| texts(l@))
}

/// The columns of `functions` that are looked up by.
pub open spec fn functions_indexed() -> Seq<Seq<Seq<char>>> {
    seq![
        seq!["name"@],
        seq!["git_file_hash"@],
        seq!["file_path"@],
        seq!["body_hash"@],
        seq!["line_start"@],
        seq!["line_end"@],
        seq!["name"@, "git_file_hash"@],
    ]
}

fn functions_index_list() -> (r: Vec<Vec<String>>)
    ensures
        column_lists(r@) == functions_indexed(),
{
    let r = vec![
        one("name"),
        one("git_file_hash"),
        one("file_path"),
        one("body_hash"),
        one("line_start"),
        one("line_end"),
        two("name", "git_file_hash"),
    ];
    assert(column_lists(r@) =~= functions_indexed());
    r
}

/// The columns of `types` that are looked up by.
pub open spec fn types_indexed() -> Seq<Seq<Seq<char>>> {
    seq![
        seq!["name"@],
        seq!["git_file_hash"@],
        seq!["kind"@],
        seq!["file_path"@],
        seq!["definition_hash"@],
        seq!["name"@, "kind"@, "git_file_hash"@],
    ]
}

fn types_index_list() -> (r: Vec<Vec<String>>)
    ensures
        column_lists(r@) == types_indexed(),
{
    let r = vec![
        one("name"),
        one("git_file_hash"),
        one("kind"),
        one("file_path"),
        one("definition_hash"),
        three("name", "kind", "git_file_hash"),
    ];
    assert(column_lists(r@) =~= types_indexed());
    r
}

/// The columns of `vectors` that are looked up by.
pub open spec fn vectors_indexed() -> Seq<Seq<Seq<char>>> {
    seq![
        seq!["content_hash"@],
    ]
}

fn vectors_index_list() -> (r: Vec<Vec<String>>)
    ensures
        column_lists(r@) == vectors_indexed(),
{
    let r = vec![
        one("content_hash"),
    ];
    assert(column_lists(r@) =~= vectors_indexed());
    r
}

/// The columns of `commit_vectors` that are looked up by.
pub open spec fn commit_vectors_indexed() -> Seq<Seq<Seq<char>>> {
    seq![
        seq!["git_commit_sha"@],
    ]
}

fn commit_vectors_index_list() -> (r: Vec<Vec<String>>)
    ensures
        column_lists(r@) == commit_vectors_indexed(),
{
    let r = vec![
        one("git_commit_sha"),
    ];
    assert(column_lists(r@) =~= commit_vectors_indexed());
    r
}

/// The columns of `lore_vectors` that are looked up by.
pub open spec fn lore_vectors_indexed() -> Seq<Seq<Seq<char>>> {
    seq![
        seq!["message_id"@],
    ]
}

fn lore_vectors_index_list() -> (r: Vec<Vec<String>>)
    ensures
        column_lists(r@) == lore_vectors_indexed(),
{
    let r = vec![
        one("message_id"),
    ];
    assert(column_lists(r@) =~= lore_vectors_indexed());
    r
}

/// The columns of `lore` that are looked up by.
pub open spec fn lore_indexed() -> Seq<Seq<Seq<char>>> {
    seq![
        seq!["message_id"@],
        seq!["from"@],
        seq!["subject"@],
        seq!["git_commit_sha"@],
        seq!["date"@],
        seq!["in_reply_to"@],
        seq!["references"@],
    ]
}

fn lore_index_list() -> (r: Vec<Vec<String>>)
    ensures
        column_lists(r@) == lore_indexed(),
{
    let r = vec![
        one("message_id"),
        one("from"),
        one("subject"),
        one("git_commit_sha"),
        one("date"),
        one("in_reply_to"),
        one("references"),
    ];
    assert(column_lists(r@) =~= lore_indexed());
    r
}

/// The columns of `processed_files` that are looked up by.
pub open spec fn processed_files_indexed() -> Seq<Seq<Seq<char>>> {
    seq![
        seq!["file"@],
        seq!["git_sha"@],
        seq!["git_file_sha"@],
        seq!["file"@, "git_sha"@],
    ]
}

fn processed_files_index_list() -> (r: Vec<Vec<String>>)
    ensures
        column_lists(r@) == processed_files_indexed(),
{
    let r = vec![
        one("file"),
        one("git_sha"),
        one("git_file_sha"),
        two("file", "git_sha"),
    ];
    assert(column_lists(r@) =~= processed_files_indexed());
    r
}

/// The columns of `symbol_filename` that are looked up by.
pub open spec fn symbol_filename_indexed() -> Seq<Seq<Seq<char>>> {
    seq![
        seq!["symbol"@],
        seq!["filename"@],
        seq!["symbol"@, "filename"@],
    ]
}

fn symbol_filename_index_list() -> (r: Vec<Vec<String>>)
    ensures
        column_lists(r@) == symbol_filename_indexed(),
{
    let r = vec![
        one("symbol"),
        one("filename"),
        two("symbol", "filename"),
    ];
    assert(column_lists(r@) =~= symbol_filename_indexed());
    r
}

/// The columns of `git_commits` that are looked up by.
pub open spec fn git_commits_indexed() -> Seq<Seq<Seq<char>>> {
    seq![
        seq!["git_sha"@],
        seq!["parent_sha"@],
        seq!["author"@],
        seq!["subject"@],
    ]
}

fn git_commits_index_list() -> (r: Vec<Vec<String>>)
    ensures
        column_lists(r@) == git_commits_indexed(),
{
    let r = vec![
        one("git_sha"),
        one("parent_sha"),
        one("author"),
        one("subject"),
    ];
    assert(column_lists(r@) =~= git_commits_indexed());
    r
}

/// The columns of `lore` that are looked up by.
pub open spec fn lore_again_indexed() -> Seq<Seq<Seq<char>>> {
    seq![
        seq!["git_commit_sha"@],
        seq!["message_id"@],
        seq!["from"@],
        seq!["date"@],
        seq!["in_reply_to"@],
        seq!["subject"@],
        seq!["references"@],
    ]
}

fn lore_again_index_list() -> (r: Vec<Vec<String>>)
    ensures
        column_lists(r@) == lore_again_indexed(),
{
    let r = vec![
        one("git_commit_sha"),
        one("message_id"),
        one("from"),
        one("date"),
        one("in_reply_to"),
        one("subject"),
        one("references"),
    ];
    assert(column_lists(r@) =~= lore_again_indexed());
    r
}

/// The columns of `indexed_branches` that are looked up by.
pub open spec fn indexed_branches_indexed() -> Seq<Seq<Seq<char>>> {
    seq![
        seq!["branch_name"@],
        seq!["tip_commit"@],
        seq!["remote"@],
    ]
}

fn indexed_branches_index_list() -> (r: Vec<Vec<String>>)
    ensures
        column_lists(r@) == indexed_branches_indexed(),
{
    let r = vec![
        one("branch_name"),
        one("tip_commit"),
        one("remote"),
    ];
    assert(column_lists(r@) =~= indexed_branches_indexed());
    r
}

/// An index to create.
pub struct IndexRequest {
    pub table: String,
    pub columns: Vec<String>,
    pub description: String,
}

/// What an index is, apart from the strings that hold it.
pub struct IndexText {
    pub table: Seq<char>,
    pub columns: Seq<Seq<char>>,
    pub description: Seq<char>,
}

/// How an index is spoken of.
pub open spec fn index_description(table: Seq<char>, columns: Seq<Seq<char>>) -> Seq<char> {
    if columns.len() == 1 {
        "BTree index on "@ + table + "."@ + columns[0]
    } else {
        "Composite index on "@ + table + ".("@ + joined(columns, ","@) + ")"@
    }
}

pub open spec fn index_text(table: Seq<char>, columns: Seq<Seq<char>>) -> IndexText {
    IndexText { table, columns, description: index_description(table, columns) }
}

pub open spec fn index_texts(requests: Seq<IndexRequest>) -> Seq<IndexText> {
    requests.map_values(
        |r: IndexRequest|
            IndexText {
                table: r.table@,
                columns: texts(r.columns@),
                description: r.description@,
            },
    )
}

/// The indices of a table, where the table is there.
pub open spec fn table_indices(
    table: Seq<char>,
    lists: Seq<Seq<Seq<char>>>,
    existing: Seq<Seq<char>>,
) -> Seq<IndexText> {
    if existing.contains(table) {
        lists.map_values(|columns: Seq<Seq<char>>| index_text(table, columns))
    } else {
        Seq::empty()
    }
}

/// The indices of the tables that contents are spread over.
pub open spec fn shard_indices(existing: Seq<Seq<char>>, count: nat) -> Seq<IndexText>
    decreases count,
{
    if count == 0 {
        Seq::empty()
    } else {
        shard_indices(existing, (count - 1) as nat) + table_indices(
            shard_name((count - 1) as nat),
            seq![seq!["blake3_hash"@]],
            existing,
        )
    }
}

/// All indices of the tables that are there.
pub open spec fn all_indices(existing: Seq<Seq<char>>) -> Seq<IndexText> {
    table_indices("functions"@, functions_indexed(), existing) + table_indices(
        "types"@,
        types_indexed(),
        existing,
    ) + table_indices("vectors"@, vectors_indexed(), existing) + table_indices(
        "commit_vectors"@,
        commit_vectors_indexed(),
        existing,
    ) + table_indices("lore_vectors"@, lore_vectors_indexed(), existing) + table_indices(
        "lore"@,
        lore_indexed(),
        existing,
    ) + table_indices("processed_files"@, processed_files_indexed(), existing) + table_indices(
        "symbol_filename"@,
        symbol_filename_indexed(),
        existing,
    ) + table_indices("git_commits"@, git_commits_indexed(), existing) + table_indices(
        "lore"@,
        lore_again_indexed(),
        existing,
    ) + table_indices("indexed_branches"@, indexed_branches_indexed(), existing) + shard_indices(
        existing,
        16,
    )
}

/// Whether a table of so many rows is taken to be indexed already.
pub open spec fn already_indexed(rows: Option<usize>) -> bool {
    rows is Some && rows->0 > 100
}

fn describe_index(table: &str, columns: &Vec<String>) -> (r: String)
    ensures
        r@ == index_description(table@, texts(columns@)),
{
    if columns.len() == 1 {
        let mut out = String::from_str("BTree index on ");
        out.append(table);
        out.append(".");
        assert(texts(columns@)[0] == columns@[0]@);
        out.append(columns[0].as_str());
        out
    } else {
        let mut out = String::from_str("Composite index on ");
        out.append(table);
        out.append(".(");
        out.append(join(columns, ",").as_str());
        out.append(")");
        out
    }
}

fn add_indices(
    plan: &mut Vec<IndexRequest>,
    table: &str,
    lists: Vec<Vec<String>>,
    existing: &[String],
)
    ensures
        index_texts(final(plan)@) == index_texts(old(plan)@) + table_indices(
            table@,
            column_lists(lists@),
            texts(existing@),
        ),
{
    let ghost held = index_texts(plan@);
    if !has_name(existing, table) {
        assert(index_texts(plan@) =~= held + Seq::<IndexText>::empty());
        return;
    }
    let ghost all = lists@;
    let ghost form = |columns: Seq<Seq<char>>| index_text(table@, columns);
    assert(index_texts(plan@) =~= held + column_lists(all).take(0).map_values(form));
    for columns in it: lists
        invariant
            it.seq() == all,
            form == (|columns: Seq<Seq<char>>| index_text(table@, columns)),
            index_texts(plan@) == held + column_lists(all).take(it.index()).map_values(form),
    {
        let ghost before = plan@;
        let ghost names = texts(columns@);
        let description = describe_index(table, &columns);
        plan.push(IndexRequest { table: String::from_str(table), columns, description });
        proof {
            assert(column_lists(all)[it.index()] == names);
            assert(index_texts(plan@) =~= index_texts(before).push(index_text(table@, names)));
            assert(column_lists(all).take(it.index() + 1).map_values(form) =~= column_lists(
                all,
            ).take(it.index()).map_values(form).push(index_text(table@, names)));
            assert(index_texts(plan@) =~= held + column_lists(all).take(it.index() + 1).map_values(
                form,
            ));
        }
    }
    assert(column_lists(all).take(all.len() as int) =~= column_lists(all));
}

/// The indices to create: none where the functions or the emails show that it
/// has been done, else those of every table that is there.
pub fn create_scalar_indices(
    existing: &[String],
    function_rows: Option<usize>,
    lore_rows: Option<usize>,
) -> (plan: Vec<IndexRequest>)
    ensures
        index_texts(plan@) == (if already_indexed(function_rows) || already_indexed(lore_rows) {
            Seq::empty()
        } else {
            all_indices(texts(existing@))
        }),
{
    let mut plan: Vec<IndexRequest> = Vec::new();
    assert(index_texts(plan@) =~= Seq::empty());
    if let Some(rows) = function_rows {
        if rows > 100 {
            return plan;
        }
    }
    if let Some(rows) = lore_rows {
        if rows > 100 {
            return plan;
        }
    }
    add_indices(&mut plan, "functions", functions_index_list(), existing);
    assert(index_texts(plan@) =~= table_indices(
        "functions"@,
        functions_indexed(),
        texts(existing@),
    ));
    add_indices(&mut plan, "types", types_index_list(), existing);
    add_indices(&mut plan, "vectors", vectors_index_list(), existing);
    add_indices(&mut plan, "commit_vectors", commit_vectors_index_list(), existing);
    add_indices(&mut plan, "lore_vectors", lore_vectors_index_list(), existing);
    add_indices(&mut plan, "lore", lore_index_list(), existing);
    add_indices(&mut plan, "processed_files", processed_files_index_list(), existing);
    add_indices(&mut plan, "symbol_filename", symbol_filename_index_list(), existing);
    add_indices(&mut plan, "git_commits", git_commits_index_list(), existing);
    add_indices(&mut plan, "lore", lore_again_index_list(), existing);
    add_indices(&mut plan, "indexed_branches", indexed_branches_index_list(), existing);
    let ghost main = index_texts(plan@);
    let names = content_shards();
    let mut i: usize = 0;
    assert(texts(names@).len() == 16);
    assert(main + shard_indices(texts(existing@), 0) =~= main);
    while i < names.len()
        invariant
            i <= names@.len() == 16,
            texts(names@) == shards(),
            index_texts(plan@) == main + shard_indices(texts(existing@), i as nat),
        decreases names@.len() - i,
    {
        let ghost before = index_texts(plan@);
        assert(texts(names@)[i as int] == names@[i as int]@);
        let lists = vec![one("blake3_hash")];
        assert(column_lists(lists@) =~= seq![seq!["blake3_hash"@]]);
        add_indices(&mut plan, names[i].as_str(), lists, existing);
        assert(index_texts(plan@) =~= main + shard_indices(texts(existing@), (i + 1) as nat));
        i += 1;
    }
    plan
}

/// Outcome of a single table optimization operation.
#[derive(Debug, Clone, Copy, PartialEq, Eq, Structural)]
pub enum OptimizeOutcome {
    /// Table was successfully optimized (all operations completed)
    Optimized,
    /// Table was skipped (e.g., too few rows to benefit)
    Skipped,
    /// Optimization was attempted but one or more operations failed
    PartialFailure,
}

/// The number of rows below which optimizing a table costs more than it gains.
pub const MIN_ROWS_FOR_OPTIMIZATION: usize = 1000;

/// The number of fragments beyond which a table is not compacted any more.
pub const MAX_COMPACT_FRAGMENTS: usize = 500;

/// Whether a table is worth optimizing. The table of emails never is: it is
/// indexed as it grows, and compacting it needs more memory than there may be.
pub fn worth_optimizing(table: &str, rows: usize) -> (r: bool)
    ensures
        r == (table@ != "lore"@ && rows >= MIN_ROWS_FOR_OPTIMIZATION),
{
    !str_eq(table, "lore") && rows >= MIN_ROWS_FOR_OPTIMIZATION
}

/// Whether a table is compacted: unless it is known to have too many fragments.
pub fn should_compact(fragments: Option<usize>) -> (r: bool)
    ensures
        r == !(fragments is Some && fragments->0 > MAX_COMPACT_FRAGMENTS),
{
    match fragments {
        Some(fragments) => fragments <= MAX_COMPACT_FRAGMENTS,
        None => true,
    }
}

/// What optimizing a table came to: whether compacting (where it was tried),
/// pruning and indexing all went well.
pub fn optimize_outcome(compacted: Option<bool>, pruned: bool, indexed: bool) -> (r:
    OptimizeOutcome)
    ensures
        r == (if compacted != Some(false) && pruned && indexed {
            OptimizeOutcome::Optimized
        } else {
            OptimizeOutcome::PartialFailure
        }),
{
    let went_well = match compacted {
        Some(ok) => ok,
        None => true,
    };
    if went_well && pruned && indexed {
        OptimizeOutcome::Optimized
    } else {
        OptimizeOutcome::PartialFailure
    }
}

/// What became of the tables of a compaction: how many were optimized, and how
/// many were skipped or failed, where any were.
pub open spec fn compaction_text(optimized: nat, skipped: nat, failed: nat) -> Seq<char> {
    "    Optimized "@ + decimal(optimized) + " tables"@ + (if skipped > 0 {
        ", "@ + decimal(skipped) + " skipped"@
    } else {
        Seq::empty()
    }) + (if failed > 0 {
        ", "@ + decimal(failed) + " failed"@
    } else {
        Seq::empty()
    })
}

/// How many of some outcomes are of one kind; `None` stands for an error.
pub open spec fn outcomes_of(
    outcomes: Seq<Option<OptimizeOutcome>>,
    wanted: spec_fn(Option<OptimizeOutcome>) -> bool,
) -> nat
    decreases outcomes.len(),
{
    if outcomes.len() == 0 {
        0
    } else {
        outcomes_of(outcomes.drop_last(), wanted) + (if wanted(outcomes.last()) {
            1nat
        } else {
            0
        })
    }
}

/// Says what became of the tables of a compaction. An error counts as a failure.
pub fn compaction_summary(outcomes: &Vec<Option<OptimizeOutcome>>) -> (r: String)
    ensures
        r@ == compaction_text(
            outcomes_of(
                outcomes@,
                |o: Option<OptimizeOutcome>| o == Some(OptimizeOutcome::Optimized),
            ),
            outcomes_of(
                outcomes@,
                |o: Option<OptimizeOutcome>| o == Some(OptimizeOutcome::Skipped),
            ),
            outcomes_of(
                outcomes@,
                |o: Option<OptimizeOutcome>| o is None || o == Some(OptimizeOutcome::PartialFailure),
            ),
        ),
{
    let ghost is_optimized = |o: Option<OptimizeOutcome>| o == Some(OptimizeOutcome::Optimized);
    let ghost is_skipped = |o: Option<OptimizeOutcome>| o == Some(OptimizeOutcome::Skipped);
    let ghost is_failed = |o: Option<OptimizeOutcome>|
        o is None || o == Some(OptimizeOutcome::PartialFailure);
    let mut optimized: usize = 0;
    let mut skipped: usize = 0;
    let mut failed: usize = 0;
    let mut i: usize = 0;
    assert(outcomes@.take(0) =~= Seq::empty());
    while i < outcomes.len()
        invariant
            i <= outcomes@.len(),
            is_optimized == (|o: Option<OptimizeOutcome>| o == Some(OptimizeOutcome::Optimized)),
            is_skipped == (|o: Option<OptimizeOutcome>| o == Some(OptimizeOutcome::Skipped)),
            is_failed == (|o: Option<OptimizeOutcome>|
                o is None || o == Some(OptimizeOutcome::PartialFailure)),
            optimized <= i,
            skipped <= i,
            failed <= i,
            optimized == outcomes_of(outcomes@.take(i as int), is_optimized),
            skipped == outcomes_of(outcomes@.take(i as int), is_skipped),
            failed == outcomes_of(outcomes@.take(i as int), is_failed),
        decreases outcomes@.len() - i,
    {
        proof {
            assert(outcomes@.take(i + 1).drop_last() =~= outcomes@.take(i as int));
            assert(outcomes@.take(i + 1).last() == outcomes@[i as int]);
        }
        match &outcomes[i] {
            Some(OptimizeOutcome::Optimized) => {
                optimized += 1;
            },
            Some(OptimizeOutcome::Skipped) => {
                skipped += 1;
            },
            _ => {
                failed += 1;
            },
        }
        i += 1;
    }
    assert(outcomes@.take(i as int) =~= outcomes@);
    let mut out = String::from_str("    Optimized ");
    out.append(decimal_of(optimized as u64).as_str());
    out.append(" tables");
    let mut left = String::new();
    if skipped > 0 {
        left = String::from_str(", ");
        left.append(decimal_of(skipped as u64).as_str());
        left.append(" skipped");
    }
    out.append(left.as_str());
    let mut bad = String::new();
    if failed > 0 {
        bad = String::from_str(", ");
        bad.append(decimal_of(failed as u64).as_str());
        bad.append(" failed");
    }
    out.append(bad.as_str());
    out
}

/// How many full-text indices the table of emails has: on sender, subject, body,
/// recipients and symbols.
pub const LORE_FTS_INDICES: usize = 5;

/// The number of index fragments beyond which the full-text indices are not
/// merged any more.
pub const MAX_LORE_INDEX_FRAGMENTS: usize = 100;

/// What is done about the full-text indices.
#[derive(Debug, Clone, Copy, PartialEq, Eq, Structural)]
pub enum FtsPlan {
    /// All are there.
    Keep,
    /// Some are there: they are dropped, and all are created.
    Rebuild,
    /// None is there: all are created.
    Create,
}

/// What is done about the full-text indices when so many are there.
pub fn ensure_fts_plan(present: usize) -> (r: FtsPlan)
    ensures
        r == (if present >= LORE_FTS_INDICES {
            FtsPlan::Keep
        } else if present > 0 {
            FtsPlan::Rebuild
        } else {
            FtsPlan::Create
        }),
{
    if present >= LORE_FTS_INDICES {
        FtsPlan::Keep
    } else if present > 0 {
        FtsPlan::Rebuild
    } else {
        FtsPlan::Create
    }
}

/// Whether the full-text indices are merged: there are some, and their fragments
/// are not known to be too many. Queries are right without it.
pub fn should_merge_fts(fragments: Option<usize>, present: usize) -> (r: bool)
    ensures
        r == (present > 0 && !(fragments is Some && fragments->0 > MAX_LORE_INDEX_FRAGMENTS)),
{
    match fragments {
        Some(fragments) => fragments <= MAX_LORE_INDEX_FRAGMENTS && present > 0,
        None => present > 0,
    }
}

/// What has to be done to a table of emails written by an older version.
pub struct LoreMigration {
    /// Drop the column of raw headers, and compact the table.
    pub drop_headers: bool,
    /// Add the column of timestamps, and forget the commits whose emails were
    /// recorded as read but never stored.
    pub add_timestamps: bool,
}

/// What has to be done to a table of emails with these columns.
pub fn lore_migration(column_names: &[String]) -> (r: LoreMigration)
    ensures
        r.drop_headers == texts(column_names@).contains("headers"@),
        r.add_timestamps == !texts(column_names@).contains("date_timestamp"@),
{
    LoreMigration {
        drop_headers: has_name(column_names, "headers"),
        add_timestamps: !has_name(column_names, "date_timestamp"),
    }
}

/// A table of emails as it is created needs no migration.
pub proof fn new_tables_need_no_migration()
    ensures
        !lore_columns().map_values(|c: Column| c.name).contains("headers"@),
        lore_columns().map_values(|c: Column| c.name).contains("date_timestamp"@),
{
    let names = lore_columns().map_values(|c: Column| c.name);
    assert(names[3] == "date_timestamp"@);
    reveal_strlit("headers");
    reveal_strlit("git_commit_sha");
    reveal_strlit("from");
    reveal_strlit("date");
    reveal_strlit("date_timestamp");
    reveal_strlit("message_id");
    reveal_strlit("in_reply_to");
    reveal_strlit("subject");
    reveal_strlit("references");
    reveal_strlit("recipients");
    reveal_strlit("body");
    reveal_strlit("symbols");
    assert forall|i: int| 0 <= i < names.len() implies names[i] != "headers"@ by {
        if i == 6 {
            assert(names[6][0] == 's');
        } else if i == 10 {
            assert(names[10][0] == 's');
        } else {
            assert(names[i].len() != 7);
        }
    }
}

/// The commits recorded as read whose emails are not stored, in order.
pub fn orphaned_commits(recorded: &Vec<String>, stored: &NameSet) -> (r: Vec<String>)
    requires
        stored.wf(),
    ensures
        texts(r@) == texts(recorded@).filter(|sha: Seq<char>| !stored@.contains(sha)),
{
    let ghost all = texts(recorded@);
    let ghost wanted = |sha: Seq<char>| !stored@.contains(sha);
    let mut out: Vec<String> = Vec::new();
    let mut i: usize = 0;
    proof {
        reveal(Seq::filter);
        assert(all.take(0) =~= Seq::empty());
        assert(texts(out@) =~= Seq::empty());
    }
    while i < recorded.len()
        invariant
            i <= recorded@.len(),
            stored.wf(),
            all == texts(recorded@),
            wanted == (|sha: Seq<char>| !stored@.contains(sha)),
            texts(out@) == all.take(i as int).filter(wanted),
        decreases recorded@.len() - i,
    {
        proof {
            reveal(Seq::filter);
            assert(all.take(i + 1).drop_last() =~= all.take(i as int));
            assert(all.take(i + 1).last() == recorded@[i as int]@);
        }
        if !stored.contains(recorded[i].as_str()) {
            let copy = recorded[i].clone();
            proof {
                lemma_texts_push(out@, copy);
            }
            out.push(copy);
        }
        i += 1;
    }
    assert(all.take(i as int) =~= all);
    out
}

/// Selects the rows of some commits.
pub fn commits_filter(shas: &[String]) -> (r: String)
    ensures
        r@ == one_of("git_commit_sha"@, texts(shas@), ", "@),
{
    one_of_filter("git_commit_sha", shas, ", ")
}

/// Where dropping and recreating tables has got to.
#[derive(Debug, Clone, Copy, PartialEq, Eq, Structural)]
pub enum RecreatePhase {
    /// The table's rows are being read.
    Exporting,
    /// The table is being dropped: its rows have been read.
    Dropping,
    /// The table is being created anew.
    Creating,
    /// The table's rows are being put back.
    Importing,
    /// All tables are done, and their indices are being created.
    Indexing,
    /// The full-text indices of the emails are being created.
    FtsIndexing,
    /// Everything is done.
    Finished,
    /// Something failed, and nothing more is done.
    Failed,
}

/// Dropping and recreating some tables, one after the other.
pub struct Recreation {
    pub tables: Vec<String>,
    /// The table that is being worked on.
    pub at: usize,
    pub phase: RecreatePhase,
    /// Whether there is a table of emails.
    pub has_lore: bool,
    /// Whether only one table was asked for: then nothing more is done once it
    /// turns out to have no rows.
    pub single: bool,
}

/// What became of the step that was asked for.
pub enum StepResult {
    /// The table's rows were read, in so many batches.
    Exported(usize),
    Done,
    Failed,
}

impl Recreation {
    pub open spec fn wf(&self) -> bool {
        match self.phase {
            RecreatePhase::Exporting | RecreatePhase::Dropping | RecreatePhase::Creating
            | RecreatePhase::Importing => self.at < self.tables@.len(),
            _ => true,
        }
    }

    /// The phase and the place of what comes after a table.
    pub open spec fn after_table(&self) -> (RecreatePhase, int) {
        (
            if self.at + 1 < self.tables@.len() {
                RecreatePhase::Exporting
            } else {
                RecreatePhase::Indexing
            },
            self.at + 1,
        )
    }

    /// The phase and the place that follow a step. A table is dropped only after
    /// its rows were read and there are some, and its rows are put back once it
    /// is there again; a table without rows is left alone.
    pub open spec fn following(&self, result: StepResult) -> (RecreatePhase, int) {
        match (self.phase, result) {
            (RecreatePhase::Exporting, StepResult::Exported(batches)) => if batches == 0
                && self.single {
                (RecreatePhase::Finished, self.at as int)
            } else if batches == 0 {
                self.after_table()
            } else {
                (RecreatePhase::Dropping, self.at as int)
            },
            (RecreatePhase::Dropping, StepResult::Done) => (
                RecreatePhase::Creating,
                self.at as int,
            ),
            (RecreatePhase::Creating, StepResult::Done) => (
                RecreatePhase::Importing,
                self.at as int,
            ),
            (RecreatePhase::Importing, StepResult::Done) => self.after_table(),
            (RecreatePhase::Indexing, StepResult::Done) => (
                if self.has_lore {
                    RecreatePhase::FtsIndexing
                } else {
                    RecreatePhase::Finished
                },
                self.at as int,
            ),
            (RecreatePhase::FtsIndexing, _) => (RecreatePhase::Finished, self.at as int),
            (RecreatePhase::Finished, _) => (RecreatePhase::Finished, self.at as int),
            _ => (RecreatePhase::Failed, self.at as int),
        }
    }

    /// Begins with the tables that are there.
    pub fn of_existing(existing: &[String]) -> (r: Self)
        ensures
            r.wf(),
            texts(r.tables@) == those_among(data_tables(), texts(existing@), true),
            r.at == 0,
            !r.single,
            r.has_lore == texts(existing@).contains("lore"@),
            r.phase == (if r.tables@.len() > 0 {
                RecreatePhase::Exporting
            } else {
                RecreatePhase::Indexing
            }),
    {
        let tables = existing_data_tables(existing);
        let phase = if tables.len() > 0 {
            RecreatePhase::Exporting
        } else {
            RecreatePhase::Indexing
        };
        Recreation { tables, at: 0, phase, has_lore: has_name(existing, "lore"), single: false }
    }

    /// Begins with one table, where it is there.
    pub fn of_table(table: &str, existing: &[String]) -> (r: Result<Self, String>)
        ensures
            match r {
                Ok(r) => texts(existing@).contains(table@) && r.wf() && texts(r.tables@)
                    == seq![table@] && r.at == 0 && r.phase == RecreatePhase::Exporting
                    && r.single && r.has_lore == (table@ == "lore"@),
                Err(message) => !texts(existing@).contains(table@) && message@ == "Table "@
                    + table@ + " does not exist"@,
            },
    {
        if !has_name(existing, table) {
            let mut out = String::from_str("Table ");
            out.append(table);
            out.append(" does not exist");
            return Err(out);
        }
        let tables = one(table);
        assert(texts(tables@) == seq![table@]);
        assert(texts(tables@).len() == 1);
        Ok(
            Recreation {
                tables,
                at: 0,
                phase: RecreatePhase::Exporting,
                has_lore: str_eq(table, "lore"),
                single: true,
            },
        )
    }

    /// Takes in what became of a step.
    pub fn step(&mut self, result: StepResult)
        requires
            old(self).wf(),
        ensures
            final(self).wf(),
            (final(self).phase, final(self).at as int) == old(self).following(result),
            final(self).tables == old(self).tables,
            final(self).has_lore == old(self).has_lore,
            final(self).single == old(self).single,
    {
        let count: usize = self.tables.len();
        let next = match (self.phase, result) {
            (RecreatePhase::Exporting, StepResult::Exported(batches)) => if batches == 0
                && self.single {
                RecreatePhase::Finished
            } else if batches == 0 {
                self.at = self.at + 1;
                if self.at < count {
                    RecreatePhase::Exporting
                } else {
                    RecreatePhase::Indexing
                }
            } else {
                RecreatePhase::Dropping
            },
            (RecreatePhase::Dropping, StepResult::Done) => RecreatePhase::Creating,
            (RecreatePhase::Creating, StepResult::Done) => RecreatePhase::Importing,
            (RecreatePhase::Importing, StepResult::Done) => {
                self.at = self.at + 1;
                if self.at < count {
                    RecreatePhase::Exporting
                } else {
                    RecreatePhase::Indexing
                }
            },
            (RecreatePhase::Indexing, StepResult::Done) => if self.has_lore {
                RecreatePhase::FtsIndexing
            } else {
                RecreatePhase::Finished
            },
            (RecreatePhase::FtsIndexing, _) => RecreatePhase::Finished,
            (RecreatePhase::Finished, _) => RecreatePhase::Finished,
            _ => RecreatePhase::Failed,
        };
        self.phase = next;
    }
}

/// A table is dropped only right after its rows were read, and there were some.
pub proof fn rows_are_read_before_a_table_is_dropped(
    before: Recreation,
    result: StepResult,
)
    requires
        before.following(result).0 == RecreatePhase::Dropping,
    ensures
        before.phase == RecreatePhase::Exporting,
        result matches StepResult::Exported(batches) && batches > 0,
        before.following(result).1 == before.at,
{
}

/// What has been read of a dropped table is put back before another table is
/// touched, unless something fails.
pub proof fn rows_are_put_back_before_the_next_table(before: Recreation, result: StepResult)
    requires
        before.phase == RecreatePhase::Dropping || before.phase == RecreatePhase::Creating
            || before.phase == RecreatePhase::Importing,
        before.following(result).1 != before.at,
    ensures
        before.phase == RecreatePhase::Importing,
        result is Done,
{
}

/// The columns of emails that have a full-text index.
pub open spec fn fts_columns() -> Seq<Seq<char>> {
    seq!["from"@, "subject"@, "body"@, "recipients"@, "symbols"@]
}

/// The columns of emails that have a full-text index.
pub fn create_all_fts_indices() -> (r: Vec<String>)
    ensures
        texts(r@) == fts_columns(),
        r@.len() == LORE_FTS_INDICES,
{
    let r = vec![
        String::from_str("from"),
        String::from_str("subject"),
        String::from_str("body"),
        String::from_str("recipients"),
        String::from_str("symbols"),
    ];
    assert(texts(r@) =~= fts_columns());
    r
}

/// The tables that indexing emails changes, as far as they are there.
pub fn compact_lore_tables(existing: &[String]) -> (r: Vec<String>)
    ensures
        texts(r@) == those_among(seq!["lore"@, "lore_indexed_commits"@], texts(existing@), true),
{
    let list = two("lore", "lore_indexed_commits");
    select_names(&list, existing, true)
}

} // verus!
