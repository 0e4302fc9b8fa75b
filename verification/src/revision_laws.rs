//! What counts of references, the state of an index and the paths of a revision
//! promise, said of the rows and paths themselves.
use vstd::prelude::*;
use crate::index_state::{
    contents_read, get_files_for_incremental_scan, index_predates_reader, initial_metadata,
    mark_file_processed, processed_by_this_extractor, read_by_this_build, recorded_index_options,
    ChangeType, ChangedFile,
};
use crate::json::json_names;
use crate::names::{distinct, distinct_names_are_the_names, NameMap, NameSet};
use crate::references::{
    get_distinct_reference_counts_git_aware, identities_tell_apart, identity, listed,
    reference_complaint, reference_count, referrers, referring, speaks, type_referrers, ReferenceRow,
};
use crate::revision::{
    manifest, manifest_of, normalize_manifest_path, single_slashes, value_texts,
    workdir_merged_manifest, PathAnswer, RevisionPaths,
};
use crate::stored::ProcessedFileRecord;
use crate::tables::SCHEMA_VERSION;
use crate::text::{lemma_contains_push, pieces, texts};

verus! {

/// Whether a row speaks for a revision: its file is there with the content the row
/// was read from, and the working tree does not hide it.
pub open spec fn row_counts(
    row: ReferenceRow,
    manifest: Map<Seq<char>, String>,
    hidden: Set<Seq<char>>,
) -> bool {
    manifest.contains_key(row.file_path@) && manifest[row.file_path@]@ == row.git_file_hash@
        && !hidden.contains(row.file_path@)
}

/// Whether a column of a row is a list of names that has a name in it.
pub open spec fn column_has(column: Option<String>, name: Seq<char>) -> bool {
    column is Some && json_names((column->0)@) is Ok && (json_names(
        (column->0)@,
    )->Ok_0).contains(name)
}

/// Whether two rows are of one thing: of one name, on one line of one file.
pub open spec fn one_thing(a: ReferenceRow, b: ReferenceRow) -> bool {
    a.file_path@ == b.file_path@ && a.line == b.line && a.name@ == b.name@
}

/// Whether some rows are of different things, none with a colon in its name.
pub open spec fn different_things(rows: Seq<ReferenceRow>) -> bool {
    &&& forall|i: int| 0 <= i < rows.len() ==> !(#[trigger] rows[i]).name@.contains(':')
    &&& forall|i: int, j: int|
        0 <= i < j < rows.len() ==> !one_thing(#[trigger] rows[i], #[trigger] rows[j])
}

proof fn lemma_distinct_keeps(list: Seq<Seq<char>>)
    requires
        list.no_duplicates(),
    ensures
        distinct(list) == list,
    decreases list.len(),
{
    if list.len() > 0 {
        let init = list.drop_last();
        lemma_distinct_keeps(init);
        assert(!init.contains(list.last())) by {
            if init.contains(list.last()) {
                let i = choose|i: int| 0 <= i < init.len() && init[i] == list.last();
                assert(list[i] == list[list.len() - 1]);
            }
        }
        assert(distinct(list) =~= list);
    } else {
        assert(distinct(list) =~= list);
    }
}

spec fn id_of(row: ReferenceRow, kind: Seq<char>) -> Seq<char> {
    identity(kind, row.file_path@, row.line as int, row.name@)
}

spec fn column_of(row: ReferenceRow, by_calls: bool) -> Option<String> {
    if by_calls {
        row.calls
    } else {
        row.types
    }
}

/// How many rows speak for a revision and have a name in a column.
pub open spec fn rows_having(
    rows: Seq<ReferenceRow>,
    by_calls: bool,
    name: Seq<char>,
    manifest: Map<Seq<char>, String>,
    hidden: Set<Seq<char>>,
) -> nat
    decreases rows.len(),
{
    if rows.len() == 0 {
        0
    } else {
        let row = rows.last();
        rows_having(rows.drop_last(), by_calls, name, manifest, hidden) + (if row_counts(
            row,
            manifest,
            hidden,
        ) && column_has(
            if by_calls {
                row.calls
            } else {
                row.types
            },
            name,
        ) {
            1nat
        } else {
            0
        })
    }
}

proof fn lemma_referring(
    rows: Seq<ReferenceRow>,
    kind: Seq<char>,
    by_calls: bool,
    name: Seq<char>,
    manifest: Map<Seq<char>, String>,
    hidden: Set<Seq<char>>,
)
    requires
        kind == "function"@ || kind == "type"@,
        different_things(rows),
    ensures
        ({
            let found = referring(referrers(rows, kind, by_calls, manifest, hidden), name);
            &&& found.len() == rows_having(rows, by_calls, name, manifest, hidden)
            &&& found.no_duplicates()
            &&& forall|k: int|
                0 <= k < found.len() ==> exists|i: int|
                    0 <= i < rows.len() && #[trigger] found[k] == id_of(#[trigger] rows[i], kind)
        }),
    decreases rows.len(),
{
    if rows.len() > 0 {
        let init = rows.drop_last();
        let row = rows.last();
        assert(different_things(init)) by {
            assert forall|i: int| 0 <= i < init.len() implies !(
            #[trigger] init[i]).name@.contains(':') by {
                assert(init[i] == rows[i]);
            }
            assert forall|i: int, j: int| 0 <= i < j < init.len() implies !one_thing(
                #[trigger] init[i],
                #[trigger] init[j],
            ) by {
                assert(init[i] == rows[i] && init[j] == rows[j]);
            }
        }
        lemma_referring(init, kind, by_calls, name, manifest, hidden);
        let all = referrers(init, kind, by_calls, manifest, hidden);
        let before = referring(all, name);
        let now = referring(referrers(rows, kind, by_calls, manifest, hidden), name);
        if speaks(row, manifest, hidden) {
            let entry = (id_of(row, kind), listed(column_of(row, by_calls)));
            assert(referrers(rows, kind, by_calls, manifest, hidden) == all.push(entry));
            assert(all.push(entry).drop_last() =~= all);
            if entry.1.contains(name) {
                assert(now == before.push(entry.0));
                assert(!before.contains(entry.0)) by {
                    if before.contains(entry.0) {
                        let k = choose|k: int| 0 <= k < before.len() && before[k] == entry.0;
                        let i = choose|i: int|
                            0 <= i < init.len() && before[k] == id_of(#[trigger] init[i], kind);
                        assert(init[i] == rows[i]);
                        assert(rows[rows.len() - 1] == row);
                        identities_tell_apart(
                            kind,
                            rows[i].file_path@,
                            rows[i].line as int,
                            rows[i].name@,
                            kind,
                            row.file_path@,
                            row.line as int,
                            row.name@,
                        );
                        assert(one_thing(rows[i], rows[rows.len() - 1]));
                    }
                }
                assert(now.no_duplicates());
            } else {
                assert(now == before);
            }
        }
        assert forall|k: int| 0 <= k < now.len() implies exists|i: int|
            0 <= i < rows.len() && #[trigger] now[k] == id_of(#[trigger] rows[i], kind) by {
            if k < before.len() {
                assert(now[k] == before[k]);
                let i = choose|i: int|
                    0 <= i < init.len() && before[k] == id_of(#[trigger] init[i], kind);
                assert(rows[i] == init[i]);
            } else {
                assert(now[k] == id_of(rows[rows.len() - 1], kind));
            }
        }
    }
}

proof fn lemma_referring_plus(
    a: Seq<(Seq<char>, Seq<Seq<char>>)>,
    b: Seq<(Seq<char>, Seq<Seq<char>>)>,
    name: Seq<char>,
)
    ensures
        referring(a + b, name) == referring(a, name) + referring(b, name),
    decreases b.len(),
{
    if b.len() == 0 {
        assert(a + b =~= a);
        assert(referring(a + b, name) =~= referring(a, name) + referring(b, name));
    } else {
        assert((a + b).drop_last() =~= a + b.drop_last());
        lemma_referring_plus(a, b.drop_last(), name);
        assert(referring(a + b, name) =~= referring(a, name) + referring(b, name));
    }
}

/// The count under a name is the number of functions that speak for the revision and
/// call it; for a type, of the functions and types that refer to it. What the working
/// tree adds is added.
pub proof fn references_are_counted_by_referrer(
    functions: &Vec<ReferenceRow>,
    types: &Vec<ReferenceRow>,
    function_names: &Vec<String>,
    type_names: &Vec<String>,
    manifest: &NameMap<String>,
    hidden: &NameSet,
    overlay_functions: &NameMap<usize>,
    overlay_types: &NameMap<usize>,
    function_counts: NameMap<usize>,
    type_counts: NameMap<usize>,
    name: Seq<char>,
)
    requires
        call_ensures(
            get_distinct_reference_counts_git_aware,
            (
                functions,
                types,
                function_names,
                type_names,
                manifest,
                hidden,
                overlay_functions,
                overlay_types,
            ),
            Ok::<(NameMap<usize>, NameMap<usize>), String>((function_counts, type_counts)),
        ),
        different_things(functions@),
        different_things(types@),
    ensures
        function_counts@.contains_key(name) <==> texts(function_names@).contains(name),
        type_counts@.contains_key(name) <==> texts(type_names@).contains(name),
        function_counts@.contains_key(name) ==> function_counts@[name] == rows_having(
            functions@,
            true,
            name,
            manifest@,
            hidden@,
        ) + (if overlay_functions@.contains_key(name) {
            overlay_functions@[name] as int
        } else {
            0
        }),
        type_counts@.contains_key(name) ==> type_counts@[name] == rows_having(
            functions@,
            false,
            name,
            manifest@,
            hidden@,
        ) + rows_having(types@, false, name, manifest@, hidden@) + (
        if overlay_types@.contains_key(name) {
            overlay_types@[name] as int
        } else {
            0
        }),
{
    let kind = "function"@;
    lemma_referring(functions@, kind, true, name, manifest@, hidden@);
    lemma_referring(functions@, kind, false, name, manifest@, hidden@);
    lemma_referring(types@, "type"@, false, name, manifest@, hidden@);
    let a = referrers(functions@, kind, false, manifest@, hidden@);
    let b = referrers(types@, "type"@, false, manifest@, hidden@);
    lemma_distinct_keeps(referring(referrers(functions@, kind, true, manifest@, hidden@), name));
    lemma_referring_plus(a, b, name);
    let x = referring(a, name);
    let y = referring(b, name);
    assert((x + y).no_duplicates()) by {
        assert forall|i: int, j: int|
            0 <= i < (x + y).len() && 0 <= j < (x + y).len() && i != j implies (x + y)[i] != (x
            + y)[j] by {
            lemma_kinds_apart(functions@, types@, x, y);
        }
    }
    lemma_distinct_keeps(x + y);
    assert(type_referrers(functions@, types@, manifest@, hidden@) == a + b);
}

proof fn lemma_kinds_apart(
    functions: Seq<ReferenceRow>,
    types: Seq<ReferenceRow>,
    x: Seq<Seq<char>>,
    y: Seq<Seq<char>>,
)
    requires
        different_things(functions),
        different_things(types),
        x.no_duplicates(),
        y.no_duplicates(),
        forall|k: int|
            0 <= k < x.len() ==> exists|i: int|
                0 <= i < functions.len() && #[trigger] x[k] == id_of(
                    #[trigger] functions[i],
                    "function"@,
                ),
        forall|k: int|
            0 <= k < y.len() ==> exists|i: int|
                0 <= i < types.len() && #[trigger] y[k] == id_of(#[trigger] types[i], "type"@),
    ensures
        (x + y).no_duplicates(),
{
    assert forall|i: int, j: int| 0 <= i < x.len() && 0 <= j < y.len() implies #[trigger] x[i]
        != #[trigger] y[j] by {
        if x[i] == y[j] {
            let a = choose|a: int|
                0 <= a < functions.len() && x[i] == id_of(#[trigger] functions[a], "function"@);
            let b = choose|b: int|
                0 <= b < types.len() && y[j] == id_of(#[trigger] types[b], "type"@);
            identities_tell_apart(
                "function"@,
                functions[a].file_path@,
                functions[a].line as int,
                functions[a].name@,
                "type"@,
                types[b].file_path@,
                types[b].line as int,
                types[b].name@,
            );
            reveal_strlit("function");
            reveal_strlit("type");
            assert("function"@.len() == 8 && "type"@.len() == 4);
        }
    }
}

/// A row of a thing that was counted already adds nothing.
pub proof fn one_thing_is_counted_once(
    rows: Seq<ReferenceRow>,
    row: ReferenceRow,
    i: int,
    kind: Seq<char>,
    name: Seq<char>,
    manifest: Map<Seq<char>, String>,
    hidden: Set<Seq<char>>,
)
    requires
        0 <= i < rows.len(),
        one_thing(rows[i], row),
        row_counts(rows[i], manifest, hidden),
        column_has(rows[i].calls, name),
    ensures
        reference_count(referrers(rows.push(row), kind, true, manifest, hidden), name)
            == reference_count(referrers(rows, kind, true, manifest, hidden), name),
{
    let all = referrers(rows, kind, true, manifest, hidden);
    let found = referring(all, name);
    lemma_speaks(rows, i, kind, name, manifest, hidden);
    assert(rows.push(row).drop_last() =~= rows);
    let entry = (id_of(row, kind), listed(row.calls));
    assert(all.push(entry).drop_last() =~= all);
    distinct_names_are_the_names(found);
    assert(found.push(entry.0).drop_last() =~= found);
    assert(distinct(found).contains(entry.0));
}

proof fn lemma_speaks(
    rows: Seq<ReferenceRow>,
    i: int,
    kind: Seq<char>,
    name: Seq<char>,
    manifest: Map<Seq<char>, String>,
    hidden: Set<Seq<char>>,
)
    requires
        0 <= i < rows.len(),
        row_counts(rows[i], manifest, hidden),
        column_has(rows[i].calls, name),
    ensures
        referring(referrers(rows, kind, true, manifest, hidden), name).contains(
            id_of(rows[i], kind),
        ),
    decreases rows.len(),
{
    let init = rows.drop_last();
    let row = rows.last();
    let all = referrers(init, kind, true, manifest, hidden);
    let before = referring(all, name);
    let entry = (id_of(row, kind), listed(row.calls));
    assert(all.push(entry).drop_last() =~= all);
    lemma_contains_push(before, entry.0, id_of(rows[i], kind));
    if i < init.len() {
        assert(init[i] == rows[i]);
        lemma_speaks(init, i, kind, name, manifest, hidden);
    } else {
        assert(rows[i] == row);
        assert(speaks(row, manifest, hidden));
    }
}

/// Counting fails just where a function that speaks has a list of calls that is none.
pub proof fn broken_lists_fail_the_count(
    rows: Seq<ReferenceRow>,
    manifest: Map<Seq<char>, String>,
    hidden: Set<Seq<char>>,
)
    ensures
        reference_complaint(rows, manifest, hidden) is Some <==> exists|i: int|
            0 <= i < rows.len() && row_counts(#[trigger] rows[i], manifest, hidden)
                && rows[i].calls is Some && json_names((rows[i].calls->0)@) is Err,
    decreases rows.len(),
{
    if rows.len() > 0 {
        let init = rows.drop_last();
        broken_lists_fail_the_count(init, manifest, hidden);
        assert(rows[rows.len() - 1] == rows.last());
        assert(speaks(rows.last(), manifest, hidden) == row_counts(rows.last(), manifest, hidden));
        if reference_complaint(init, manifest, hidden) is Some {
            let i = choose|i: int|
                0 <= i < init.len() && row_counts(#[trigger] init[i], manifest, hidden)
                    && init[i].calls is Some && json_names((init[i].calls->0)@) is Err;
            assert(rows[i] == init[i]);
        }
        if exists|i: int|
            0 <= i < rows.len() && row_counts(#[trigger] rows[i], manifest, hidden)
                && rows[i].calls is Some && json_names((rows[i].calls->0)@) is Err {
            let i = choose|i: int|
                0 <= i < rows.len() && row_counts(#[trigger] rows[i], manifest, hidden)
                    && rows[i].calls is Some && json_names((rows[i].calls->0)@) is Err;
            if i < init.len() {
                assert(init[i] == rows[i]);
            }
        }
    }
}

/// The contents that may be skipped are those of the records that this build's
/// extractor made.
pub proof fn skipped_contents_were_read_by_this_build(
    records: &Vec<ProcessedFileRecord>,
    r: Vec<String>,
    content: Seq<char>,
)
    requires
        call_ensures(processed_by_this_extractor, (records,), r),
    ensures
        texts(r@).contains(content) <==> exists|i: int|
            0 <= i < records@.len() && (#[trigger] records@[i]).git_file_sha@ == content
                && records@[i].extractor_version == Some(SCHEMA_VERSION),
        texts(r@).no_duplicates(),
{
    distinct_names_are_the_names(contents_read(records@));
    lemma_contents_read(records@, content);
}

proof fn lemma_contents_read(records: Seq<ProcessedFileRecord>, content: Seq<char>)
    ensures
        contents_read(records).contains(content) <==> exists|i: int|
            0 <= i < records.len() && (#[trigger] records[i]).git_file_sha@ == content
                && records[i].extractor_version == Some(SCHEMA_VERSION),
    decreases records.len(),
{
    if records.len() > 0 {
        let init = records.drop_last();
        lemma_contents_read(init, content);
        assert(records[records.len() - 1] == records.last());
        if read_by_this_build(records.last()) {
            lemma_contains_push(contents_read(init), records.last().git_file_sha@, content);
        }
        if contents_read(init).contains(content) {
            let i = choose|i: int|
                0 <= i < init.len() && (#[trigger] init[i]).git_file_sha@ == content
                    && init[i].extractor_version == Some(SCHEMA_VERSION);
            assert(records[i] == init[i]);
        }
        if exists|i: int|
            0 <= i < records.len() && (#[trigger] records[i]).git_file_sha@ == content
                && records[i].extractor_version == Some(SCHEMA_VERSION) {
            let i = choose|i: int|
                0 <= i < records.len() && (#[trigger] records[i]).git_file_sha@ == content
                    && records[i].extractor_version == Some(SCHEMA_VERSION);
            if i < init.len() {
                assert(init[i] == records[i]);
            }
        }
    }
}

/// An index predates the reader where a file in it was read by another extractor, or
/// no file is recorded and the version of the database is older or none.
pub proof fn older_files_make_an_index_old(
    records: &Vec<ProcessedFileRecord>,
    stored_version: Option<u32>,
    r: bool,
)
    requires
        call_ensures(index_predates_reader, (records, stored_version), r),
    ensures
        records@.len() > 0 ==> (r <==> exists|i: int|
            0 <= i < records@.len() && (#[trigger] records@[i]).extractor_version != Some(
                SCHEMA_VERSION,
            )),
        records@.len() == 0 && stored_version is Some ==> (r <==> stored_version->0
            < SCHEMA_VERSION),
        records@.len() == 0 && stored_version is None ==> r,
{
    if records@.len() > 0 && r {
        let i = choose|i: int|
            0 <= i < records@.len() && !read_by_this_build(#[trigger] records@[i]);
        assert(records@[i].extractor_version != Some(SCHEMA_VERSION));
    }
    if exists|i: int|
        0 <= i < records@.len() && (#[trigger] records@[i]).extractor_version != Some(
            SCHEMA_VERSION,
        ) {
        let i = choose|i: int|
            0 <= i < records@.len() && (#[trigger] records@[i]).extractor_version != Some(
                SCHEMA_VERSION,
            );
        assert(!read_by_this_build(records@[i]));
    }
}

/// A file that is marked has the columns it was marked with, and this build's version.
pub proof fn a_mark_keeps_its_columns(
    file: String,
    git_sha: Option<String>,
    git_file_sha: String,
    r: ProcessedFileRecord,
)
    requires
        call_ensures(mark_file_processed, (file, git_sha, git_file_sha), r),
    ensures
        r.file@ == file@,
        r.git_sha == git_sha,
        r.git_file_sha@ == git_file_sha@,
        r.extractor_version == Some(SCHEMA_VERSION),
{
}

/// The options of an index are known where its extensions are recorded: these, parted
/// by commas, and that macros were skipped where that is what is recorded of them.
pub proof fn options_are_those_recorded(
    extensions: Option<&str>,
    macros: Option<&str>,
    r: Option<(Vec<String>, bool)>,
)
    requires
        call_ensures(recorded_index_options, (extensions, macros), r),
    ensures
        r is Some <==> extensions is Some && (extensions->0)@.len() > 0,
        r is Some ==> texts((r->0).0@) == pieces((extensions->0)@, ','),
        r is Some ==> ((r->0).1 <==> macros is Some && (macros->0)@ == "skipped"@),
{
}

/// What a new index says of itself.
pub proof fn a_new_index_says_since_when(now: u64, r: Vec<(String, String)>)
    requires
        call_ensures(initial_metadata, (now,), r),
    ensures
        r@.len() == 3,
        r@[0].0@ == "schema_version"@,
        crate::text_laws::number(r@[0].1@) == SCHEMA_VERSION,
        r@[1].0@ == "populated_since:dispatch_sites"@,
        r@[2].0@ == "populated_since:registrations"@,
        crate::text_laws::number(r@[1].1@) == now,
        crate::text_laws::number(r@[2].1@) == now,
{
    crate::text_laws::decimals_have_their_value(SCHEMA_VERSION as nat);
    crate::text_laws::decimals_have_their_value(now as nat);
}

/// A file is scanned again where it changed and was not deleted, or where it is
/// connected to a change and did not change.
pub proof fn changed_and_connected_files_are_scanned(
    changed: &Vec<ChangedFile>,
    connected: &Vec<String>,
    r: NameSet,
    path: Seq<char>,
)
    requires
        call_ensures(get_files_for_incremental_scan, (changed, connected), r),
    ensures
        (exists|i: int|
            0 <= i < changed@.len() && (#[trigger] changed@[i]).path@ == path
                && changed@[i].change_type != ChangeType::Deleted) ==> r@.contains(path),
        (forall|i: int| 0 <= i < changed@.len() ==> (#[trigger] changed@[i]).path@ != path) ==> (
        r@.contains(path) <==> texts(connected@).contains(path)),
        (exists|i: int| 0 <= i < changed@.len() && (#[trigger] changed@[i]).path@ == path) && (
        forall|i: int|
            0 <= i < changed@.len() && (#[trigger] changed@[i]).path@ == path
                ==> changed@[i].change_type == ChangeType::Deleted) ==> !r@.contains(path),
{
    assert(r@.contains(path) <==> crate::index_state::is_left(changed@, path) || (texts(
        connected@,
    ).contains(path) && !crate::index_state::is_changed(changed@, path)));
}

/// Whether a text has two slashes together.
pub open spec fn has_double_slash(s: Seq<char>) -> bool {
    exists|i: int| 0 <= i < s.len() - 1 && #[trigger] s[i] == '/' && s[i + 1] == '/'
}

/// Two slashes together become one, and the rest of a path stays.
pub proof fn double_slashes_become_one(lead: Seq<char>, rest: Seq<char>)
    requires
        !has_double_slash(lead),
        lead.len() > 0 ==> lead.last() != '/',
    ensures
        single_slashes(lead) == lead,
        single_slashes(lead + seq!['/', '/'] + rest) == lead + seq!['/'] + single_slashes(rest),
    decreases lead.len(),
{
    let whole = lead + seq!['/', '/'] + rest;
    if lead.len() == 0 {
        assert(whole.skip(2) =~= rest);
        assert(whole[0] == '/' && whole[1] == '/');
        assert(single_slashes(whole) =~= lead + seq!['/'] + single_slashes(rest));
        assert(single_slashes(lead) =~= lead);
    } else {
        let less = lead.skip(1);
        assert(!has_double_slash(less)) by {
            if has_double_slash(less) {
                let i = choose|i: int|
                    0 <= i < less.len() - 1 && #[trigger] less[i] == '/' && less[i + 1] == '/';
                assert(lead[i + 1] == '/' && lead[i + 1 + 1] == '/');
            }
        }
        if less.len() > 0 {
            assert(less.last() == lead.last());
        }
        double_slashes_become_one(less, rest);
        assert(whole.skip(1) =~= less + seq!['/', '/'] + rest);
        if lead[0] == '/' {
            assert(lead.len() >= 2);
            assert(lead[0int + 1] != '/') by {
                if lead[0int + 1] == '/' {
                    assert(lead[0] == '/');
                    assert(has_double_slash(lead));
                }
            }
            assert(whole[1] == lead[1]);
        }
        assert(single_slashes(whole) =~= lead + seq!['/'] + single_slashes(rest));
        assert(single_slashes(lead) =~= lead) by {
            assert(lead =~= seq![lead[0]] + less);
        }
    }
}

/// The manifest of a tree walk has for each path the hash that it was seen with last.
pub proof fn a_manifest_has_what_was_seen_last(
    entries: &Vec<(String, String)>,
    r: NameMap<String>,
    path: Seq<char>,
)
    requires
        call_ensures(manifest_of, (entries,), r),
    ensures
        r@.contains_key(path) <==> exists|i: int|
            0 <= i < entries@.len() && single_slashes((#[trigger] entries@[i]).0@) == path,
        r@.contains_key(path) ==> exists|i: int|
            0 <= i < entries@.len() && single_slashes((#[trigger] entries@[i]).0@) == path
                && r@[path]@ == entries@[i].1@ && forall|j: int|
                i < j < entries@.len() ==> single_slashes((#[trigger] entries@[j]).0@) != path,
{
    lemma_manifest(entries@, path);
    assert(value_texts(r@).contains_key(path) == r@.contains_key(path));
    if r@.contains_key(path) {
        assert(value_texts(r@)[path] == r@[path]@);
    }
}

proof fn lemma_manifest(entries: Seq<(String, String)>, path: Seq<char>)
    ensures
        manifest(entries).contains_key(path) <==> exists|i: int|
            0 <= i < entries.len() && single_slashes((#[trigger] entries[i]).0@) == path,
        manifest(entries).contains_key(path) ==> exists|i: int|
            0 <= i < entries.len() && single_slashes((#[trigger] entries[i]).0@) == path
                && manifest(entries)[path] == entries[i].1@ && forall|j: int|
                i < j < entries.len() ==> single_slashes((#[trigger] entries[j]).0@) != path,
    decreases entries.len(),
{
    if entries.len() > 0 {
        let init = entries.drop_last();
        lemma_manifest(init, path);
        assert(entries[entries.len() - 1] == entries.last());
        if single_slashes(entries.last().0@) != path {
            if manifest(init).contains_key(path) {
                let i = choose|i: int|
                    0 <= i < init.len() && single_slashes((#[trigger] init[i]).0@) == path
                        && manifest(init)[path] == init[i].1@ && forall|j: int|
                        i < j < init.len() ==> single_slashes((#[trigger] init[j]).0@) != path;
                assert(entries[i] == init[i]);
                assert forall|j: int| i < j < entries.len() implies single_slashes(
                    (#[trigger] entries[j]).0@,
                ) != path by {
                    if j < init.len() {
                        assert(init[j] == entries[j]);
                    }
                }
            }
            if exists|i: int|
                0 <= i < entries.len() && single_slashes((#[trigger] entries[i]).0@) == path {
                let i = choose|i: int|
                    0 <= i < entries.len() && single_slashes((#[trigger] entries[i]).0@) == path;
                assert(init[i] == entries[i]);
            }
        }
    }
}

/// Paths are written in a manifest as they are normalized.
pub proof fn paths_are_normalized(path: &str, r: String)
    requires
        call_ensures(normalize_manifest_path, (path,), r),
    ensures
        r@ == single_slashes(path@),
        !has_double_slash(path@) && path@.last() != '/' ==> r@ == path@,
{
    if !has_double_slash(path@) && path@.last() != '/' {
        double_slashes_become_one(path@, Seq::empty());
    }
}

/// With the working tree laid over it a manifest has nothing deleted, what changed as
/// it is now, and the rest as it was.
pub proof fn the_working_tree_lies_over_the_manifest(
    head: &NameMap<String>,
    dirty: &NameMap<String>,
    deleted: &NameSet,
    r: NameMap<String>,
    path: Seq<char>,
)
    requires
        call_ensures(workdir_merged_manifest, (head, dirty, deleted), r),
    ensures
        deleted@.contains(path) ==> !r@.contains_key(path),
        !deleted@.contains(path) && dirty@.contains_key(path) ==> r@.contains_key(path) && r@[path]
            == dirty@[path],
        !deleted@.contains(path) && !dirty@.contains_key(path) ==> (r@.contains_key(path)
            <==> head@.contains_key(path)) && (r@.contains_key(path) ==> r@[path] == head@[path]),
{
}

/// What a revision says of a path: nothing for one that is deleted, what is in the
/// working tree for one that changed, and else what the revision was seen to have.
pub proof fn paths_are_answered_by_the_working_tree_first(
    paths: &RevisionPaths,
    path: &str,
    r: PathAnswer,
)
    requires
        paths.wf(),
        call_ensures(RevisionPaths::hash_of, (paths, path), r),
    ensures
        paths.deleted_paths().contains(path@) ==> (r matches PathAnswer::Known(hash)
            && hash is None),
        !paths.deleted_paths().contains(path@) && paths.dirty_paths().contains_key(path@) ==> (
        r matches PathAnswer::Known(hash) && hash is Some && (hash->0)@
            == paths.dirty_paths()[path@]@),
        !paths.deleted_paths().contains(path@) && !paths.dirty_paths().contains_key(path@)
            && !paths.is_valid() ==> (r matches PathAnswer::Known(hash) && hash is None),
        !paths.deleted_paths().contains(path@) && !paths.dirty_paths().contains_key(path@)
            && paths.is_valid() && paths.walked() is Some ==> (r matches PathAnswer::Known(hash)
            && (hash is Some <==> (paths.walked()->0).contains_key(path@)) && (hash is Some ==> (
        hash->0)@ == (paths.walked()->0)[path@]@)),
        !paths.deleted_paths().contains(path@) && !paths.dirty_paths().contains_key(path@)
            && paths.is_valid() && paths.walked() is None && !paths.looked_up().contains_key(path@)
            ==> (r is WalkTree <==> paths.lookups() >= 64) && (r is ResolvePath <==> paths.lookups()
            < 64),
{
}

} // verus!
