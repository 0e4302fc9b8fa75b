//! What the lookups of callers, callees and entry points promise, said of the stored
//! rows themselves.
use vstd::prelude::*;
use crate::call_rows::{
    calling_names, callers_at, callers_come_from_both_sides, callers_of, complaint_of,
    complaints_come_from_rows, counts, extended, first_complaint, fuller, fullest, indexes_callers,
    is_called, names_at, names_in, naming, naming_comes_from_rows, relations, repeated,
    the_fullest_row_is_full, NameListRow,
};
use crate::json::{call_list_complaint, json_names};
use crate::keyed::occurrences;
use crate::names::{distinct, distinct_names_are_the_names};
use crate::overlay::lemma_filter_contains;
use crate::text::{has_suffix, texts};
use crate::types::FunctionInfo;

verus! {

/// Whether the list of a row is a list of names, and has a name in it.
pub open spec fn row_lists(row: NameListRow, name: Seq<char>) -> bool {
    row.list is Some && json_names((row.list->0)@) is Ok && (json_names((
    row.list->0)@)->Ok_0).contains(name)
}

/// Whether a row stands at a revision: the manifest has its file, with the content
/// the row was read from.
pub open spec fn row_stands(row: NameListRow, manifest: Map<Seq<char>, String>) -> bool {
    manifest.contains_key(row.file_path@) && manifest[row.file_path@]@ == row.git_file_hash@
}

/// A function calls another just when the other is in its list of calls. Its callers
/// are the functions whose own list has it, each once.
pub proof fn callers_have_the_function_in_their_list(
    rows: Seq<NameListRow>,
    name: Seq<char>,
    caller: Seq<char>,
)
    ensures
        distinct(naming(rows, None, name)).contains(caller) <==> exists|i: int|
            0 <= i < rows.len() && (#[trigger] rows[i]).name@ == caller && row_lists(
                rows[i],
                name,
            ),
        distinct(naming(rows, None, name)).no_duplicates(),
{
    naming_comes_from_rows(rows, None, name, caller);
    distinct_names_are_the_names(naming(rows, None, name));
    if naming(rows, None, name).contains(caller) {
        let i = choose|i: int|
            0 <= i < rows.len() && counts(#[trigger] rows[i], None) && names_in(rows[i]).contains(
                name,
            ) && rows[i].name@ == caller;
        assert(row_lists(rows[i], name));
    }
    if exists|i: int|
        0 <= i < rows.len() && (#[trigger] rows[i]).name@ == caller && row_lists(rows[i], name) {
        let i = choose|i: int|
            0 <= i < rows.len() && (#[trigger] rows[i]).name@ == caller && row_lists(
                rows[i],
                name,
            );
        assert(counts(rows[i], None) && names_in(rows[i]).contains(name));
    }
}

/// The callers at a revision are the functions that stand there and have the
/// function in their list.
pub proof fn callers_at_a_revision_stand_there(
    rows: Seq<NameListRow>,
    manifest: Map<Seq<char>, String>,
    name: Seq<char>,
    caller: Seq<char>,
)
    ensures
        naming(rows, Some(manifest), name).contains(caller) <==> exists|i: int|
            0 <= i < rows.len() && (#[trigger] rows[i]).name@ == caller && row_lists(
                rows[i],
                name,
            ) && row_stands(rows[i], manifest),
{
    naming_comes_from_rows(rows, Some(manifest), name, caller);
    if naming(rows, Some(manifest), name).contains(caller) {
        let i = choose|i: int|
            0 <= i < rows.len() && counts(#[trigger] rows[i], Some(manifest)) && names_in(
                rows[i],
            ).contains(name) && rows[i].name@ == caller;
        assert(row_lists(rows[i], name));
    }
    if exists|i: int|
        0 <= i < rows.len() && (#[trigger] rows[i]).name@ == caller && row_lists(rows[i], name)
            && row_stands(rows[i], manifest) {
        let i = choose|i: int|
            0 <= i < rows.len() && (#[trigger] rows[i]).name@ == caller && row_lists(
                rows[i],
                name,
            ) && row_stands(rows[i], manifest);
        assert(counts(rows[i], Some(manifest)) && names_in(rows[i]).contains(name));
    }
}

/// A lookup fails just when a row that it looks at has a list that is no list of
/// names: at a revision, only the rows that stand there are looked at.
pub proof fn lists_that_are_none_are_refused(
    rows: Seq<NameListRow>,
    manifest: Map<Seq<char>, String>,
)
    ensures
        first_complaint(rows, None) is Some <==> exists|i: int|
            0 <= i < rows.len() && (#[trigger] rows[i]).list is Some && json_names(
                (rows[i].list->0)@,
            ) is Err,
        first_complaint(rows, Some(manifest)) is Some <==> exists|i: int|
            0 <= i < rows.len() && row_stands(#[trigger] rows[i], manifest) && rows[i].list is Some
                && json_names((rows[i].list->0)@) is Err,
{
    complaints_come_from_rows(rows, None);
    complaints_come_from_rows(rows, Some(manifest));
    if first_complaint(rows, None) is Some {
        let i = choose|i: int|
            0 <= i < rows.len() && counts(#[trigger] rows[i], None) && complaint_of(
                rows[i],
            ) is Some;
        assert(json_names((rows[i].list->0)@) is Err);
    }
    if exists|i: int|
        0 <= i < rows.len() && (#[trigger] rows[i]).list is Some && json_names(
            (rows[i].list->0)@,
        ) is Err {
        let i = choose|i: int|
            0 <= i < rows.len() && (#[trigger] rows[i]).list is Some && json_names(
                (rows[i].list->0)@,
            ) is Err;
        assert(counts(rows[i], None) && complaint_of(rows[i]) is Some);
    }
    if first_complaint(rows, Some(manifest)) is Some {
        let i = choose|i: int|
            0 <= i < rows.len() && counts(#[trigger] rows[i], Some(manifest)) && complaint_of(
                rows[i],
            ) is Some;
        assert(row_stands(rows[i], manifest) && json_names((rows[i].list->0)@) is Err);
    }
    if exists|i: int|
        0 <= i < rows.len() && row_stands(#[trigger] rows[i], manifest) && rows[i].list is Some
            && json_names((rows[i].list->0)@) is Err {
        let i = choose|i: int|
            0 <= i < rows.len() && row_stands(#[trigger] rows[i], manifest) && rows[i].list is Some
                && json_names((rows[i].list->0)@) is Err;
        assert(counts(rows[i], Some(manifest)) && complaint_of(rows[i]) is Some);
    }
}

/// The callers at a revision with the working tree laid over it: those of the
/// working tree, first and in order, and every stored one, none of them twice.
pub proof fn callers_of_the_working_tree_come_first(
    overlay: Seq<FunctionInfo>,
    stored: Seq<Seq<char>>,
    name: Seq<char>,
)
    ensures
        ({
            let here = overlay.map_values(|f: FunctionInfo| f.name@);
            let all = extended(here, stored);
            &&& here.is_prefix_of(all)
            &&& all.contains(name) <==> (exists|i: int|
                0 <= i < overlay.len() && (#[trigger] overlay[i]).name@ == name)
                || stored.contains(name)
        }),
{
    let here = overlay.map_values(|f: FunctionInfo| f.name@);
    callers_come_from_both_sides(here, stored);
    lemma_extended_prefix(here, stored);
    if here.contains(name) {
        let i = choose|i: int| 0 <= i < here.len() && here[i] == name;
        assert(overlay[i].name@ == name);
    }
    if exists|i: int| 0 <= i < overlay.len() && (#[trigger] overlay[i]).name@ == name {
        let i = choose|i: int| 0 <= i < overlay.len() && (#[trigger] overlay[i]).name@ == name;
        assert(here[i] == name);
    }
}

proof fn lemma_extended_prefix(names: Seq<Seq<char>>, more: Seq<Seq<char>>)
    ensures
        names.is_prefix_of(extended(names, more)),
    decreases more.len(),
{
    if more.len() > 0 {
        lemma_extended_prefix(names, more.drop_last());
        let before = extended(names, more.drop_last());
        let now = extended(names, more);
        assert(names =~= now.take(names.len() as int)) by {
            assert forall|i: int| 0 <= i < names.len() implies names[i] == now[i] by {
                assert(names[i] == before[i]);
            }
        }
    } else {
        assert(names =~= names.take(names.len() as int));
    }
}

/// Whether a row is in a header: its path ends in `.h`.
pub open spec fn in_header(row: NameListRow) -> bool {
    row.file_path@.len() >= 2 && row.file_path@[row.file_path@.len() - 2] == '.'
        && row.file_path@.last() == 'h'
}

proof fn lemma_in_header(row: NameListRow)
    ensures
        has_suffix(row.file_path@, ".h"@) == in_header(row),
{
    reveal_strlit(".h");
    let path = row.file_path@;
    if path.len() >= 2 {
        let end = path.skip(path.len() - 2);
        assert(end[0] == path[path.len() - 2] && end[1] == path.last());
        if in_header(row) {
            assert(end =~= ".h"@);
        }
    }
}

/// How many lines a row has beyond its first.
pub open spec fn row_lines(row: NameListRow) -> int {
    if row.line_end >= row.line_start {
        row.line_end - row.line_start
    } else {
        0
    }
}

/// What a function calls at a revision, or uses, is what one of its rows that stand
/// there lists: one outside headers if there is any, and of those one with the most
/// lines. Nothing stands there, nothing is listed.
pub proof fn callees_come_from_the_fullest_row(
    rows: Seq<NameListRow>,
    manifest: Map<Seq<char>, String>,
    name: Seq<char>,
)
    ensures
        (forall|i: int| 0 <= i < rows.len() ==> !row_stands(#[trigger] rows[i], manifest))
            ==> names_at(rows, manifest).len() == 0,
        (exists|i: int| 0 <= i < rows.len() && row_stands(#[trigger] rows[i], manifest)) ==> exists|
            b: int,
        |
            0 <= b < rows.len() && row_stands(#[trigger] rows[b], manifest) && (names_at(
                rows,
                manifest,
            ).contains(name) <==> row_lists(rows[b], name)) && forall|i: int|
                0 <= i < rows.len() && row_stands(#[trigger] rows[i], manifest) ==> (in_header(
                    rows[b],
                ) ==> in_header(rows[i])) && (in_header(rows[i]) == in_header(rows[b])
                    ==> row_lines(rows[i]) <= row_lines(rows[b])),
{
    the_fullest_row_is_full(rows, Some(manifest));
    match fullest(rows, Some(manifest)) {
        Some(best) => {
            let b = choose|b: int| 0 <= b < rows.len() && rows[b] == best;
            assert(counts(rows[b], Some(manifest)));
            lemma_in_header(best);
            assert forall|i: int|
                0 <= i < rows.len() && row_stands(#[trigger] rows[i], manifest) implies (in_header(
                rows[b],
            ) ==> in_header(rows[i])) && (in_header(rows[i]) == in_header(rows[b]) ==> row_lines(
                rows[i],
            ) <= row_lines(rows[b])) by {
                assert(counts(rows[i], Some(manifest)));
                assert(!fuller(rows[i], best));
                lemma_in_header(rows[i]);
            }
            assert(row_stands(rows[b], manifest));
        },
        None => {
            assert forall|i: int| 0 <= i < rows.len() implies !row_stands(
                #[trigger] rows[i],
                manifest,
            ) by {
                assert(!counts(rows[i], Some(manifest)));
            }
        },
    }
}

/// Whether a call is stored: a row of the caller lists the callee, and has the
/// content that is said.
pub open spec fn call_is_stored(
    rows: Seq<NameListRow>,
    call: (Seq<char>, Seq<char>, Seq<char>),
) -> bool {
    exists|i: int|
        0 <= i < rows.len() && (#[trigger] rows[i]).name@ == call.0 && row_lists(rows[i], call.1)
            && rows[i].git_file_hash@ == call.2
}

/// The calls that are exported are those that are stored, from caller to callee.
pub proof fn calls_go_from_caller_to_callee(
    rows: Seq<NameListRow>,
    call: (Seq<char>, Seq<char>, Seq<char>),
)
    ensures
        relations(rows).contains(call) <==> call_is_stored(rows, call),
    decreases rows.len(),
{
    if rows.len() > 0 {
        let init = rows.drop_last();
        let row = rows.last();
        calls_go_from_caller_to_callee(init, call);
        let list = names_in(row);
        let pair = |callee: Seq<char>| (row.name@, callee, row.git_file_hash@);
        let here = list.map_values(pair);
        let before = relations(init);
        let now = relations(rows);
        assert(now == before + here);
        if now.contains(call) {
            let k = choose|k: int| 0 <= k < now.len() && now[k] == call;
            if k < before.len() {
                assert(before[k] == call);
                let i = choose|i: int|
                    0 <= i < init.len() && (#[trigger] init[i]).name@ == call.0 && row_lists(
                        init[i],
                        call.1,
                    ) && init[i].git_file_hash@ == call.2;
                assert(rows[i] == init[i]);
            } else {
                assert(here[k - before.len()] == call);
                assert(list[k - before.len()] == call.1);
                assert(rows[rows.len() - 1] == row);
            }
        }
        if call_is_stored(rows, call) {
            let i = choose|i: int|
                0 <= i < rows.len() && (#[trigger] rows[i]).name@ == call.0 && row_lists(
                    rows[i],
                    call.1,
                ) && rows[i].git_file_hash@ == call.2;
            if i < init.len() {
                assert(init[i] == rows[i]);
                let k = choose|k: int| 0 <= k < before.len() && before[k] == call;
                assert(now[k] == call);
            } else {
                let k = choose|k: int| 0 <= k < list.len() && list[k] == call.1;
                assert(here[k] == call);
                assert(now[before.len() + k] == call);
            }
        }
    }
}

/// An entry point is a function that calls something and that nothing calls.
pub proof fn entry_points_call_and_are_not_called(rows: Seq<NameListRow>, name: Seq<char>)
    ensures
        distinct(calling_names(rows)).filter(|n: Seq<char>| !is_called(rows, n)).contains(name)
            <==> (exists|i: int|
            0 <= i < rows.len() && (#[trigger] rows[i]).name@ == name && calls_anything(rows[i]))
            && forall|i: int| 0 <= i < rows.len() ==> !row_lists(#[trigger] rows[i], name),
{
    let all = calling_names(rows);
    distinct_names_are_the_names(all);
    lemma_filter_contains(distinct(all), |n: Seq<char>| !is_called(rows, n), name);
    lemma_calling_names(rows, name);
    if is_called(rows, name) {
        let i = choose|i: int| 0 <= i < rows.len() && names_in(#[trigger] rows[i]).contains(name);
        assert(row_lists(rows[i], name));
    }
    if exists|i: int| 0 <= i < rows.len() && row_lists(#[trigger] rows[i], name) {
        let i = choose|i: int| 0 <= i < rows.len() && row_lists(#[trigger] rows[i], name);
        assert(names_in(rows[i]).contains(name));
    }
}

/// Whether a row lists anything.
pub open spec fn calls_anything(row: NameListRow) -> bool {
    exists|name: Seq<char>| #[trigger] row_lists(row, name)
}

proof fn lemma_calls_anything(row: NameListRow)
    ensures
        names_in(row).len() > 0 <==> calls_anything(row),
{
    if names_in(row).len() > 0 {
        let first = names_in(row)[0];
        assert(names_in(row).contains(first));
        assert(row_lists(row, first));
    }
    if calls_anything(row) {
        let name = choose|name: Seq<char>| #[trigger] row_lists(row, name);
        assert(names_in(row).contains(name));
    }
}

proof fn lemma_calling_names(rows: Seq<NameListRow>, name: Seq<char>)
    ensures
        calling_names(rows).contains(name) <==> exists|i: int|
            0 <= i < rows.len() && (#[trigger] rows[i]).name@ == name && calls_anything(rows[i]),
    decreases rows.len(),
{
    if rows.len() > 0 {
        let init = rows.drop_last();
        lemma_calling_names(init, name);
        lemma_calls_anything(rows.last());
        let before = calling_names(init);
        if names_in(rows.last()).len() > 0 {
            crate::text::lemma_contains_push(before, rows.last().name@, name);
        }
        if before.contains(name) {
            let i = choose|i: int|
                0 <= i < init.len() && (#[trigger] init[i]).name@ == name && calls_anything(
                    init[i],
                );
            assert(rows[i] == init[i]);
        }
        assert(rows[rows.len() - 1] == rows.last());
        if exists|i: int|
            0 <= i < rows.len() && (#[trigger] rows[i]).name@ == name && calls_anything(rows[i]) {
            let i = choose|i: int|
                0 <= i < rows.len() && (#[trigger] rows[i]).name@ == name && calls_anything(
                    rows[i],
                );
            if i < init.len() {
                assert(init[i] == rows[i]);
            }
        }
    }
}

/// The index of callers has a caller under a name just when the caller stands at the
/// revision and has the name in its list.
pub proof fn the_caller_index_agrees_with_the_lists(
    index: Map<Seq<char>, Vec<String>>,
    rows: Seq<NameListRow>,
    manifest: Map<Seq<char>, String>,
    callee: Seq<char>,
    caller: Seq<char>,
)
    requires
        indexes_callers(index, rows, manifest),
    ensures
        (index.contains_key(callee) && texts(index[callee]@).contains(caller)) <==> exists|i: int|
            0 <= i < rows.len() && (#[trigger] rows[i]).name@ == caller && row_lists(
                rows[i],
                callee,
            ) && row_stands(rows[i], manifest),
{
    lemma_callers_of(rows, manifest, callee, caller);
    assert(index.contains_key(callee) <==> callers_of(rows, manifest, callee).len() > 0);
}

proof fn lemma_occurs_where_listed(row: NameListRow, name: Seq<char>)
    ensures
        occurrences(names_in(row), name) > 0 <==> row_lists(row, name),
{
    lemma_occurs(names_in(row), name);
}

proof fn lemma_occurs<V>(s: Seq<V>, x: V)
    ensures
        occurrences(s, x) > 0 <==> s.contains(x),
    decreases s.len(),
{
    if s.len() > 0 {
        lemma_occurs(s.drop_last(), x);
        assert(s =~= s.drop_last().push(s.last()));
        crate::text::lemma_contains_push(s.drop_last(), s.last(), x);
    }
}

proof fn lemma_callers_of(
    rows: Seq<NameListRow>,
    manifest: Map<Seq<char>, String>,
    callee: Seq<char>,
    caller: Seq<char>,
)
    ensures
        callers_of(rows, manifest, callee).contains(caller) <==> exists|i: int|
            0 <= i < rows.len() && (#[trigger] rows[i]).name@ == caller && row_lists(
                rows[i],
                callee,
            ) && row_stands(rows[i], manifest),
    decreases rows.len(),
{
    if rows.len() > 0 {
        let init = rows.drop_last();
        let row = rows.last();
        lemma_callers_of(init, manifest, callee, caller);
        lemma_occurs_where_listed(row, callee);
        let before = callers_of(init, manifest, callee);
        let here = repeated(row.name@, occurrences(names_in(row), callee));
        let now = callers_of(rows, manifest, callee);
        if now.contains(caller) {
            let k = choose|k: int| 0 <= k < now.len() && now[k] == caller;
            if k < before.len() {
                assert(before[k] == caller);
                let i = choose|i: int|
                    0 <= i < init.len() && (#[trigger] init[i]).name@ == caller && row_lists(
                        init[i],
                        callee,
                    ) && row_stands(init[i], manifest);
                assert(rows[i] == init[i]);
            } else {
                assert(here[k - before.len()] == caller);
                assert(rows[rows.len() - 1] == row);
            }
        }
        if exists|i: int|
            0 <= i < rows.len() && (#[trigger] rows[i]).name@ == caller && row_lists(
                rows[i],
                callee,
            ) && row_stands(rows[i], manifest) {
            let i = choose|i: int|
                0 <= i < rows.len() && (#[trigger] rows[i]).name@ == caller && row_lists(
                    rows[i],
                    callee,
                ) && row_stands(rows[i], manifest);
            if i < init.len() {
                assert(init[i] == rows[i]);
                let k = choose|k: int| 0 <= k < before.len() && before[k] == caller;
                assert(now[k] == caller);
            } else {
                assert(here[0] == caller);
                assert(now[before.len() as int] == caller);
            }
        }
    }
}

/// The definitions of some callers: the first of each name that has one, and at a
/// revision only where that one stands there, in the order of the names.
pub proof fn callers_are_shown_by_their_first_definition(
    names: Seq<Seq<char>>,
    functions: Map<Seq<char>, Vec<FunctionInfo>>,
    manifest: Map<Seq<char>, String>,
)
    ensures
        callers_at(names, functions, None) == names.filter(
            |name: Seq<char>| functions.contains_key(name) && functions[name]@.len() > 0,
        ).map_values(|name: Seq<char>| functions[name]@[0]),
        callers_at(names, functions, Some(manifest)) == names.filter(
            |name: Seq<char>|
                functions.contains_key(name) && functions[name]@.len() > 0
                    && manifest.contains_key(functions[name]@[0].file_path@)
                    && manifest[functions[name]@[0].file_path@]@
                    == functions[name]@[0].git_file_hash@,
        ).map_values(|name: Seq<char>| functions[name]@[0]),
    decreases names.len(),
{
    reveal(Seq::filter);
    let first = |name: Seq<char>| functions[name]@[0];
    let known = |name: Seq<char>| functions.contains_key(name) && functions[name]@.len() > 0;
    let there = |name: Seq<char>|
        functions.contains_key(name) && functions[name]@.len() > 0 && manifest.contains_key(
            functions[name]@[0].file_path@,
        ) && manifest[functions[name]@[0].file_path@]@ == functions[name]@[0].git_file_hash@;
    if names.len() > 0 {
        let init = names.drop_last();
        let name = names.last();
        callers_are_shown_by_their_first_definition(init, functions, manifest);
        assert(init.filter(known).push(name).map_values(first) =~= init.filter(known).map_values(
            first,
        ).push(first(name)));
        assert(init.filter(there).push(name).map_values(first) =~= init.filter(there).map_values(
            first,
        ).push(first(name)));
    } else {
        assert(names.filter(known).map_values(first) =~= Seq::empty());
        assert(names.filter(there).map_values(first) =~= Seq::empty());
    }
}

/// The message about a list that is none says what is wrong with it.
pub proof fn a_broken_list_is_described(row: NameListRow)
    ensures
        row.list is Some && json_names((row.list->0)@) is Err ==> complaint_of(row) == Some(
            call_list_complaint(json_names((row.list->0)@)->Err_0, (row.list->0)@),
        ),
        row.list is None ==> complaint_of(row) is None,
        row.list is Some && json_names((row.list->0)@) is Ok ==> complaint_of(row) is None,
{
}

} // verus!
