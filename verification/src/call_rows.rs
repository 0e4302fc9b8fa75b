//! What the stored functions say of calls: rows with a list of names in JSON.
use vstd::prelude::*;
use crate::json::{call_list_complaint, json_names, parse_call_list, parse_type_list};
use crate::keyed::occurrences;
use crate::names::{distinct, distinct_names, push_under, NameMap, NameSet};
use crate::selection::{line_span, span_of};
use crate::sql::escape;
use crate::sql::escaped;
use crate::text::{ends_with, lemma_contains_push, has_suffix, lemma_texts_push, str_eq, texts};
use crate::types::FunctionInfo;

verus! {

/// A stored function, with one of its lists of names: what it calls, or the
/// types it uses.
#[derive(Debug, Clone)]
pub struct NameListRow {
    pub name: String,
    pub file_path: String,
    pub git_file_hash: String,
    pub line_start: u32,
    pub line_end: u32,
    /// The list as it is stored, in JSON; null where it is not known.
    pub list: Option<String>,
}

/// Whether a manifest has a file with this content.
pub open spec fn at_manifest(
    path: Seq<char>,
    hash: Seq<char>,
    manifest: Map<Seq<char>, String>,
) -> bool {
    manifest.contains_key(path) && manifest[path]@ == hash
}

/// Whether a manifest has a file with this content.
pub fn in_manifest(path: &str, hash: &str, manifest: &NameMap<String>) -> (r: bool)
    requires
        manifest.wf(),
    ensures
        r == at_manifest(path@, hash@, manifest@),
{
    match manifest.get(path) {
        Some(expected) => str_eq(expected.as_str(), hash),
        None => false,
    }
}

/// Check if a function exists at git commit using pre-generated manifest (fast)
pub fn function_exists_in_manifest(
    functions: &Vec<FunctionInfo>,
    manifest: &NameMap<String>,
) -> (r: bool)
    requires
        manifest.wf(),
    ensures
        r == exists|i: int|
            0 <= i < functions@.len() && at_manifest(
                (#[trigger] functions@[i]).file_path@,
                functions@[i].git_file_hash@,
                manifest@,
            ),
{
    let mut i: usize = 0;
    while i < functions.len()
        invariant
            i <= functions@.len(),
            manifest.wf(),
            forall|k: int|
                0 <= k < i ==> !at_manifest(
                    (#[trigger] functions@[k]).file_path@,
                    functions@[k].git_file_hash@,
                    manifest@,
                ),
        decreases functions@.len() - i,
    {
        if in_manifest(functions[i].file_path.as_str(), functions[i].git_file_hash.as_str(), manifest) {
            return true;
        }
        i += 1;
    }
    false
}

/// Whether a row counts: at a revision, where its file has that content there.
pub open spec fn counts(row: NameListRow, manifest: Option<Map<Seq<char>, String>>) -> bool {
    match manifest {
        Some(manifest) => at_manifest(row.file_path@, row.git_file_hash@, manifest),
        None => true,
    }
}

/// The manifest that rows are held against, if any.
pub open spec fn manifest_view(manifest: Option<&NameMap<String>>) -> Option<
    Map<Seq<char>, String>,
> {
    match manifest {
        Some(manifest) => Some(manifest@),
        None => None,
    }
}

fn row_counts(row: &NameListRow, manifest: Option<&NameMap<String>>) -> (r: bool)
    requires
        manifest is Some ==> manifest->0.wf(),
    ensures
        r == counts(*row, manifest_view(manifest)),
{
    match manifest {
        Some(manifest) => in_manifest(
            row.file_path.as_str(),
            row.git_file_hash.as_str(),
            manifest,
        ),
        None => true,
    }
}

/// The names of a row's list; none where it is not known or not a list.
pub open spec fn names_in(row: NameListRow) -> Seq<Seq<char>> {
    match row.list {
        Some(json) => match json_names(json@) {
            Ok(names) => names,
            Err(_) => Seq::empty(),
        },
        None => Seq::empty(),
    }
}

/// What is wrong with a row's list of calls, if anything is.
pub open spec fn complaint_of(row: NameListRow) -> Option<Seq<char>> {
    match row.list {
        Some(json) => match json_names(json@) {
            Ok(_) => None,
            Err(complaint) => Some(call_list_complaint(complaint, json@)),
        },
        None => None,
    }
}

/// What is wrong with the first of the rows that count whose list is no list.
pub open spec fn first_complaint(
    rows: Seq<NameListRow>,
    manifest: Option<Map<Seq<char>, String>>,
) -> Option<Seq<char>>
    decreases rows.len(),
{
    if rows.len() == 0 {
        None
    } else {
        let before = first_complaint(rows.drop_last(), manifest);
        if before is Some {
            before
        } else if counts(rows.last(), manifest) {
            complaint_of(rows.last())
        } else {
            None
        }
    }
}

/// There is something wrong just when a row that counts has a list that is none.
pub proof fn complaints_come_from_rows(
    rows: Seq<NameListRow>,
    manifest: Option<Map<Seq<char>, String>>,
)
    ensures
        first_complaint(rows, manifest) is Some <==> exists|i: int|
            0 <= i < rows.len() && counts(#[trigger] rows[i], manifest) && complaint_of(
                rows[i],
            ) is Some,
    decreases rows.len(),
{
    if rows.len() > 0 {
        let init = rows.drop_last();
        complaints_come_from_rows(init, manifest);
        if first_complaint(init, manifest) is Some {
            let i = choose|i: int|
                0 <= i < init.len() && counts(#[trigger] init[i], manifest) && complaint_of(
                    init[i],
                ) is Some;
            assert(rows[i] == init[i]);
        } else {
            assert forall|i: int| 0 <= i < rows.len() - 1 implies !(counts(
                #[trigger] rows[i],
                manifest,
            ) && complaint_of(rows[i]) is Some) by {
                assert(init[i] == rows[i]);
            }
            if counts(rows.last(), manifest) && complaint_of(rows.last()) is Some {
                assert(rows[rows.len() - 1] == rows.last());
            }
        }
    }
}

/// A row's list of calls, or what is wrong with it.
fn calls_in(row: &NameListRow) -> (r: Result<Vec<String>, String>)
    ensures
        match r {
            Ok(names) => texts(names@) == names_in(*row) && complaint_of(*row) is None,
            Err(message) => complaint_of(*row) == Some(message@),
        },
{
    match &row.list {
        Some(json) => parse_call_list(json.as_str()),
        None => {
            let none: Vec<String> = Vec::new();
            assert(texts(none@) =~= Seq::empty());
            Ok(none)
        },
    }
}

/// Whether a name is in a list.
pub fn has_text(names: &Vec<String>, name: &str) -> (r: bool)
    ensures
        r == texts(names@).contains(name@),
{
    let mut i: usize = 0;
    while i < names.len()
        invariant
            i <= names@.len(),
            forall|k: int| 0 <= k < i ==> #[trigger] names@[k]@ != name@,
        decreases names@.len() - i,
    {
        if str_eq(names[i].as_str(), name) {
            assert(texts(names@)[i as int] == name@);
            return true;
        }
        i += 1;
    }
    assert forall|k: int| 0 <= k < texts(names@).len() implies texts(names@)[k] != name@ by {
        assert(names@[k]@ != name@);
    }
    false
}

/// The names of the rows that count and whose list has a name, in order.
pub open spec fn naming(
    rows: Seq<NameListRow>,
    manifest: Option<Map<Seq<char>, String>>,
    name: Seq<char>,
) -> Seq<Seq<char>>
    decreases rows.len(),
{
    if rows.len() == 0 {
        Seq::empty()
    } else {
        let before = naming(rows.drop_last(), manifest, name);
        if counts(rows.last(), manifest) && names_in(rows.last()).contains(name) {
            before.push(rows.last().name@)
        } else {
            before
        }
    }
}

/// A name is among those that name another just when it is the name of a row
/// that counts and whose list has the other.
pub proof fn naming_comes_from_rows(
    rows: Seq<NameListRow>,
    manifest: Option<Map<Seq<char>, String>>,
    name: Seq<char>,
    caller: Seq<char>,
)
    ensures
        naming(rows, manifest, name).contains(caller) <==> exists|i: int|
            0 <= i < rows.len() && counts(#[trigger] rows[i], manifest) && names_in(
                rows[i],
            ).contains(name) && rows[i].name@ == caller,
    decreases rows.len(),
{
    if rows.len() > 0 {
        let init = rows.drop_last();
        let before = naming(init, manifest, name);
        let now = naming(rows, manifest, name);
        naming_comes_from_rows(init, manifest, name, caller);
        if now.contains(caller) {
            let k = choose|k: int| 0 <= k < now.len() && now[k] == caller;
            if k < before.len() {
                assert(before[k] == caller);
                let i = choose|i: int|
                    0 <= i < init.len() && counts(#[trigger] init[i], manifest) && names_in(
                        init[i],
                    ).contains(name) && init[i].name@ == caller;
                assert(rows[i] == init[i]);
            } else {
                assert(rows[rows.len() - 1].name@ == caller);
            }
        }
        if exists|i: int|
            0 <= i < rows.len() && counts(#[trigger] rows[i], manifest) && names_in(
                rows[i],
            ).contains(name) && rows[i].name@ == caller {
            let i = choose|i: int|
                0 <= i < rows.len() && counts(#[trigger] rows[i], manifest) && names_in(
                    rows[i],
                ).contains(name) && rows[i].name@ == caller;
            if i < init.len() {
                assert(init[i] == rows[i]);
                let k = choose|k: int| 0 <= k < before.len() && before[k] == caller;
                assert(now[k] == caller);
            } else {
                assert(now[now.len() - 1] == caller);
            }
        }
    }
}

fn names_naming(
    rows: &Vec<NameListRow>,
    manifest: Option<&NameMap<String>>,
    name: &str,
) -> (r: Result<Vec<String>, String>)
    requires
        manifest is Some ==> manifest->0.wf(),
    ensures
        match r {
            Ok(names) => first_complaint(rows@, manifest_view(manifest)) is None && texts(names@)
                == naming(rows@, manifest_view(manifest), name@),
            Err(message) => first_complaint(rows@, manifest_view(manifest)) == Some(message@),
        },
{
    let ghost against = manifest_view(manifest);
    let mut out: Vec<String> = Vec::new();
    let mut i: usize = 0;
    assert(rows@.take(0) =~= Seq::empty());
    assert(texts(out@) =~= Seq::empty());
    while i < rows.len()
        invariant
            i <= rows@.len(),
            manifest is Some ==> manifest->0.wf(),
            against == manifest_view(manifest),
            first_complaint(rows@.take(i as int), against) is None,
            texts(out@) == naming(rows@.take(i as int), against, name@),
        decreases rows@.len() - i,
    {
        proof {
            assert(rows@.take(i + 1).drop_last() =~= rows@.take(i as int));
            assert(rows@.take(i + 1).last() == rows@[i as int]);
        }
        if row_counts(&rows[i], manifest) {
            match calls_in(&rows[i]) {
                Ok(names) => {
                    if has_text(&names, name) {
                        let caller = rows[i].name.clone();
                        proof {
                            lemma_texts_push(out@, caller);
                        }
                        out.push(caller);
                    }
                },
                Err(message) => {
                    proof {
                        lemma_first_complaint_stays(rows@, against, i + 1);
                    }
                    return Err(message);
                },
            }
        }
        i += 1;
    }
    assert(rows@.take(i as int) =~= rows@);
    Ok(out)
}

proof fn lemma_first_complaint_stays(
    rows: Seq<NameListRow>,
    manifest: Option<Map<Seq<char>, String>>,
    i: int,
)
    requires
        0 <= i <= rows.len(),
        first_complaint(rows.take(i), manifest) is Some,
    ensures
        first_complaint(rows, manifest) == first_complaint(rows.take(i), manifest),
    decreases rows.len(),
{
    if i == rows.len() {
        assert(rows.take(i) =~= rows);
    } else {
        assert(rows.drop_last().take(i) =~= rows.take(i));
        lemma_first_complaint_stays(rows.drop_last(), manifest, i);
    }
}

/// The functions that call a function, each once; an error where a list of calls
/// cannot be read.
pub fn get_function_callers(rows: &Vec<NameListRow>, function_name: &str) -> (r: Result<
    Vec<String>,
    String,
>)
    ensures
        match r {
            Ok(names) => first_complaint(rows@, None) is None && texts(names@) == distinct(
                naming(rows@, None, function_name@),
            ),
            Err(message) => first_complaint(rows@, None) == Some(message@),
        },
{
    match names_naming(rows, None, function_name) {
        Ok(names) => Ok(distinct_names(names)),
        Err(message) => Err(message),
    }
}

/// Get function callers using pre-generated manifest (fast)
pub fn get_function_callers_with_manifest(
    rows: &Vec<NameListRow>,
    function_name: &str,
    manifest: &NameMap<String>,
) -> (r: Result<Vec<String>, String>)
    requires
        manifest.wf(),
    ensures
        match r {
            Ok(names) => first_complaint(rows@, Some(manifest@)) is None && texts(names@) == naming(
                rows@,
                Some(manifest@),
                function_name@,
            ),
            Err(message) => first_complaint(rows@, Some(manifest@)) == Some(message@),
        },
{
    names_naming(rows, Some(manifest), function_name)
}

/// Some names with those of another list that are not there yet.
pub open spec fn extended(names: Seq<Seq<char>>, more: Seq<Seq<char>>) -> Seq<Seq<char>>
    decreases more.len(),
{
    if more.len() == 0 {
        names
    } else {
        let before = extended(names, more.drop_last());
        if before.contains(more.last()) {
            before
        } else {
            before.push(more.last())
        }
    }
}

/// The callers of a function at a revision: those in the working tree first, and
/// then those of the index that are not among them.
pub fn get_function_callers_git_aware(
    overlay: &Vec<FunctionInfo>,
    stored: Vec<String>,
) -> (r: Vec<String>)
    ensures
        texts(r@) == extended(overlay@.map_values(|f: FunctionInfo| f.name@), texts(stored@)),
{
    let ghost names = overlay@.map_values(|f: FunctionInfo| f.name@);
    let mut out: Vec<String> = Vec::new();
    let mut i: usize = 0;
    assert(texts(out@) =~= names.take(0));
    while i < overlay.len()
        invariant
            i <= overlay@.len(),
            names == overlay@.map_values(|f: FunctionInfo| f.name@),
            texts(out@) == names.take(i as int),
        decreases overlay@.len() - i,
    {
        let name = overlay[i].name.clone();
        proof {
            lemma_texts_push(out@, name);
            assert(names.take(i + 1) =~= names.take(i as int).push(name@));
        }
        out.push(name);
        i += 1;
    }
    assert(names.take(i as int) =~= names);
    let ghost all = texts(stored@);
    assert(all.take(0) =~= Seq::empty());
    for name in it: stored
        invariant
            all == texts(it.seq()),
            texts(out@) == extended(names, all.take(it.index())),
    {
        proof {
            assert(all.take(it.index() + 1).drop_last() =~= all.take(it.index()));
            assert(all.take(it.index() + 1).last() == name@);
        }
        if !has_text(&out, name.as_str()) {
            proof {
                lemma_texts_push(out@, name);
            }
            out.push(name);
        }
    }
    assert(all.take(all.len() as int) =~= all);
    out
}

/// Every caller in the working tree and every stored one is an answer, and
/// nothing else is.
pub proof fn callers_come_from_both_sides(names: Seq<Seq<char>>, more: Seq<Seq<char>>)
    ensures
        forall|name: Seq<char>| #[trigger]
            extended(names, more).contains(name) <==> names.contains(name) || more.contains(name),
    decreases more.len(),
{
    if more.len() > 0 {
        let init = more.drop_last();
        callers_come_from_both_sides(names, init);
        let before = extended(names, init);
        let now = extended(names, more);
        assert forall|name: Seq<char>| #[trigger]
            now.contains(name) <==> names.contains(name) || more.contains(name) by {
            if now.contains(name) {
                let k = choose|k: int| 0 <= k < now.len() && now[k] == name;
                if k < before.len() {
                    assert(before[k] == name);
                    assert(before.contains(name));
                    if init.contains(name) {
                        let i = choose|i: int| 0 <= i < init.len() && init[i] == name;
                        assert(more[i] == name);
                    }
                } else {
                    assert(more[more.len() - 1] == name);
                }
            }
            if names.contains(name) || more.contains(name) {
                if more.contains(name) {
                    let i = choose|i: int| 0 <= i < more.len() && more[i] == name;
                    if i < init.len() {
                        assert(init[i] == name);
                        assert(before.contains(name));
                    } else if !before.contains(name) {
                        assert(now[now.len() - 1] == name);
                    }
                }
                if before.contains(name) {
                    let k = choose|k: int| 0 <= k < before.len() && before[k] == name;
                    assert(now[k] == name);
                }
            }
        }
    }
}

/// Whether a row is fuller than another: not in a header, and then longer.
pub open spec fn fuller(a: NameListRow, b: NameListRow) -> bool {
    let a_is_header = has_suffix(a.file_path@, ".h"@);
    let b_is_header = has_suffix(b.file_path@, ".h"@);
    if a_is_header != b_is_header {
        b_is_header
    } else {
        line_span(a.line_start, a.line_end) > line_span(b.line_start, b.line_end)
    }
}

fn is_fuller(a: &NameListRow, b: &NameListRow) -> (r: bool)
    ensures
        r == fuller(*a, *b),
{
    let a_is_header = ends_with(a.file_path.as_str(), ".h");
    let b_is_header = ends_with(b.file_path.as_str(), ".h");
    if a_is_header != b_is_header {
        return b_is_header;
    }
    span_of(a.line_start, a.line_end) > span_of(b.line_start, b.line_end)
}

/// The fullest of the rows that count; of several, the last.
pub open spec fn fullest(
    rows: Seq<NameListRow>,
    manifest: Option<Map<Seq<char>, String>>,
) -> Option<NameListRow>
    decreases rows.len(),
{
    if rows.len() == 0 {
        None
    } else {
        let before = fullest(rows.drop_last(), manifest);
        if !counts(rows.last(), manifest) {
            before
        } else if before is Some && fuller(before->0, rows.last()) {
            before
        } else {
            Some(rows.last())
        }
    }
}

/// The fullest row is one of those that count, and none of those is fuller.
pub proof fn the_fullest_row_is_full(
    rows: Seq<NameListRow>,
    manifest: Option<Map<Seq<char>, String>>,
)
    ensures
        match fullest(rows, manifest) {
            Some(best) => rows.contains(best) && counts(best, manifest) && forall|i: int|
                0 <= i < rows.len() && counts(#[trigger] rows[i], manifest) ==> !fuller(
                    rows[i],
                    best,
                ),
            None => forall|i: int| 0 <= i < rows.len() ==> !counts(#[trigger] rows[i], manifest),
        },
    decreases rows.len(),
{
    if rows.len() > 0 {
        let init = rows.drop_last();
        the_fullest_row_is_full(init, manifest);
        let before = fullest(init, manifest);
        let now = fullest(rows, manifest);
        if before is Some {
            let k = choose|k: int| 0 <= k < init.len() && init[k] == before->0;
            assert(rows[k] == before->0);
        }
        assert(rows[rows.len() - 1] == rows.last());
        match now {
            Some(best) => {
                assert forall|i: int|
                    0 <= i < rows.len() && counts(#[trigger] rows[i], manifest) implies !fuller(
                    rows[i],
                    best,
                ) by {
                    if i < init.len() {
                        assert(init[i] == rows[i]);
                    }
                }
            },
            None => {
                assert forall|i: int| 0 <= i < rows.len() implies !counts(
                    #[trigger] rows[i],
                    manifest,
                ) by {
                    if i < init.len() {
                        assert(init[i] == rows[i]);
                    }
                }
            },
        }
    }
}

/// The place of the fullest of the rows that count.
fn fullest_place(rows: &Vec<NameListRow>, manifest: &NameMap<String>) -> (r: Option<usize>)
    requires
        manifest.wf(),
    ensures
        match r {
            Some(i) => i < rows@.len() && fullest(rows@, Some(manifest@)) == Some(rows@[i as int]),
            None => fullest(rows@, Some(manifest@)) is None,
        },
{
    let mut best: Option<usize> = None;
    let mut i: usize = 0;
    assert(rows@.take(0) =~= Seq::empty());
    while i < rows.len()
        invariant
            i <= rows@.len(),
            manifest.wf(),
            match best {
                Some(k) => k < i && fullest(rows@.take(i as int), Some(manifest@)) == Some(
                    rows@[k as int],
                ),
                None => fullest(rows@.take(i as int), Some(manifest@)) is None,
            },
        decreases rows@.len() - i,
    {
        proof {
            assert(rows@.take(i + 1).drop_last() =~= rows@.take(i as int));
            assert(rows@.take(i + 1).last() == rows@[i as int]);
        }
        if row_counts(&rows[i], Some(manifest)) {
            best = match best {
                Some(k) => if is_fuller(&rows[k], &rows[i]) {
                    Some(k)
                } else {
                    Some(i)
                },
                None => Some(i),
            };
        }
        i += 1;
    }
    assert(rows@.take(i as int) =~= rows@);
    best
}

/// The names of the fullest row that counts; none where no row does.
pub open spec fn names_at(rows: Seq<NameListRow>, manifest: Map<Seq<char>, String>) -> Seq<
    Seq<char>,
> {
    match fullest(rows, Some(manifest)) {
        Some(best) => names_in(best),
        None => Seq::empty(),
    }
}

/// Get just the types field for a function using pre-generated manifest (very fast - no body fetching)
pub fn get_function_types_with_manifest(
    rows: &Vec<NameListRow>,
    manifest: &NameMap<String>,
) -> (r: Vec<String>)
    requires
        manifest.wf(),
    ensures
        texts(r@) == names_at(rows@, manifest@),
{
    if let Some(i) = fullest_place(rows, manifest) {
        if let Some(json) = &rows[i].list {
            if let Some(names) = parse_type_list(json.as_str()) {
                return names;
            }
        }
    }
    let none: Vec<String> = Vec::new();
    assert(texts(none@) =~= Seq::empty());
    none
}

/// Get function callees using pre-generated manifest (fast)
pub fn get_function_callees_with_manifest(
    rows: &Vec<NameListRow>,
    manifest: &NameMap<String>,
) -> (r: Result<Vec<String>, String>)
    requires
        manifest.wf(),
    ensures
        match r {
            Ok(names) => first_complaint(rows@, Some(manifest@)) is None && texts(names@)
                == names_at(rows@, manifest@),
            Err(message) => first_complaint(rows@, Some(manifest@)) == Some(message@),
        },
{
    match names_naming(rows, Some(manifest), "") {
        Err(message) => {
            return Err(message);
        },
        Ok(_) => {},
    }
    if let Some(i) = fullest_place(rows, manifest) {
        proof {
            the_fullest_row_is_full(rows@, Some(manifest@));
            complaints_come_from_rows(rows@, Some(manifest@));
        }
        return calls_in(&rows[i]);
    }
    let none: Vec<String> = Vec::new();
    assert(texts(none@) =~= Seq::empty());
    Ok(none)
}

/// One function calling another.
#[derive(Debug, Clone)]
pub struct CallRelationship {
    pub caller: String,
    pub callee: String,
    pub caller_git_file_hash: String,
    /// Not known: it would take a lookup for every callee.
    pub callee_git_file_hash: Option<String>,
}

/// One function calling another: the caller, the callee, and the content of the
/// file the caller is in.
pub open spec fn relation_of(r: CallRelationship) -> (Seq<char>, Seq<char>, Seq<char>) {
    (r.caller@, r.callee@, r.caller_git_file_hash@)
}

/// The calls that a list of rows makes, row by row and in the order of each list.
pub open spec fn relations(rows: Seq<NameListRow>) -> Seq<(Seq<char>, Seq<char>, Seq<char>)>
    decreases rows.len(),
{
    if rows.len() == 0 {
        Seq::empty()
    } else {
        let row = rows.last();
        relations(rows.drop_last()) + names_in(row).map_values(
            |callee: Seq<char>| (row.name@, callee, row.git_file_hash@),
        )
    }
}

/// Every call that is stored; an error where a list of calls cannot be read.
pub fn get_all_call_relationships(rows: &Vec<NameListRow>) -> (r: Result<
    Vec<CallRelationship>,
    String,
>)
    ensures
        match r {
            Ok(all) => first_complaint(rows@, None) is None && all@.map_values(
                |c: CallRelationship| relation_of(c),
            ) == relations(rows@) && forall|k: int|
                0 <= k < all@.len() ==> (#[trigger] all@[k]).callee_git_file_hash is None,
            Err(message) => first_complaint(rows@, None) == Some(message@),
        },
{
    let ghost view = |c: CallRelationship| relation_of(c);
    let mut out: Vec<CallRelationship> = Vec::new();
    let mut i: usize = 0;
    assert(rows@.take(0) =~= Seq::empty());
    assert(out@.map_values(view) =~= Seq::empty());
    while i < rows.len()
        invariant
            i <= rows@.len(),
            view == (|c: CallRelationship| relation_of(c)),
            first_complaint(rows@.take(i as int), None) is None,
            out@.map_values(view) == relations(rows@.take(i as int)),
            forall|k: int|
                0 <= k < out@.len() ==> (#[trigger] out@[k]).callee_git_file_hash is None,
        decreases rows@.len() - i,
    {
        let ghost row = rows@[i as int];
        let ghost before = relations(rows@.take(i as int));
        let ghost pair = |callee: Seq<char>| (row.name@, callee, row.git_file_hash@);
        proof {
            assert(rows@.take(i + 1).drop_last() =~= rows@.take(i as int));
            assert(rows@.take(i + 1).last() == row);
        }
        match calls_in(&rows[i]) {
            Ok(names) => {
                let ghost callees = texts(names@);
                assert(before + callees.take(0).map_values(pair) =~= before);
                for callee in it: names
                    invariant
                        i < rows@.len(),
                        row == rows@[i as int],
                        view == (|c: CallRelationship| relation_of(c)),
                        pair == (|callee: Seq<char>| (row.name@, callee, row.git_file_hash@)),
                        callees == texts(it.seq()),
                        out@.map_values(view) == before + callees.take(it.index()).map_values(pair),
                        forall|k: int|
                            0 <= k < out@.len() ==> (#[trigger] out@[k]).callee_git_file_hash is None,
                {
                    let ghost at = it.index();
                    let ghost name = callee@;
                    let relation = CallRelationship {
                        caller: rows[i].name.clone(),
                        callee,
                        caller_git_file_hash: rows[i].git_file_hash.clone(),
                        callee_git_file_hash: None,
                    };
                    proof {
                        assert(callees.take(at + 1).map_values(pair) =~= callees.take(
                            at,
                        ).map_values(pair).push(pair(name)));
                        assert(out@.push(relation).map_values(view) =~= out@.map_values(view).push(
                            view(relation),
                        ));
                    }
                    out.push(relation);
                }
                assert(callees.take(callees.len() as int) =~= callees);
            },
            Err(message) => {
                proof {
                    lemma_first_complaint_stays(rows@, None, i + 1);
                }
                return Err(message);
            },
        }
        i += 1;
    }
    assert(rows@.take(i as int) =~= rows@);
    Ok(out)
}

/// The names of the rows that call something, in order.
pub open spec fn calling_names(rows: Seq<NameListRow>) -> Seq<Seq<char>>
    decreases rows.len(),
{
    if rows.len() == 0 {
        Seq::empty()
    } else {
        let before = calling_names(rows.drop_last());
        if names_in(rows.last()).len() > 0 {
            before.push(rows.last().name@)
        } else {
            before
        }
    }
}

/// Whether some row calls a name.
pub open spec fn is_called(rows: Seq<NameListRow>, name: Seq<char>) -> bool {
    exists|i: int| 0 <= i < rows.len() && names_in(#[trigger] rows[i]).contains(name)
}

/// Get functions that have no callers (entry points)
pub fn get_entry_point_functions(rows: &Vec<NameListRow>) -> (r: Result<Vec<String>, String>)
    ensures
        match r {
            Ok(names) => first_complaint(rows@, None) is None && texts(names@) == distinct(
                calling_names(rows@),
            ).filter(|name: Seq<char>| !is_called(rows@, name)),
            Err(message) => first_complaint(rows@, None) == Some(message@),
        },
{
    let mut calling: Vec<String> = Vec::new();
    let mut called = NameSet::new();
    let mut i: usize = 0;
    assert(rows@.take(0) =~= Seq::empty());
    assert(texts(calling@) =~= Seq::empty());
    while i < rows.len()
        invariant
            i <= rows@.len(),
            called.wf(),
            first_complaint(rows@.take(i as int), None) is None,
            texts(calling@) == calling_names(rows@.take(i as int)),
            forall|name: Seq<char>| #[trigger]
                called@.contains(name) <==> is_called(rows@.take(i as int), name),
        decreases rows@.len() - i,
    {
        let ghost now = rows@.take(i + 1);
        let ghost before = rows@.take(i as int);
        proof {
            assert(now.drop_last() =~= before);
            assert(now.last() == rows@[i as int]);
        }
        match calls_in(&rows[i]) {
            Ok(names) => {
                if names.len() > 0 {
                    let caller = rows[i].name.clone();
                    proof {
                        lemma_texts_push(calling@, caller);
                    }
                    calling.push(caller);
                }
                let ghost known = called@;
                let mut j: usize = 0;
                while j < names.len()
                    invariant
                        j <= names@.len(),
                        called.wf(),
                        forall|name: Seq<char>| #[trigger]
                            called@.contains(name) <==> known.contains(name) || texts(
                                names@,
                            ).take(j as int).contains(name),
                    decreases names@.len() - j,
                {
                    let ghost had = called@;
                    let ghost list = texts(names@);
                    called.insert(names[j].as_str());
                    proof {
                        assert(list.take(j + 1) =~= list.take(j as int).push(list[j as int]));
                        assert forall|name: Seq<char>| #[trigger]
                            called@.contains(name) <==> known.contains(name) || list.take(
                                j + 1,
                            ).contains(name) by {
                            assert(had.contains(name) <==> known.contains(name) || list.take(
                                j as int,
                            ).contains(name));
                            lemma_contains_push(list.take(j as int), list[j as int], name);
                        }
                    }
                    j += 1;
                }
                proof {
                    assert(texts(names@).take(j as int) =~= texts(names@));
                    assert forall|name: Seq<char>| #[trigger]
                        called@.contains(name) <==> is_called(now, name) by {
                        if is_called(before, name) {
                            let k = choose|k: int|
                                0 <= k < before.len() && names_in(#[trigger] before[k]).contains(
                                    name,
                                );
                            assert(now[k] == before[k]);
                        }
                        if is_called(now, name) {
                            let k = choose|k: int|
                                0 <= k < now.len() && names_in(#[trigger] now[k]).contains(name);
                            if k < before.len() {
                                assert(before[k] == now[k]);
                            }
                        }
                        assert(now[i as int] == rows@[i as int]);
                        assert(known.contains(name) <==> is_called(before, name));
                    }
                }
            },
            Err(message) => {
                proof {
                    lemma_first_complaint_stays(rows@, None, i + 1);
                }
                return Err(message);
            },
        }
        i += 1;
    }
    assert(rows@.take(i as int) =~= rows@);
    let names = distinct_names(calling);
    let ghost list = texts(names@);
    let ghost wanted = |name: Seq<char>| !is_called(rows@, name);
    let mut out: Vec<String> = Vec::new();
    proof {
        reveal(Seq::filter);
        assert(list.take(0) =~= Seq::empty());
        assert(texts(out@) =~= Seq::empty());
    }
    for name in it: names
        invariant
            list == texts(it.seq()),
            called.wf(),
            wanted == (|name: Seq<char>| !is_called(rows@, name)),
            forall|name: Seq<char>| #[trigger]
                called@.contains(name) <==> is_called(rows@, name),
            texts(out@) == list.take(it.index()).filter(wanted),
    {
        proof {
            reveal(Seq::filter);
            assert(list.take(it.index() + 1).drop_last() =~= list.take(it.index()));
            assert(list.take(it.index() + 1).last() == name@);
        }
        if !called.contains(name.as_str()) {
            proof {
                lemma_texts_push(out@, name);
            }
            out.push(name);
        }
    }
    assert(list.take(list.len() as int) =~= list);
    Ok(out)
}

/// The callers of a name: each row that counts, once for every time its list has
/// the name.
pub open spec fn callers_of(
    rows: Seq<NameListRow>,
    manifest: Map<Seq<char>, String>,
    callee: Seq<char>,
) -> Seq<Seq<char>>
    decreases rows.len(),
{
    if rows.len() == 0 {
        Seq::empty()
    } else {
        let before = callers_of(rows.drop_last(), manifest, callee);
        if counts(rows.last(), Some(manifest)) {
            before + repeated(rows.last().name@, occurrences(names_in(rows.last()), callee))
        } else {
            before
        }
    }
}

/// A text so many times.
pub open spec fn repeated(text: Seq<char>, times: nat) -> Seq<Seq<char>> {
    Seq::new(times, |i: int| text)
}

/// Whether an index has under each name its callers, and no name without any.
pub open spec fn indexes_callers(
    index: Map<Seq<char>, Vec<String>>,
    rows: Seq<NameListRow>,
    manifest: Map<Seq<char>, String>,
) -> bool {
    forall|callee: Seq<char>|
        {
            &&& #[trigger] index.contains_key(callee) <==> callers_of(rows, manifest, callee).len()
                > 0
            &&& index.contains_key(callee) ==> texts(index[callee]@) == callers_of(
                rows,
                manifest,
                callee,
            )
        }
}

spec fn indexed_so_far(
    index: Map<Seq<char>, Vec<String>>,
    rows: Seq<NameListRow>,
    manifest: Map<Seq<char>, String>,
    caller: Seq<char>,
    names: Seq<Seq<char>>,
) -> bool {
    forall|callee: Seq<char>|
        {
            let callers = callers_of(rows, manifest, callee) + repeated(
                caller,
                occurrences(names, callee),
            );
            &&& #[trigger] index.contains_key(callee) <==> callers.len() > 0
            &&& index.contains_key(callee) ==> texts(index[callee]@) == callers
        }
}

/// Build a complete caller index from the database in ONE scan.
/// Returns the callers under each callee, filtered by git manifest.
pub fn build_caller_index_with_manifest(
    rows: &Vec<NameListRow>,
    manifest: &NameMap<String>,
) -> (r: Result<NameMap<Vec<String>>, String>)
    requires
        manifest.wf(),
    ensures
        match r {
            Ok(index) => first_complaint(rows@, Some(manifest@)) is None && index.wf()
                && indexes_callers(index@, rows@, manifest@),
            Err(message) => first_complaint(rows@, Some(manifest@)) == Some(message@),
        },
{
    let mut index: NameMap<Vec<String>> = NameMap::new();
    let mut i: usize = 0;
    assert(rows@.take(0) =~= Seq::empty());
    while i < rows.len()
        invariant
            i <= rows@.len(),
            manifest.wf(),
            index.wf(),
            first_complaint(rows@.take(i as int), Some(manifest@)) is None,
            indexes_callers(index@, rows@.take(i as int), manifest@),
        decreases rows@.len() - i,
    {
        let ghost before = rows@.take(i as int);
        let ghost now = rows@.take(i + 1);
        let ghost caller = rows@[i as int].name@;
        proof {
            assert(now.drop_last() =~= before);
            assert(now.last() == rows@[i as int]);
        }
        if row_counts(&rows[i], Some(manifest)) {
            match calls_in(&rows[i]) {
                Ok(names) => {
                    let ghost list = texts(names@);
                    assert(indexed_so_far(index@, before, manifest@, caller, list.take(0))) by {
                        assert forall|callee: Seq<char>| true implies callers_of(
                            before,
                            manifest@,
                            callee,
                        ) + repeated(caller, #[trigger] occurrences(list.take(0), callee))
                            =~= callers_of(before, manifest@, callee) by {}
                    }
                    let mut j: usize = 0;
                    while j < names.len()
                        invariant
                            i < rows@.len(),
                            j <= names@.len(),
                            index.wf(),
                            caller == rows@[i as int].name@,
                            list == texts(names@),
                            indexed_so_far(index@, before, manifest@, caller, list.take(j as int)),
                        decreases names@.len() - j,
                    {
                        let ghost had = index@;
                        let ghost callee = list[j as int];
                        let name = rows[i].name.clone();
                        push_under(&mut index, names[j].as_str(), name);
                        proof {
                            let some = list.take(j as int);
                            let more = list.take(j + 1);
                            assert(more.drop_last() =~= some);
                            assert(more.last() == callee);
                            assert forall|other: Seq<char>|
                                {
                                    let callers = callers_of(before, manifest@, other) + repeated(
                                        caller,
                                        occurrences(more, other),
                                    );
                                    &&& #[trigger] index@.contains_key(other) <==> callers.len() > 0
                                    &&& index@.contains_key(other) ==> texts(index@[other]@)
                                        == callers
                                } by {
                                let known = callers_of(before, manifest@, other) + repeated(
                                    caller,
                                    occurrences(some, other),
                                );
                                assert(had.contains_key(other) <==> known.len() > 0);
                                if other == callee {
                                    assert(callers_of(before, manifest@, other) + repeated(
                                        caller,
                                        occurrences(more, other),
                                    ) =~= known.push(caller));
                                    if had.contains_key(other) {
                                        lemma_texts_push(had[other]@, name);
                                    } else {
                                        assert(known =~= Seq::empty());
                                        assert(texts(index@[other]@) =~= seq![caller]);
                                    }
                                } else {
                                    assert(occurrences(more, other) == occurrences(some, other));
                                    assert(index@.contains_key(other) <==> had.contains_key(other));
                                }
                            }
                        }
                        j += 1;
                    }
                    assert(list.take(j as int) =~= list);
                    assert(indexes_callers(index@, now, manifest@)) by {
                        assert forall|callee: Seq<char>|
                            {
                                &&& #[trigger] index@.contains_key(callee) <==> callers_of(
                                    now,
                                    manifest@,
                                    callee,
                                ).len() > 0
                                &&& index@.contains_key(callee) ==> texts(index@[callee]@)
                                    == callers_of(now, manifest@, callee)
                            } by {
                            assert(callers_of(now, manifest@, callee) == callers_of(
                                before,
                                manifest@,
                                callee,
                            ) + repeated(caller, occurrences(list, callee)));
                        }
                    }
                },
                Err(message) => {
                    proof {
                        lemma_first_complaint_stays(rows@, Some(manifest@), i + 1);
                    }
                    return Err(message);
                },
            }
        } else {
            assert(indexes_callers(index@, now, manifest@)) by {
                assert forall|callee: Seq<char>|
                    {
                        &&& #[trigger] index@.contains_key(callee) <==> callers_of(
                            now,
                            manifest@,
                            callee,
                        ).len() > 0
                        &&& index@.contains_key(callee) ==> texts(index@[callee]@) == callers_of(
                            now,
                            manifest@,
                            callee,
                        )
                    } by {
                    assert(callers_of(now, manifest@, callee) == callers_of(
                        before,
                        manifest@,
                        callee,
                    ));
                }
            }
        }
        i += 1;
    }
    assert(rows@.take(i as int) =~= rows@);
    Ok(index)
}

/// The first definition of each of some names that is in a manifest, in the order
/// of the names.
pub open spec fn callers_at(
    names: Seq<Seq<char>>,
    functions: Map<Seq<char>, Vec<FunctionInfo>>,
    manifest: Option<Map<Seq<char>, String>>,
) -> Seq<FunctionInfo>
    decreases names.len(),
{
    if names.len() == 0 {
        Seq::empty()
    } else {
        let before = callers_at(names.drop_last(), functions, manifest);
        let name = names.last();
        if functions.contains_key(name) && functions[name]@.len() > 0 && (manifest is Some ==> at_manifest(
            functions[name]@[0].file_path@,
            functions[name]@[0].git_file_hash@,
            manifest->0,
        )) {
            before.push(functions[name]@[0])
        } else {
            before
        }
    }
}

/// The definitions a list of references points to.
pub open spec fn pointed_to(list: Seq<&FunctionInfo>) -> Seq<FunctionInfo> {
    Seq::new(list.len(), |i: int| *list[i])
}

/// The callers of a function: the first definition of each name, where the
/// manifest, if there is one, has it.
pub fn find_callers_efficient<'a>(
    names: &Vec<String>,
    functions: &'a NameMap<Vec<FunctionInfo>>,
    manifest: Option<&NameMap<String>>,
) -> (r: Vec<&'a FunctionInfo>)
    requires
        functions.wf(),
        manifest is Some ==> manifest->0.wf(),
    ensures
        pointed_to(r@) == callers_at(texts(names@), functions@, manifest_view(manifest)),
{
    let ghost list = texts(names@);
    let ghost against = manifest_view(manifest);
    let mut out: Vec<&'a FunctionInfo> = Vec::new();
    let mut i: usize = 0;
    assert(list.take(0) =~= Seq::empty());
    assert(pointed_to(out@) =~= Seq::empty());
    while i < names.len()
        invariant
            i <= names@.len(),
            list == texts(names@),
            against == manifest_view(manifest),
            functions.wf(),
            manifest is Some ==> manifest->0.wf(),
            pointed_to(out@) == callers_at(list.take(i as int), functions@, against),
        decreases names@.len() - i,
    {
        proof {
            assert(list.take(i + 1).drop_last() =~= list.take(i as int));
            assert(list.take(i + 1).last() == names@[i as int]@);
        }
        if let Some(found) = functions.get(names[i].as_str()) {
            if found.len() > 0 {
                let first: &'a FunctionInfo = &found[0];
                let wanted = match manifest {
                    Some(manifest) => in_manifest(
                        first.file_path.as_str(),
                        first.git_file_hash.as_str(),
                        manifest,
                    ),
                    None => true,
                };
                if wanted {
                    assert(pointed_to(out@.push(first)) =~= pointed_to(out@).push(*first));
                    out.push(first);
                }
            }
        }
        i += 1;
    }
    assert(list.take(i as int) =~= list);
    out
}

/// Every caller that is answered has a name that was asked for, and stands in the
/// manifest with the content it has there.
pub proof fn callers_stand_in_the_manifest(
    names: Seq<Seq<char>>,
    functions: Map<Seq<char>, Vec<FunctionInfo>>,
    manifest: Map<Seq<char>, String>,
)
    ensures
        forall|k: int|
            0 <= k < callers_at(names, functions, Some(manifest)).len() ==> at_manifest(
                (#[trigger] callers_at(names, functions, Some(manifest))[k]).file_path@,
                callers_at(names, functions, Some(manifest))[k].git_file_hash@,
                manifest,
            ),
    decreases names.len(),
{
    if names.len() > 0 {
        callers_stand_in_the_manifest(names.drop_last(), functions, manifest);
        let before = callers_at(names.drop_last(), functions, Some(manifest));
        let now = callers_at(names, functions, Some(manifest));
        assert forall|k: int| 0 <= k < now.len() implies at_manifest(
            (#[trigger] now[k]).file_path@,
            now[k].git_file_hash@,
            manifest,
        ) by {
            if k < before.len() {
                assert(now[k] == before[k]);
            }
        }
    }
}

/// Selects the functions whose list of calls has a name as one of its elements.
pub fn callers_filter(function_name: &str) -> (r: String)
    ensures
        r@ == "calls IS NOT NULL AND (calls LIKE '%\""@ + escaped(function_name@)
            + "\",%' OR calls LIKE '%\""@ + escaped(function_name@) + "\"]%')"@,
{
    let name = escape(function_name);
    let mut out = String::from_str("calls IS NOT NULL AND (calls LIKE '%\"");
    out.append(name.as_str());
    out.append("\",%' OR calls LIKE '%\"");
    out.append(name.as_str());
    out.append("\"]%')");
    out
}

/// Selects the functions whose list of calls has a name in quotes.
pub fn callers_with_manifest_filter(function_name: &str) -> (r: String)
    ensures
        r@ == "calls IS NOT NULL AND calls LIKE '%\\\""@ + escaped(function_name@)
            + "\\\"%%'"@,
{
    let mut out = String::from_str("calls IS NOT NULL AND calls LIKE '%\\\"");
    out.append(escape(function_name).as_str());
    out.append("\\\"%%'");
    out
}

} // verus!
