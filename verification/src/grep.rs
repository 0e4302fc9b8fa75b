//! Searching the bodies of functions.
use vstd::prelude::*;
use crate::call_rows::{at_manifest, in_manifest};
use crate::chunks::{chunk_texts, chunked, texts_of};
use crate::keyed::{keep_rows, kept_is_a_filter};
use crate::names::{distinct, distinct_names, NameMap, NameSet};
use crate::overlay::{merge_overlay, overlaid};
use crate::patterns::{find_complaint, is_found, pattern_complaint, pattern_found};
use crate::sql::{escape, escaped};
use crate::text::{join, joined, lemma_texts_push, texts};
use crate::types::FunctionInfo;

verus! {

/// Selects the contents in which a regular expression is found. Only quotes are
/// escaped: a backslash belongs to the expression.
pub fn content_pattern_filter(pattern: &str) -> (r: String)
    ensures
        r@ == "regexp_like(content, '"@ + escaped(pattern@) + "')"@,
{
    let mut out = String::from_str("regexp_like(content, '");
    out.append(escape(pattern).as_str());
    out.append("')");
    out
}

/// The number of hashes up to which one query asks for all of them, on a machine
/// with so many cores.
pub open spec fn one_query_limit(cores: usize) -> nat {
    if cores >= 8 {
        1000
    } else {
        2000
    }
}

/// The number of hashes that each of several queries asks for.
pub const HASHES_PER_QUERY: usize = 500;

/// The lists of hashes that are asked for, query by query.
pub open spec fn hash_queries(hashes: Seq<Seq<char>>, cores: usize) -> Seq<Seq<Seq<char>>> {
    if hashes.len() <= one_query_limit(cores) {
        seq![hashes]
    } else {
        chunked(hashes, HASHES_PER_QUERY as nat)
    }
}

/// Selects the functions whose body is one of some contents.
pub open spec fn body_filter(hashes: Seq<Seq<char>>) -> Seq<char> {
    "body_hash IN ("@ + joined(hashes.map_values(|h: Seq<char>| "'"@ + h + "'"@), ", "@) + ")"@
}

/// Selects the functions whose body is one of some contents.
pub fn body_hash_filter(hashes: &Vec<String>) -> (r: String)
    ensures
        r@ == body_filter(texts(hashes@)),
{
    let ghost all = texts(hashes@);
    let ghost in_quotes = |h: Seq<char>| "'"@ + h + "'"@;
    let mut list: Vec<String> = Vec::new();
    let mut i: usize = 0;
    assert(texts(list@) =~= all.take(0).map_values(in_quotes));
    while i < hashes.len()
        invariant
            i <= hashes@.len(),
            all == texts(hashes@),
            in_quotes == (|h: Seq<char>| "'"@ + h + "'"@),
            texts(list@) == all.take(i as int).map_values(in_quotes),
        decreases hashes@.len() - i,
    {
        let mut one = String::from_str("'");
        one.append(hashes[i].as_str());
        one.append("'");
        proof {
            lemma_texts_push(list@, one);
            assert(all.take(i + 1).map_values(in_quotes) =~= all.take(i as int).map_values(
                in_quotes,
            ).push(in_quotes(all[i as int])));
        }
        list.push(one);
        i += 1;
    }
    assert(all.take(i as int) =~= all);
    let mut out = String::from_str("body_hash IN (");
    out.append(join(&list, ", ").as_str());
    out.append(")");
    out
}

/// The filters of the queries that ask for the functions with some bodies: one
/// query for a moderate number, and several for more.
pub fn body_hash_filters(hashes: &Vec<String>, cores: usize) -> (r: Vec<String>)
    ensures
        texts(r@) == hash_queries(texts(hashes@), cores).map_values(
            |list: Seq<Seq<char>>| body_filter(list),
        ),
{
    let ghost as_filter = |list: Seq<Seq<char>>| body_filter(list);
    let limit: usize = if cores >= 8 {
        1000
    } else {
        2000
    };
    let mut out: Vec<String> = Vec::new();
    if hashes.len() <= limit {
        out.push(body_hash_filter(hashes));
        assert(texts(out@) =~= seq![texts(hashes@)].map_values(as_filter));
        return out;
    }
    let chunks = chunk_texts(hashes.as_slice(), HASHES_PER_QUERY);
    let ghost lists = texts_of(chunks@);
    let mut i: usize = 0;
    assert(texts(out@) =~= lists.take(0).map_values(as_filter));
    while i < chunks.len()
        invariant
            i <= chunks@.len(),
            lists == texts_of(chunks@),
            as_filter == (|list: Seq<Seq<char>>| body_filter(list)),
            texts(out@) == lists.take(i as int).map_values(as_filter),
        decreases chunks@.len() - i,
    {
        let filter = body_hash_filter(&chunks[i]);
        proof {
            lemma_texts_push(out@, filter);
            assert(lists.take(i + 1).map_values(as_filter) =~= lists.take(i as int).map_values(
                as_filter,
            ).push(as_filter(lists[i as int])));
        }
        out.push(filter);
        i += 1;
    }
    assert(lists.take(i as int) =~= lists);
    out
}

/// The first rows of a list, as many as a limit allows; a limit of 0 allows any
/// number.
pub open spec fn limited<T>(rows: Seq<T>, limit: usize) -> Seq<T> {
    if limit > 0 && rows.len() > limit {
        rows.take(limit as int)
    } else {
        rows
    }
}

/// Whether a limit leaves rows out.
pub open spec fn limits<T>(rows: Seq<T>, limit: usize) -> bool {
    limit > 0 && rows.len() > limit
}

/// Keeps as many rows as a limit allows; says whether any were left out.
pub fn limit_rows<T>(rows: Vec<T>, limit: usize) -> (r: (Vec<T>, bool))
    ensures
        r.0@ == limited(rows@, limit),
        r.1 == limits(rows@, limit),
{
    let mut rows = rows;
    if limit > 0 && rows.len() > limit {
        rows.truncate(limit);
        (rows, true)
    } else {
        (rows, false)
    }
}

/// The functions whose path a pattern is found in, or all without a pattern.
pub open spec fn on_path(functions: Seq<FunctionInfo>, pattern: Option<Seq<char>>) -> Seq<
    FunctionInfo,
> {
    match pattern {
        Some(pattern) => functions.filter(
            |f: FunctionInfo| pattern_found(pattern, f.file_path@),
        ),
        None => functions,
    }
}

/// The complaint about a path pattern.
pub open spec fn path_complaint(pattern: Seq<char>, complaint: Seq<char>) -> Seq<char> {
    "Invalid path regex '"@ + pattern + "': "@ + complaint
}

/// The text of a pattern that may not be given.
pub open spec fn given_pattern(pattern: Option<&str>) -> Option<Seq<char>> {
    match pattern {
        Some(pattern) => Some(pattern@),
        None => None,
    }
}

/// Keeps the functions found by their bodies that a path pattern and a limit
/// allow, and says whether the limit left any out. The limit applies to what the
/// pattern leaves. Where no content matched there is nothing to do, whatever the
/// pattern.
pub fn grep_function_bodies(
    matching_hashes: &Vec<String>,
    functions: Vec<FunctionInfo>,
    path_pattern: Option<&str>,
    limit: usize,
) -> (r: Result<(Vec<FunctionInfo>, bool), String>)
    ensures
        match r {
            Ok((found, limit_hit)) => if matching_hashes@.len() == 0 {
                found@.len() == 0 && !limit_hit
            } else {
                (path_pattern is Some ==> pattern_complaint(path_pattern->0@) is None) && found@
                    == limited(on_path(functions@, given_pattern(path_pattern)), limit) && limit_hit
                    == limits(on_path(functions@, given_pattern(path_pattern)), limit)
            },
            Err(message) => matching_hashes@.len() > 0 && path_pattern is Some && (
            pattern_complaint(path_pattern->0@) matches Some(complaint) && message@
                == path_complaint(path_pattern->0@, complaint)),
        },
{
    if matching_hashes.len() == 0 {
        return Ok((Vec::new(), false));
    }
    let pattern = match path_pattern {
        Some(pattern) => pattern,
        None => {
            return Ok(limit_rows(functions, limit));
        },
    };
    if let Some(complaint) = find_complaint(pattern) {
        let mut message = String::from_str("Invalid path regex '");
        message.append(pattern);
        message.append("': ");
        message.append(complaint.as_str());
        return Err(message);
    }
    let ghost wanted = |f: FunctionInfo| pattern_found(pattern@, f.file_path@);
    let mut flags: Vec<bool> = Vec::new();
    let mut i: usize = 0;
    while i < functions.len()
        invariant
            i <= functions@.len(),
            flags@.len() == i,
            wanted == (|f: FunctionInfo| pattern_found(pattern@, f.file_path@)),
            forall|k: int| 0 <= k < i ==> #[trigger] flags@[k] == wanted(functions@[k]),
        decreases functions@.len() - i,
    {
        flags.push(is_found(pattern, functions[i].file_path.as_str()));
        i += 1;
    }
    proof {
        kept_is_a_filter(functions@, flags@, wanted);
    }
    Ok(limit_rows(keep_rows(functions, &flags), limit))
}

/// The files that some functions stand in, each once.
pub fn files_to_resolve(functions: &Vec<FunctionInfo>) -> (r: Vec<String>)
    ensures
        texts(r@) == distinct(functions@.map_values(|f: FunctionInfo| f.file_path@)),
{
    let ghost paths = functions@.map_values(|f: FunctionInfo| f.file_path@);
    let mut list: Vec<String> = Vec::new();
    let mut i: usize = 0;
    assert(texts(list@) =~= paths.take(0));
    while i < functions.len()
        invariant
            i <= functions@.len(),
            paths == functions@.map_values(|f: FunctionInfo| f.file_path@),
            texts(list@) == paths.take(i as int),
        decreases functions@.len() - i,
    {
        let path = functions[i].file_path.clone();
        proof {
            lemma_texts_push(list@, path);
            assert(paths.take(i + 1) =~= paths.take(i as int).push(path@));
        }
        list.push(path);
        i += 1;
    }
    assert(paths.take(i as int) =~= paths);
    distinct_names(list)
}

/// The functions that stand at a revision.
pub open spec fn standing(functions: Seq<FunctionInfo>, manifest: Map<Seq<char>, String>) -> Seq<
    FunctionInfo,
> {
    functions.filter(|f: FunctionInfo| at_manifest(f.file_path@, f.git_file_hash@, manifest))
}

/// What a search at a revision finds: the matches of the working tree, and then
/// the stored ones that stand at the revision, as many as the limit allows of
/// each and of both together.
pub open spec fn found_at(
    overlay: Seq<FunctionInfo>,
    stored: Seq<FunctionInfo>,
    manifest: Map<Seq<char>, String>,
    deleted: Set<Seq<char>>,
    limit: usize,
) -> (Seq<FunctionInfo>, bool) {
    let here = standing(stored, manifest);
    let all = overlaid(overlay, limited(here, limit), deleted);
    (limited(all, limit), limits(here, limit) || limits(all, limit))
}

/// Merges a search of the working tree with a search of what is stored, at a
/// revision whose manifest has the files of the stored matches that are there.
pub fn grep_function_bodies_git_aware(
    overlay: Vec<FunctionInfo>,
    stored: Vec<FunctionInfo>,
    manifest: &NameMap<String>,
    deleted: &NameSet,
    limit: usize,
) -> (r: (Vec<FunctionInfo>, bool))
    requires
        manifest.wf(),
        deleted.wf(),
    ensures
        (r.0@, r.1) == found_at(overlay@, stored@, manifest@, deleted@, limit),
{
    let ghost wanted = |f: FunctionInfo|
        at_manifest(f.file_path@, f.git_file_hash@, manifest@);
    let mut flags: Vec<bool> = Vec::new();
    let mut i: usize = 0;
    while i < stored.len()
        invariant
            i <= stored@.len(),
            flags@.len() == i,
            manifest.wf(),
            wanted == (|f: FunctionInfo|
                at_manifest(f.file_path@, f.git_file_hash@, manifest@)),
            forall|k: int| 0 <= k < i ==> #[trigger] flags@[k] == wanted(stored@[k]),
        decreases stored@.len() - i,
    {
        flags.push(
            in_manifest(stored[i].file_path.as_str(), stored[i].git_file_hash.as_str(), manifest),
        );
        i += 1;
    }
    proof {
        kept_is_a_filter(stored@, flags@, wanted);
    }
    let (here, here_hit) = limit_rows(keep_rows(stored, &flags), limit);
    let (all, all_hit) = limit_rows(merge_overlay(overlay, here, deleted), limit);
    (all, here_hit || all_hit)
}

/// The matches of the working tree come first, whatever is stored and whatever
/// the revision holds; only the limit leaves any of them out.
pub proof fn the_working_tree_is_searched(
    overlay: Seq<FunctionInfo>,
    stored: Seq<FunctionInfo>,
    manifest: Map<Seq<char>, String>,
    deleted: Set<Seq<char>>,
    limit: usize,
)
    ensures
        limited(overlay, limit).is_prefix_of(
            found_at(overlay, stored, manifest, deleted, limit).0,
        ),
{
    let found = found_at(overlay, stored, manifest, deleted, limit).0;
    assert(limited(overlay, limit) =~= found.take(limited(overlay, limit).len() as int));
}

/// A search never answers more than its limit.
pub proof fn a_limit_is_kept(
    overlay: Seq<FunctionInfo>,
    stored: Seq<FunctionInfo>,
    manifest: Map<Seq<char>, String>,
    deleted: Set<Seq<char>>,
    limit: usize,
)
    requires
        limit > 0,
    ensures
        found_at(overlay, stored, manifest, deleted, limit).0.len() <= limit,
{
}

} // verus!
