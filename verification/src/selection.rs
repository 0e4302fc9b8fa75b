//! Choosing between several definitions of one name.
use vstd::prelude::*;
use crate::keyed::{keep_rows, kept_is_a_filter};
use crate::text::{byte_len, count_bytes, ends_with, has_suffix, texts, trim, trimmed};
use crate::types::FunctionInfo;

verus! {

/// The number of bytes beyond which a body is more than a declaration.
pub const DECLARATION_BYTES: usize = 50;

/// The number of lines from the first to the last, none where they are the
/// wrong way round.
pub open spec fn line_span(line_start: u32, line_end: u32) -> nat {
    if line_end >= line_start {
        (line_end - line_start) as nat
    } else {
        0
    }
}

pub fn span_of(line_start: u32, line_end: u32) -> (r: u32)
    ensures
        r == line_span(line_start, line_end),
{
    if line_end >= line_start {
        line_end - line_start
    } else {
        0
    }
}

/// Whether a function is an implementation. A macro, which has no return type,
/// always is; anything else needs a substantial body that is not a declaration
/// of one or two lines.
pub open spec fn implementation(f: FunctionInfo) -> bool {
    f.return_type@.len() == 0 || (byte_len(f.body@) > DECLARATION_BYTES && !(line_span(
        f.line_start,
        f.line_end,
    ) <= 1 && has_suffix(trimmed(f.body@), ";"@)))
}

fn is_implementation(f: &FunctionInfo) -> (r: bool)
    ensures
        r == implementation(*f),
{
    if f.return_type.as_str().is_empty() {
        return true;
    }
    let body = trim(f.body.as_str());
    let declared = span_of(f.line_start, f.line_end) <= 1 && ends_with(body.as_str(), ";");
    count_bytes(f.body.as_str()) > DECLARATION_BYTES && !declared
}

/// The implementations among some functions, in the order they came in.
pub open spec fn implementations(functions: Seq<FunctionInfo>) -> Seq<FunctionInfo> {
    functions.filter(|f: FunctionInfo| implementation(f))
}

/// Filter out declarations, keeping only function implementations
pub fn filter_implementations_only(functions: Vec<FunctionInfo>) -> (r: Vec<FunctionInfo>)
    ensures
        r@ == implementations(functions@),
{
    let mut flags: Vec<bool> = Vec::new();
    let mut i: usize = 0;
    while i < functions.len()
        invariant
            i <= functions@.len(),
            flags@.len() == i,
            forall|k: int| 0 <= k < i ==> #[trigger] flags@[k] == implementation(functions@[k]),
        decreases functions@.len() - i,
    {
        flags.push(is_implementation(&functions[i]));
        i += 1;
    }
    proof {
        kept_is_a_filter(functions@, flags@, |f: FunctionInfo| implementation(f));
    }
    keep_rows(functions, &flags)
}

/// Whether a function has a body of its own.
pub open spec fn has_body(f: FunctionInfo) -> bool {
    line_span(f.line_start, f.line_end) > 0 && byte_len(f.body@) > DECLARATION_BYTES
}

/// Whether one definition is preferred to another: a source file to a header,
/// then one with a body, then one with parameters, then the longer body.
pub open spec fn preferred(a: FunctionInfo, b: FunctionInfo) -> bool {
    let a_is_source = has_suffix(a.file_path@, ".c"@);
    let b_is_source = has_suffix(b.file_path@, ".c"@);
    if a_is_source != b_is_source {
        a_is_source
    } else if has_body(a) != has_body(b) {
        has_body(a)
    } else if (a.parameters@.len() > 0) != (b.parameters@.len() > 0) {
        a.parameters@.len() > 0
    } else {
        byte_len(a.body@) > byte_len(b.body@)
    }
}

fn is_preferred(a: &FunctionInfo, b: &FunctionInfo) -> (r: bool)
    ensures
        r == preferred(*a, *b),
{
    let a_is_source = ends_with(a.file_path.as_str(), ".c");
    let b_is_source = ends_with(b.file_path.as_str(), ".c");
    if a_is_source != b_is_source {
        return a_is_source;
    }
    let a_bytes: usize = count_bytes(a.body.as_str());
    let b_bytes: usize = count_bytes(b.body.as_str());
    let a_has_body = span_of(a.line_start, a.line_end) > 0 && a_bytes > DECLARATION_BYTES;
    let b_has_body = span_of(b.line_start, b.line_end) > 0 && b_bytes > DECLARATION_BYTES;
    if a_has_body != b_has_body {
        return a_has_body;
    }
    let a_has_params = a.parameters.len() > 0;
    let b_has_params = b.parameters.len() > 0;
    if a_has_params != b_has_params {
        return a_has_params;
    }
    a_bytes > b_bytes
}

/// The place of the definition that is chosen.
pub open spec fn best_place(matches: Seq<FunctionInfo>) -> int
    decreases matches.len(),
{
    if matches.len() <= 1 {
        0
    } else {
        let best = best_place(matches.drop_last());
        if preferred(matches.last(), matches[best]) {
            matches.len() - 1
        } else {
            best
        }
    }
}

/// The definition that is chosen is preferred to every one before it, and none
/// after it is preferred to it.
pub proof fn the_best_match_is_preferred(matches: Seq<FunctionInfo>)
    requires
        matches.len() > 0,
    ensures
        0 <= best_place(matches) < matches.len(),
        forall|j: int|
            0 <= j < best_place(matches) ==> preferred(
                matches[best_place(matches)],
                #[trigger] matches[j],
            ),
        forall|j: int|
            best_place(matches) <= j < matches.len() ==> !preferred(
                #[trigger] matches[j],
                matches[best_place(matches)],
            ),
    decreases matches.len(),
{
    if matches.len() > 1 {
        let init = matches.drop_last();
        the_best_match_is_preferred(init);
        let best = best_place(init);
        assert(init[best] == matches[best]);
        if preferred(matches.last(), matches[best]) {
            assert forall|j: int| 0 <= j < matches.len() - 1 implies preferred(
                matches.last(),
                #[trigger] matches[j],
            ) by {
                assert(init[j] == matches[j]);
            }
        } else {
            assert forall|j: int| 0 <= j < best implies preferred(
                matches[best],
                #[trigger] matches[j],
            ) by {
                assert(init[j] == matches[j]);
            }
            assert forall|j: int| best <= j < matches.len() implies !preferred(
                #[trigger] matches[j],
                matches[best],
            ) by {
                if j < matches.len() - 1 {
                    assert(init[j] == matches[j]);
                }
            }
        }
    }
}

/// Select the best function match, prioritizing definitions over declarations
pub fn select_best_function_match(matches: Vec<FunctionInfo>) -> (r: FunctionInfo)
    requires
        matches@.len() > 0,
    ensures
        r == matches@[best_place(matches@)],
{
    let ghost all = matches@;
    let mut best: usize = 0;
    let mut i: usize = 1;
    assert(all.take(1).len() == 1);
    while i < matches.len()
        invariant
            all == matches@,
            1 <= i <= all.len(),
            best < i,
            best == best_place(all.take(i as int)),
        decreases all.len() - i,
    {
        proof {
            assert(all.take(i + 1).drop_last() =~= all.take(i as int));
            assert(all.take(i + 1).last() == all[i as int]);
            assert(all.take(i + 1)[best as int] == all[best as int]);
        }
        if is_preferred(&matches[i], &matches[best]) {
            best = i;
        }
        i += 1;
    }
    assert(all.take(i as int) =~= all);
    let mut matches = matches;
    matches.swap_remove(best)
}

/// The best of some functions, where there are any.
pub open spec fn best_of(found: Seq<FunctionInfo>) -> Option<FunctionInfo> {
    if found.len() > 0 {
        Some(found[best_place(found)])
    } else {
        None
    }
}

/// Finds the function that answers for a name whatever the revision: the best of
/// all that are known.
pub fn find_function(everywhere: Vec<FunctionInfo>) -> (r: Option<FunctionInfo>)
    ensures
        r == best_of(everywhere@),
{
    if everywhere.len() == 0 {
        return None;
    }
    Some(select_best_function_match(everywhere))
}

/// The function that answers for a name at a revision: the best that stands
/// there, or the best of all that are known. A name that no file has is not
/// answered for.
pub open spec fn answer_with_manifest(
    has_files: bool,
    at_revision: Seq<FunctionInfo>,
    everywhere: Seq<FunctionInfo>,
) -> Option<FunctionInfo> {
    if !has_files {
        None
    } else if at_revision.len() > 0 {
        best_of(at_revision)
    } else {
        best_of(everywhere)
    }
}

/// Finds the function that answers for a name at a revision.
pub fn find_function_with_manifest(
    has_files: bool,
    at_revision: Vec<FunctionInfo>,
    everywhere: Vec<FunctionInfo>,
) -> (r: Option<FunctionInfo>)
    ensures
        r == answer_with_manifest(has_files, at_revision@, everywhere@),
{
    if !has_files {
        None
    } else if at_revision.len() > 0 {
        find_function(at_revision)
    } else {
        find_function(everywhere)
    }
}

/// Finds the function that answers for a name: the one in the working tree, or
/// the one at the revision. Where nothing is known of the revision, the best of
/// all answers.
pub fn find_function_git_aware(
    overlay: Option<FunctionInfo>,
    has_manifest: bool,
    has_files: bool,
    at_revision: Vec<FunctionInfo>,
    everywhere: Vec<FunctionInfo>,
) -> (r: Option<FunctionInfo>)
    ensures
        r == (if overlay is Some {
            overlay
        } else if !has_manifest {
            best_of(everywhere@)
        } else {
            answer_with_manifest(has_files, at_revision@, everywhere@)
        }),
{
    if overlay.is_some() {
        overlay
    } else if !has_manifest {
        find_function(everywhere)
    } else {
        find_function_with_manifest(has_files, at_revision, everywhere)
    }
}

/// The calls of the best of some definitions, none where they are not known.
pub open spec fn callees_of(matches: Seq<FunctionInfo>) -> Seq<Seq<char>> {
    if matches.len() == 0 {
        Seq::empty()
    } else {
        match matches[best_place(matches)].calls {
            Some(calls) => texts(calls@),
            None => Seq::empty(),
        }
    }
}

/// What a function calls, by the best of its definitions.
pub fn get_function_callees(matches: Vec<FunctionInfo>) -> (r: Vec<String>)
    ensures
        texts(r@) == callees_of(matches@),
{
    if matches.len() == 0 {
        let none: Vec<String> = Vec::new();
        assert(texts(none@) =~= Seq::empty());
        return none;
    }
    let best = select_best_function_match(matches);
    match best.calls {
        Some(calls) => calls,
        None => {
            let none: Vec<String> = Vec::new();
            assert(texts(none@) =~= Seq::empty());
            none
        },
    }
}

} // verus!
