//! What lookups by name and searches of bodies promise, said of the rows themselves.
use vstd::prelude::*;
use vstd::utf8::encode_utf8;
use crate::call_rows::at_manifest;
use crate::grep::{found_at, limits, on_path, standing};
use crate::keyed::lemma_same_filter;
use crate::overlay::{
    covers, functions_answer, lemma_filter_contains, overlaid, typedef_answer, types_answer,
};
use crate::order::{before, in_rank_order, ranked_is_an_ordered_rearrangement};
use crate::patterns::regex_found;
use crate::selection::{
    answer_with_manifest, best_of, best_place, callees_of, implementation, implementations,
    preferred, the_best_match_is_preferred,
};
use crate::text::{has_suffix, texts, trimmed, trimmed_end, trimmed_start, white_space};
use crate::types::{FunctionInfo, TypeInfo, TypedefInfo};

verus! {

/// Whether a text ends in a semicolon, white space aside.
pub open spec fn ends_in_semicolon(s: Seq<char>) -> bool {
    exists|k: int|
        0 <= k < s.len() && s[k] == ';' && forall|j: int|
            k < j < s.len() ==> white_space(#[trigger] s[j])
}

proof fn lemma_trimmed_end(s: Seq<char>)
    ensures
        trimmed_end(s).len() <= s.len(),
        trimmed_end(s) == s.take(trimmed_end(s).len() as int),
        trimmed_end(s).len() > 0 ==> !white_space(trimmed_end(s).last()),
        forall|j: int| trimmed_end(s).len() <= j < s.len() ==> white_space(#[trigger] s[j]),
    decreases s.len(),
{
    if s.len() > 0 && white_space(s.last()) {
        let init = s.drop_last();
        lemma_trimmed_end(init);
        let n = trimmed_end(init).len() as int;
        assert(init.take(n) =~= s.take(n));
        assert forall|j: int| n <= j < s.len() implies white_space(#[trigger] s[j]) by {
            if j < init.len() {
                assert(init[j] == s[j]);
            }
        }
    } else {
        assert(s.take(s.len() as int) =~= s);
    }
}

proof fn lemma_trimmed_start(s: Seq<char>) -> (n: int)
    ensures
        0 <= n <= s.len(),
        trimmed_start(s) == s.skip(n),
        forall|j: int| 0 <= j < n ==> white_space(#[trigger] s[j]),
    decreases s.len(),
{
    if s.len() > 0 && white_space(s[0]) {
        let rest = s.skip(1);
        let n = lemma_trimmed_start(rest);
        assert(rest.skip(n) =~= s.skip(n + 1));
        assert forall|j: int| 0 <= j < n + 1 implies white_space(#[trigger] s[j]) by {
            if j > 0 {
                assert(rest[j - 1] == s[j]);
            }
        }
        n + 1
    } else {
        assert(s.skip(0) =~= s);
        0
    }
}

proof fn lemma_ends_in_semicolon(s: Seq<char>)
    ensures
        has_suffix(trimmed(s), ";"@) == ends_in_semicolon(s),
{
    reveal_strlit(";");
    let n = lemma_trimmed_start(s);
    let rest = s.skip(n);
    lemma_trimmed_end(rest);
    let t = trimmed(s);
    assert(t == trimmed_end(rest));
    if has_suffix(t, ";"@) {
        assert(t.skip(t.len() - 1)[0] == ';');
        let k = n + t.len() - 1;
        assert(t.last() == rest[t.len() - 1]);
        assert(s[k] == ';');
        assert forall|j: int| k < j < s.len() implies white_space(#[trigger] s[j]) by {
            assert(rest[j - n] == s[j]);
        }
    }
    if ends_in_semicolon(s) {
        let k = choose|k: int|
            0 <= k < s.len() && s[k] == ';' && forall|j: int|
                k < j < s.len() ==> white_space(#[trigger] s[j]);
        assert(!white_space(';'));
        assert(k >= n);
        assert(rest[k - n] == ';');
        if t.len() <= k - n {
            assert(white_space(rest[k - n]));
        }
        if t.len() > k - n + 1 {
            assert(t.last() == rest[t.len() - 1]);
            assert(rest[t.len() - 1] == s[n + t.len() - 1]);
        }
        assert(t.skip(t.len() - 1) =~= ";"@);
    }
}

/// A function without a return type is a macro and always kept. Any other is kept
/// just when its body has more than fifty bytes and it is not a declaration of one
/// or two lines: one whose body ends in a semicolon. Where the file is, or what it
/// is called, plays no part.
pub proof fn implementations_have_a_body(f: FunctionInfo)
    ensures
        implementation(f) <==> f.return_type@.len() == 0 || (encode_utf8(f.body@).len() > 50 && !(
        f.line_end - f.line_start <= 1 && ends_in_semicolon(f.body@))),
{
    lemma_ends_in_semicolon(f.body@);
}

/// What is kept of some functions: just those that are implementations, in order,
/// and whether one is kept depends on its return type, its body and its lines alone.
pub proof fn functions_are_kept_by_their_bodies(
    functions: Seq<FunctionInfo>,
    a: FunctionInfo,
    b: FunctionInfo,
)
    requires
        functions.contains(a),
        functions.contains(b),
        a.return_type@ == b.return_type@,
        a.body@ == b.body@,
        a.line_start == b.line_start,
        a.line_end == b.line_end,
    ensures
        implementations(functions).contains(a) == implementations(functions).contains(b),
        encode_utf8(a.body@).len() > 50 && (a.line_end - a.line_start > 1 || !ends_in_semicolon(
            a.body@,
        )) ==> implementations(functions).contains(a),
        a.return_type@.len() == 0 ==> implementations(functions).contains(a),
        a.return_type@.len() > 0 && encode_utf8(a.body@).len() <= 50 ==> !implementations(
            functions,
        ).contains(a),
{
    implementations_have_a_body(a);
    implementations_have_a_body(b);
    lemma_filter_contains(functions, |f: FunctionInfo| implementation(f), a);
    lemma_filter_contains(functions, |f: FunctionInfo| implementation(f), b);
}

/// Whether the path of a function is that of a C source file.
pub open spec fn in_c_file(f: FunctionInfo) -> bool {
    f.file_path@.len() >= 2 && f.file_path@[f.file_path@.len() - 2] == '.'
        && f.file_path@.last() == 'c'
}

/// Whether a function has a body: more than one line, and more than fifty bytes.
pub open spec fn has_a_body(f: FunctionInfo) -> bool {
    f.line_end > f.line_start && encode_utf8(f.body@).len() > 50
}

proof fn lemma_in_c_file(f: FunctionInfo)
    ensures
        has_suffix(f.file_path@, ".c"@) == in_c_file(f),
{
    reveal_strlit(".c");
    let path = f.file_path@;
    if path.len() >= 2 {
        let end = path.skip(path.len() - 2);
        assert(end[0] == path[path.len() - 2] && end[1] == path.last());
        if in_c_file(f) {
            assert(end =~= ".c"@);
        }
    }
}

/// Which of two definitions answers: one in a C file before one that is not; then
/// one with a body before one without; then one with parameters before one without;
/// then the one with the longer body. Of equal ones neither is preferred.
pub proof fn definitions_are_preferred_in_order(a: FunctionInfo, b: FunctionInfo)
    ensures
        in_c_file(a) && !in_c_file(b) ==> preferred(a, b) && !preferred(b, a),
        in_c_file(a) == in_c_file(b) && has_a_body(a) && !has_a_body(b) ==> preferred(a, b)
            && !preferred(b, a),
        in_c_file(a) == in_c_file(b) && has_a_body(a) == has_a_body(b) && a.parameters@.len() > 0
            && b.parameters@.len() == 0 ==> preferred(a, b) && !preferred(b, a),
        in_c_file(a) == in_c_file(b) && has_a_body(a) == has_a_body(b) && (a.parameters@.len() > 0)
            == (b.parameters@.len() > 0) ==> preferred(a, b) == (encode_utf8(a.body@).len()
            > encode_utf8(b.body@).len()),
{
    lemma_in_c_file(a);
    lemma_in_c_file(b);
}

/// The definition that answers for a name is one of those given, and none of those
/// is better: none is in a C file where it is not, and so on down to the longest
/// body. Of equally good ones the first answers.
pub proof fn the_best_definition_answers(found: Seq<FunctionInfo>)
    ensures
        found.len() == 0 ==> best_of(found) is None,
        found.len() > 0 ==> best_of(found) is Some && found.contains(best_of(found)->0),
        forall|j: int|
            0 <= j < found.len() && in_c_file(#[trigger] found[j]) ==> in_c_file(best_of(found)->0),
        forall|j: int|
            0 <= j < found.len() && in_c_file(#[trigger] found[j]) == in_c_file(best_of(found)->0)
                && has_a_body(found[j]) ==> has_a_body(best_of(found)->0),
        forall|j: int|
            0 <= j < found.len() && in_c_file(#[trigger] found[j]) == in_c_file(best_of(found)->0)
                && has_a_body(found[j]) == has_a_body(best_of(found)->0) && found[j].parameters@.len()
                > 0 ==> (best_of(found)->0).parameters@.len() > 0,
        forall|j: int|
            0 <= j < found.len() && in_c_file(#[trigger] found[j]) == in_c_file(best_of(found)->0)
                && has_a_body(found[j]) == has_a_body(best_of(found)->0) && (
            found[j].parameters@.len() > 0) == ((best_of(found)->0).parameters@.len() > 0)
                ==> encode_utf8(found[j].body@).len() <= encode_utf8(
                (best_of(found)->0).body@,
            ).len(),
{
    if found.len() > 0 {
        the_best_match_is_preferred(found);
        let at = best_place(found);
        let best = found[at];
        assert forall|j: int| 0 <= j < found.len() implies !preferred(#[trigger] found[j], best) by {
            if j < at {
                assert(preferred(best, found[j]));
                definitions_are_preferred_in_order(best, found[j]);
                definitions_are_preferred_in_order(found[j], best);
            }
        }
        assert forall|j: int| 0 <= j < found.len() implies {
            let f = #[trigger] found[j];
            &&& in_c_file(f) ==> in_c_file(best)
            &&& in_c_file(f) == in_c_file(best) && has_a_body(f) ==> has_a_body(best)
            &&& in_c_file(f) == in_c_file(best) && has_a_body(f) == has_a_body(best)
                && f.parameters@.len() > 0 ==> best.parameters@.len() > 0
            &&& in_c_file(f) == in_c_file(best) && has_a_body(f) == has_a_body(best) && (
            f.parameters@.len() > 0) == (best.parameters@.len() > 0) ==> encode_utf8(
                f.body@,
            ).len() <= encode_utf8(best.body@).len()
        } by {
            definitions_are_preferred_in_order(best, found[j]);
            definitions_are_preferred_in_order(found[j], best);
        }
    }
}

/// Where a name is looked up at a revision, a definition that stands there answers;
/// one from elsewhere only where none does. A name that no file has is not answered
/// for.
pub proof fn a_revision_answers_for_itself(
    has_files: bool,
    at_revision: Seq<FunctionInfo>,
    everywhere: Seq<FunctionInfo>,
)
    ensures
        ({
            let answer = answer_with_manifest(has_files, at_revision, everywhere);
            &&& !has_files ==> answer is None
            &&& has_files && at_revision.len() > 0 ==> answer is Some && at_revision.contains(
                answer->0,
            )
            &&& has_files && at_revision.len() == 0 && everywhere.len() > 0 ==> answer is Some
                && everywhere.contains(answer->0)
            &&& has_files && at_revision.len() == 0 && everywhere.len() == 0 ==> answer is None
        }),
{
    the_best_definition_answers(at_revision);
    the_best_definition_answers(everywhere);
}

/// What a function calls is what the definition that answers for it calls.
pub proof fn callees_are_those_of_the_answer(matches: Seq<FunctionInfo>)
    ensures
        matches.len() == 0 ==> callees_of(matches).len() == 0,
        matches.len() > 0 && (best_of(matches)->0).calls is Some ==> callees_of(matches) == texts(
            ((best_of(matches)->0).calls->0)@,
        ),
        matches.len() > 0 && (best_of(matches)->0).calls is None ==> callees_of(matches).len() == 0,
{
}

/// The working tree laid over stored functions: its own first, and then, in order,
/// the stored ones of files that it neither has a function of nor deleted.
pub proof fn functions_are_overlaid_by_file(
    overlay: Seq<FunctionInfo>,
    stored: Seq<FunctionInfo>,
    deleted: Set<Seq<char>>,
)
    ensures
        overlaid(overlay, stored, deleted) == overlay + stored.filter(
            |f: FunctionInfo|
                !deleted.contains(f.file_path@) && forall|i: int|
                    0 <= i < overlay.len() ==> (#[trigger] overlay[i]).file_path@ != f.file_path@,
        ),
{
    use_covers_of_functions(overlay, stored, deleted);
}

proof fn use_covers_of_functions(
    overlay: Seq<FunctionInfo>,
    stored: Seq<FunctionInfo>,
    deleted: Set<Seq<char>>,
)
    ensures
        stored.filter(
            |row: FunctionInfo|
                !covers(overlay, crate::overlay::Located::located(&row)) && !deleted.contains(
                    crate::overlay::Located::located(&row),
                ),
        ) == stored.filter(
            |f: FunctionInfo|
                !deleted.contains(f.file_path@) && forall|i: int|
                    0 <= i < overlay.len() ==> (#[trigger] overlay[i]).file_path@ != f.file_path@,
        ),
{
    let a = |row: FunctionInfo|
        !covers(overlay, crate::overlay::Located::located(&row)) && !deleted.contains(
            crate::overlay::Located::located(&row),
        );
    let b = |f: FunctionInfo|
        !deleted.contains(f.file_path@) && forall|i: int|
            0 <= i < overlay.len() ==> (#[trigger] overlay[i]).file_path@ != f.file_path@;
    assert forall|f: FunctionInfo| stored.contains(f) implies a(f) == b(f) by {
        if covers(overlay, f.file_path@) {
            let i = choose|i: int|
                0 <= i < overlay.len() && crate::overlay::Located::located(
                    &#[trigger] overlay[i],
                ) == f.file_path@;
            assert(overlay[i].file_path@ == f.file_path@);
        }
    }
    lemma_same_filter(stored, a, b);
}

/// Whether no function of the working tree stands in a file, and the file was not
/// deleted there.
pub open spec fn left_alone(
    overlay: Seq<FunctionInfo>,
    deleted: Set<Seq<char>>,
    path: Seq<char>,
) -> bool {
    !deleted.contains(path) && forall|i: int|
        0 <= i < overlay.len() ==> (#[trigger] overlay[i]).file_path@ != path
}

proof fn lemma_overlaid_contains(
    overlay: Seq<FunctionInfo>,
    stored: Seq<FunctionInfo>,
    deleted: Set<Seq<char>>,
    f: FunctionInfo,
)
    ensures
        overlaid(overlay, stored, deleted).contains(f) <==> overlay.contains(f) || (
        stored.contains(f) && left_alone(overlay, deleted, f.file_path@)),
{
    let wanted = |f: FunctionInfo|
        !deleted.contains(f.file_path@) && forall|i: int|
            0 <= i < overlay.len() ==> (#[trigger] overlay[i]).file_path@ != f.file_path@;
    functions_are_overlaid_by_file(overlay, stored, deleted);
    let rest = stored.filter(wanted);
    lemma_filter_contains(stored, wanted, f);
    let all = overlay + rest;
    if overlay.contains(f) {
        let i = choose|i: int| 0 <= i < overlay.len() && overlay[i] == f;
        assert(all[i] == f);
    }
    if rest.contains(f) {
        let i = choose|i: int| 0 <= i < rest.len() && rest[i] == f;
        assert(all[overlay.len() + i] == f);
    }
    if all.contains(f) {
        let i = choose|i: int| 0 <= i < all.len() && all[i] == f;
        if i < overlay.len() {
            assert(overlay[i] == f);
        } else {
            assert(rest[i - overlay.len()] == f);
        }
    }
}

/// All functions of a name at a revision: the implementations of the working tree,
/// and of the files that it left alone those stored at the revision, or where there
/// are none those stored anywhere. A name that no stored file has is looked up in
/// the working tree alone.
pub proof fn functions_are_answered_from_tree_and_revision(
    overlay: Seq<FunctionInfo>,
    has_files: bool,
    stored: Seq<FunctionInfo>,
    everywhere: Seq<FunctionInfo>,
    deleted: Set<Seq<char>>,
    f: FunctionInfo,
)
    ensures
        functions_answer(overlay, has_files, stored, everywhere, deleted).contains(f) <==> (
        f.return_type@.len() == 0 || (encode_utf8(f.body@).len() > 50 && !(f.line_end - f.line_start
            <= 1 && ends_in_semicolon(f.body@)))) && (overlay.contains(f) || (has_files
            && left_alone(overlay, deleted, f.file_path@) && (stored.contains(f) || (stored.len()
            == 0 && everywhere.contains(f))))),
{
    implementations_have_a_body(f);
    let kept = |f: FunctionInfo| implementation(f);
    lemma_filter_contains(overlay, kept, f);
    lemma_filter_contains(overlaid(overlay, stored, deleted), kept, f);
    lemma_filter_contains(overlaid(overlay, everywhere, deleted), kept, f);
    lemma_overlaid_contains(overlay, stored, deleted, f);
    lemma_overlaid_contains(overlay, everywhere, deleted, f);
    if stored.len() == 0 {
        assert(!stored.contains(f));
    }
}

/// The working tree laid over stored types, file by file.
pub proof fn types_are_overlaid_by_file(
    overlay: Seq<TypeInfo>,
    stored: Seq<TypeInfo>,
    deleted: Set<Seq<char>>,
)
    ensures
        overlaid(overlay, stored, deleted) == overlay + stored.filter(
            |t: TypeInfo|
                !deleted.contains(t.file_path@) && forall|i: int|
                    0 <= i < overlay.len() ==> (#[trigger] overlay[i]).file_path@ != t.file_path@,
        ),
{
    let a = |row: TypeInfo|
        !covers(overlay, crate::overlay::Located::located(&row)) && !deleted.contains(
            crate::overlay::Located::located(&row),
        );
    let b = |t: TypeInfo|
        !deleted.contains(t.file_path@) && forall|i: int|
            0 <= i < overlay.len() ==> (#[trigger] overlay[i]).file_path@ != t.file_path@;
    assert forall|t: TypeInfo| stored.contains(t) implies a(t) == b(t) by {
        if covers(overlay, t.file_path@) {
            let i = choose|i: int|
                0 <= i < overlay.len() && crate::overlay::Located::located(
                    &#[trigger] overlay[i],
                ) == t.file_path@;
            assert(overlay[i].file_path@ == t.file_path@);
        }
    }
    lemma_same_filter(stored, a, b);
}

/// The working tree laid over stored typedefs, file by file.
pub proof fn typedefs_are_overlaid_by_file(
    overlay: Seq<TypedefInfo>,
    stored: Seq<TypedefInfo>,
    deleted: Set<Seq<char>>,
)
    ensures
        overlaid(overlay, stored, deleted) == overlay + stored.filter(
            |t: TypedefInfo|
                !deleted.contains(t.file_path@) && forall|i: int|
                    0 <= i < overlay.len() ==> (#[trigger] overlay[i]).file_path@ != t.file_path@,
        ),
{
    let a = |row: TypedefInfo|
        !covers(overlay, crate::overlay::Located::located(&row)) && !deleted.contains(
            crate::overlay::Located::located(&row),
        );
    let b = |t: TypedefInfo|
        !deleted.contains(t.file_path@) && forall|i: int|
            0 <= i < overlay.len() ==> (#[trigger] overlay[i]).file_path@ != t.file_path@;
    assert forall|t: TypedefInfo| stored.contains(t) implies a(t) == b(t) by {
        if covers(overlay, t.file_path@) {
            let i = choose|i: int|
                0 <= i < overlay.len() && crate::overlay::Located::located(
                    &#[trigger] overlay[i],
                ) == t.file_path@;
            assert(overlay[i].file_path@ == t.file_path@);
        }
    }
    lemma_same_filter(stored, a, b);
}

/// The definitions of a type at a revision are those of the working tree and, of
/// the files that it left alone, those stored at the revision, by file and then by
/// line. Where none is stored there, one from anywhere answers if the working tree
/// has none; a name that no stored file has is looked up in the working tree alone.
pub proof fn types_are_answered_from_tree_and_revision(
    overlay: Seq<TypeInfo>,
    has_files: bool,
    stored: Seq<TypeInfo>,
    anywhere: Option<TypeInfo>,
    deleted: Set<Seq<char>>,
)
    ensures
        ({
            let answer = types_answer(overlay, has_files, stored, anywhere, deleted);
            let merged = overlay + stored.filter(
                |t: TypeInfo|
                    !deleted.contains(t.file_path@) && forall|i: int|
                        0 <= i < overlay.len() ==> (#[trigger] overlay[i]).file_path@
                            != t.file_path@,
            );
            &&& !has_files ==> answer == overlay
            &&& has_files && stored.len() > 0 ==> answer.to_multiset() == merged.to_multiset()
                && forall|i: int, j: int|
                0 <= i < j < answer.len() ==> !before(
                    (#[trigger] answer[j]).file_path@,
                    (#[trigger] answer[i]).file_path@,
                ) && (answer[i].file_path@ == answer[j].file_path@ ==> answer[i].line_start
                    <= answer[j].line_start)
            &&& has_files && stored.len() == 0 && overlay.len() > 0 ==> answer == overlay
            &&& has_files && stored.len() == 0 && overlay.len() == 0 && anywhere is Some
                ==> answer == seq![anywhere->0]
            &&& has_files && stored.len() == 0 && overlay.len() == 0 && anywhere is None
                ==> answer.len() == 0
        }),
{
    types_are_overlaid_by_file(overlay, stored, deleted);
    let all = overlaid(overlay, stored, deleted);
    ranked_is_an_ordered_rearrangement(all);
    let answer = types_answer(overlay, has_files, stored, anywhere, deleted);
    if has_files && stored.len() > 0 {
        assert(in_rank_order(answer));
        assert forall|i: int, j: int| 0 <= i < j < answer.len() implies !before(
            (#[trigger] answer[j]).file_path@,
            (#[trigger] answer[i]).file_path@,
        ) && (answer[i].file_path@ == answer[j].file_path@ ==> answer[i].line_start
            <= answer[j].line_start) by {
            assert(crate::order::Ranked::at_most(&answer[i], &answer[j]));
            crate::order::before_is_irreflexive(answer[i].file_path@);
            if before(answer[j].file_path@, answer[i].file_path@) && before(
                answer[i].file_path@,
                answer[j].file_path@,
            ) {
                crate::order::before_is_transitive(
                    answer[i].file_path@,
                    answer[j].file_path@,
                    answer[i].file_path@,
                );
            }
        }
    }
}

/// The typedef that answers at a revision: the first of the working tree, or else
/// the first stored at the revision whose file was not deleted, or where none is
/// stored there one from anywhere.
pub proof fn a_typedef_is_answered_from_tree_and_revision(
    overlay: Seq<TypedefInfo>,
    has_files: bool,
    stored: Seq<TypedefInfo>,
    anywhere: Option<TypedefInfo>,
    deleted: Set<Seq<char>>,
)
    ensures
        ({
            let answer = typedef_answer(overlay, has_files, stored, anywhere, deleted);
            let left = stored.filter(|t: TypedefInfo| !deleted.contains(t.file_path@));
            &&& overlay.len() > 0 ==> answer == Some(overlay[0])
            &&& overlay.len() == 0 && !has_files ==> answer is None
            &&& overlay.len() == 0 && has_files && stored.len() == 0 ==> answer == anywhere
            &&& overlay.len() == 0 && has_files && stored.len() > 0 && left.len() > 0 ==> answer
                == Some(left[0])
            &&& overlay.len() == 0 && has_files && stored.len() > 0 && left.len() == 0
                ==> answer is None
        }),
{
    typedefs_are_overlaid_by_file(overlay, stored, deleted);
    if overlay.len() == 0 {
        let a = |t: TypedefInfo|
            !deleted.contains(t.file_path@) && forall|i: int|
                0 <= i < overlay.len() ==> (#[trigger] overlay[i]).file_path@ != t.file_path@;
        let b = |t: TypedefInfo| !deleted.contains(t.file_path@);
        lemma_same_filter(stored, a, b);
        assert(overlay + stored.filter(b) =~= stored.filter(b));
    }
}

/// A path pattern keeps the functions whose own path it is found in, ignoring case,
/// in order; without one all are kept.
pub proof fn a_path_pattern_looks_at_paths(functions: Seq<FunctionInfo>, pattern: Seq<char>)
    ensures
        on_path(functions, Some(pattern)) == functions.filter(
            |f: FunctionInfo| regex_found(pattern, true, f.file_path@),
        ),
        on_path(functions, None) == functions,
{
    lemma_same_filter(
        functions,
        |f: FunctionInfo| crate::patterns::pattern_found(pattern, f.file_path@),
        |f: FunctionInfo| regex_found(pattern, true, f.file_path@),
    );
}

/// A function stands at a revision where the manifest has its file with just the
/// content that the function was read from.
pub proof fn functions_stand_by_content(
    functions: Seq<FunctionInfo>,
    manifest: Map<Seq<char>, String>,
)
    ensures
        standing(functions, manifest) == functions.filter(
            |f: FunctionInfo|
                manifest.contains_key(f.file_path@) && manifest[f.file_path@]@ == f.git_file_hash@,
        ),
{
    lemma_same_filter(
        functions,
        |f: FunctionInfo| at_manifest(f.file_path@, f.git_file_hash@, manifest),
        |f: FunctionInfo|
            manifest.contains_key(f.file_path@) && manifest[f.file_path@]@ == f.git_file_hash@,
    );
}

/// A search of bodies at a revision, without a limit: every match of the working
/// tree, and of the files that it left alone every stored match that stands at the
/// revision. With a limit it says so whenever that left something out.
pub proof fn a_search_finds_what_stands_there(
    overlay: Seq<FunctionInfo>,
    stored: Seq<FunctionInfo>,
    manifest: Map<Seq<char>, String>,
    deleted: Set<Seq<char>>,
    limit: usize,
    f: FunctionInfo,
)
    ensures
        found_at(overlay, stored, manifest, deleted, 0).0.contains(f) <==> overlay.contains(f) || (
        stored.contains(f) && manifest.contains_key(f.file_path@) && manifest[f.file_path@]@
            == f.git_file_hash@ && left_alone(overlay, deleted, f.file_path@)),
        !found_at(overlay, stored, manifest, deleted, 0).1,
        found_at(overlay, stored, manifest, deleted, limit).0.contains(f) ==> found_at(
            overlay,
            stored,
            manifest,
            deleted,
            0,
        ).0.contains(f),
        !found_at(overlay, stored, manifest, deleted, limit).1 ==> found_at(
            overlay,
            stored,
            manifest,
            deleted,
            limit,
        ).0 == found_at(overlay, stored, manifest, deleted, 0).0,
        limit > 0 && overlay.len() > limit ==> found_at(overlay, stored, manifest, deleted, limit).1,
{
    let here = standing(stored, manifest);
    functions_stand_by_content(stored, manifest);
    let at = |f: FunctionInfo|
        manifest.contains_key(f.file_path@) && manifest[f.file_path@]@ == f.git_file_hash@;
    lemma_filter_contains(stored, at, f);
    lemma_overlaid_contains(overlay, here, deleted, f);
    let some = crate::grep::limited(here, limit);
    lemma_overlaid_contains(overlay, some, deleted, f);
    let found = found_at(overlay, stored, manifest, deleted, limit).0;
    let merged = overlaid(overlay, some, deleted);
    if found.contains(f) {
        let i = choose|i: int| 0 <= i < found.len() && found[i] == f;
        assert(merged[i] == f);
        assert(merged.contains(f));
        if some.contains(f) {
            let k = choose|k: int| 0 <= k < some.len() && some[k] == f;
            assert(here[k] == f);
        }
    }
}

/// A limit leaves something out just when there is more than it allows.
pub proof fn a_limit_leaves_out_what_is_over<T>(rows: Seq<T>, limit: usize)
    ensures
        limits(rows, limit) <==> limit > 0 && rows.len() > limit,
{
}

} // verus!
