//! The working tree laid over what is stored: a file that was changed there
//! answers for itself, and a file that was deleted there does not answer.
use vstd::prelude::*;
use crate::keyed::{keep_rows, kept_is_a_filter};
use crate::names::NameSet;
use crate::order::{before, before_is_total, before_is_transitive};
use crate::order::{
    ranked, ranked_is_an_ordered_rearrangement, sort_by_rank, str_before, Ranked,
};
use crate::selection::{filter_implementations_only, implementation, implementations};
use crate::text::{lemma_contains_push, str_eq};
use crate::types::{FunctionInfo, TypeInfo, TypedefInfo};

verus! {

/// Rows that stand in a file.
pub trait Located: Sized {
    spec fn located(&self) -> Seq<char>;

    fn location(&self) -> (r: &str)
        ensures
            r@ == self.located(),
    ;
}

impl Located for FunctionInfo {
    open spec fn located(&self) -> Seq<char> {
        self.file_path@
    }

    fn location(&self) -> (r: &str) {
        self.file_path.as_str()
    }
}

impl Located for TypeInfo {
    open spec fn located(&self) -> Seq<char> {
        self.file_path@
    }

    fn location(&self) -> (r: &str) {
        self.file_path.as_str()
    }
}

/// Whether some row stands in a file.
pub open spec fn covers<T: Located>(rows: Seq<T>, path: Seq<char>) -> bool {
    exists|i: int| 0 <= i < rows.len() && (#[trigger] rows[i]).located() == path
}

/// The stored rows that the working tree has nothing to say about.
pub open spec fn uncovered<T: Located>(
    overlay: Seq<T>,
    stored: Seq<T>,
    deleted: Set<Seq<char>>,
) -> Seq<T> {
    stored.filter(
        |row: T| !covers(overlay, row.located()) && !deleted.contains(row.located()),
    )
}

/// The rows of the working tree, and then the stored rows that it has nothing to
/// say about.
pub open spec fn overlaid<T: Located>(
    overlay: Seq<T>,
    stored: Seq<T>,
    deleted: Set<Seq<char>>,
) -> Seq<T> {
    overlay + uncovered(overlay, stored, deleted)
}

/// The files that some rows stand in.
fn files_of<T: Located>(rows: &Vec<T>) -> (r: NameSet)
    ensures
        r.wf(),
        forall|path: Seq<char>| #[trigger] r@.contains(path) <==> covers(rows@, path),
{
    let mut out = NameSet::new();
    let mut i: usize = 0;
    assert(rows@.take(0) =~= Seq::empty());
    while i < rows.len()
        invariant
            i <= rows@.len(),
            out.wf(),
            forall|path: Seq<char>| #[trigger]
                out@.contains(path) <==> covers(rows@.take(i as int), path),
        decreases rows@.len() - i,
    {
        let ghost had = out@;
        out.insert(rows[i].location());
        proof {
            let some = rows@.take(i as int);
            let more = rows@.take(i + 1);
            assert forall|path: Seq<char>| #[trigger]
                out@.contains(path) <==> covers(more, path) by {
                assert(had.contains(path) <==> covers(some, path));
                if covers(some, path) {
                    let k = choose|k: int| 0 <= k < some.len() && (#[trigger] some[k]).located() == path;
                    assert(more[k].located() == path);
                }
                if covers(more, path) {
                    let k = choose|k: int| 0 <= k < more.len() && (#[trigger] more[k]).located() == path;
                    if k < i {
                        assert(some[k].located() == path);
                    }
                }
                assert(more[i as int] == rows@[i as int]);
            }
        }
        i += 1;
    }
    assert(rows@.take(i as int) =~= rows@);
    out
}

/// Lays the rows of the working tree over stored ones: theirs come first, and
/// stored rows of the files they stand in, or of deleted files, are left out.
pub fn merge_overlay<T: Located>(overlay: Vec<T>, stored: Vec<T>, deleted: &NameSet) -> (r: Vec<T>)
    requires
        deleted.wf(),
    ensures
        r@ == overlaid(overlay@, stored@, deleted@),
{
    let ghost wanted = |row: T|
        !covers(overlay@, row.located()) && !deleted@.contains(row.located());
    let files = files_of(&overlay);
    let mut flags: Vec<bool> = Vec::new();
    let mut i: usize = 0;
    while i < stored.len()
        invariant
            i <= stored@.len(),
            flags@.len() == i,
            files.wf(),
            deleted.wf(),
            wanted == (|row: T|
                !covers(overlay@, row.located()) && !deleted@.contains(row.located())),
            forall|path: Seq<char>| #[trigger] files@.contains(path) <==> covers(overlay@, path),
            forall|k: int| 0 <= k < i ==> #[trigger] flags@[k] == wanted(stored@[k]),
        decreases stored@.len() - i,
    {
        let path = stored[i].location();
        flags.push(!files.contains(path) && !deleted.contains(path));
        i += 1;
    }
    proof {
        kept_is_a_filter(stored@, flags@, wanted);
    }
    let mut rest = keep_rows(stored, &flags);
    let mut out = overlay;
    out.append(&mut rest);
    out
}

/// The working tree goes first: each of its rows answers, and a stored row
/// answers just when its file was neither changed nor deleted there.
pub proof fn the_working_tree_answers_for_its_files<T: Located>(
    overlay: Seq<T>,
    stored: Seq<T>,
    deleted: Set<Seq<char>>,
    row: T,
)
    ensures
        overlaid(overlay, stored, deleted).take(overlay.len() as int) == overlay,
        overlaid(overlay, stored, deleted).contains(row) <==> overlay.contains(row) || (
        stored.contains(row) && !covers(overlay, row.located()) && !deleted.contains(
            row.located(),
        )),
{
    let wanted = |row: T| !covers(overlay, row.located()) && !deleted.contains(row.located());
    let rest = uncovered(overlay, stored, deleted);
    let all = overlaid(overlay, stored, deleted);
    assert(all.take(overlay.len() as int) =~= overlay);
    stored.filter_lemma(wanted);
    assert(rest.contains(row) <==> stored.contains(row) && wanted(row)) by {
        lemma_filter_contains(stored, wanted, row);
    }
    if overlay.contains(row) {
        let k = choose|k: int| 0 <= k < overlay.len() && overlay[k] == row;
        assert(all[k] == row);
    }
    if rest.contains(row) {
        let k = choose|k: int| 0 <= k < rest.len() && rest[k] == row;
        assert(all[overlay.len() + k] == row);
    }
    if all.contains(row) {
        let k = choose|k: int| 0 <= k < all.len() && all[k] == row;
        if k < overlay.len() {
            assert(overlay[k] == row);
        } else {
            assert(rest[k - overlay.len()] == row);
        }
    }
}

/// The rows that a test keeps are those that pass it.
pub proof fn lemma_filter_contains<T>(list: Seq<T>, wanted: spec_fn(T) -> bool, row: T)
    ensures
        list.filter(wanted).contains(row) <==> list.contains(row) && wanted(row),
    decreases list.len(),
{
    reveal(Seq::filter);
    if list.len() > 0 {
        let init = list.drop_last();
        lemma_filter_contains(init, wanted, row);
        assert(list =~= init.push(list.last()));
        lemma_contains_push(init, list.last(), row);
        lemma_contains_push(init.filter(wanted), list.last(), row);
    }
}

impl Ranked for TypeInfo {
    /// By file, and within a file by line.
    open spec fn at_most(&self, other: &Self) -> bool {
        before(self.file_path@, other.file_path@) || (self.file_path@ == other.file_path@
            && self.line_start <= other.line_start)
    }

    proof fn at_most_is_total(a: &Self, b: &Self) {
        before_is_total(a.file_path@, b.file_path@);
    }

    proof fn at_most_is_transitive(a: &Self, b: &Self, c: &Self) {
        if before(a.file_path@, b.file_path@) && before(b.file_path@, c.file_path@) {
            before_is_transitive(a.file_path@, b.file_path@, c.file_path@);
        }
    }

    fn is_at_most(&self, other: &Self) -> (r: bool) {
        str_before(self.file_path.as_str(), other.file_path.as_str()) || (str_eq(
            self.file_path.as_str(),
            other.file_path.as_str(),
        ) && self.line_start <= other.line_start)
    }
}

/// The definitions of a type at a revision. A name that no stored file defines
/// has those of the working tree; where nothing is stored at the revision, those
/// of the working tree answer, or else any that is known.
pub open spec fn types_answer(
    overlay: Seq<TypeInfo>,
    has_files: bool,
    stored: Seq<TypeInfo>,
    anywhere: Option<TypeInfo>,
    deleted: Set<Seq<char>>,
) -> Seq<TypeInfo> {
    if !has_files {
        overlay
    } else if stored.len() > 0 {
        ranked(overlaid(overlay, stored, deleted))
    } else if overlay.len() > 0 {
        overlay
    } else if anywhere is Some {
        seq![anywhere->0]
    } else {
        Seq::empty()
    }
}

/// Find all type definitions with an exact name at a specific git commit.
pub fn find_types_git_aware(
    overlay: Vec<TypeInfo>,
    has_files: bool,
    stored: Vec<TypeInfo>,
    anywhere: Option<TypeInfo>,
    deleted: &NameSet,
) -> (r: Vec<TypeInfo>)
    requires
        deleted.wf(),
    ensures
        r@ == types_answer(overlay@, has_files, stored@, anywhere, deleted@),
{
    if !has_files {
        return overlay;
    }
    if stored.len() > 0 {
        return sort_by_rank(merge_overlay(overlay, stored, deleted));
    }
    if overlay.len() > 0 {
        return overlay;
    }
    let mut out: Vec<TypeInfo> = Vec::new();
    if let Some(found) = anywhere {
        out.push(found);
        assert(out@ =~= seq![found]);
    }
    out
}

/// The first of the definitions of a type at a revision.
pub fn find_type_git_aware(found: Vec<TypeInfo>) -> (r: Option<TypeInfo>)
    ensures
        r == (if found@.len() > 0 {
            Some(found@[0])
        } else {
            None
        }),
{
    let mut found = found;
    if found.len() > 0 {
        Some(found.swap_remove(0))
    } else {
        None
    }
}

/// The first of some typedefs, where there are any.
pub open spec fn first_typedef(found: Seq<TypedefInfo>) -> Option<TypedefInfo> {
    if found.len() > 0 {
        Some(found[0])
    } else {
        None
    }
}

fn take_first_typedef(found: Vec<TypedefInfo>) -> (r: Option<TypedefInfo>)
    ensures
        r == first_typedef(found@),
{
    let mut found = found;
    if found.len() > 0 {
        Some(found.swap_remove(0))
    } else {
        None
    }
}

/// The definition of a typedef at a revision: the first of the working tree, then
/// the first that is stored there in a file the working tree has nothing to say
/// about, or any that is known where none is stored. A name that no stored file
/// defines has only those of the working tree.
pub open spec fn typedef_answer(
    overlay: Seq<TypedefInfo>,
    has_files: bool,
    stored: Seq<TypedefInfo>,
    anywhere: Option<TypedefInfo>,
    deleted: Set<Seq<char>>,
) -> Option<TypedefInfo> {
    if !has_files {
        first_typedef(overlay)
    } else if stored.len() > 0 {
        first_typedef(overlaid(overlay, stored, deleted))
    } else if overlay.len() > 0 {
        first_typedef(overlay)
    } else {
        anywhere
    }
}

/// Finds the definition of a typedef at a revision.
pub fn find_typedef_git_aware(
    overlay: Vec<TypedefInfo>,
    has_files: bool,
    stored: Vec<TypedefInfo>,
    anywhere: Option<TypedefInfo>,
    deleted: &NameSet,
) -> (r: Option<TypedefInfo>)
    requires
        deleted.wf(),
    ensures
        r == typedef_answer(overlay@, has_files, stored@, anywhere, deleted@),
{
    if !has_files {
        take_first_typedef(overlay)
    } else if stored.len() > 0 {
        take_first_typedef(merge_overlay(overlay, stored, deleted))
    } else if overlay.len() > 0 {
        take_first_typedef(overlay)
    } else {
        anywhere
    }
}

/// The implementations of a function at a revision, those of the working tree
/// first. A name that no stored file defines has only those; where nothing is
/// stored at the revision, every one that is known answers besides them.
pub open spec fn functions_answer(
    overlay: Seq<FunctionInfo>,
    has_files: bool,
    stored: Seq<FunctionInfo>,
    everywhere: Seq<FunctionInfo>,
    deleted: Set<Seq<char>>,
) -> Seq<FunctionInfo> {
    if !has_files {
        implementations(overlay)
    } else if stored.len() > 0 {
        implementations(overlaid(overlay, stored, deleted))
    } else {
        implementations(overlaid(overlay, everywhere, deleted))
    }
}

/// Find ALL functions by name at a specific git commit, excluding declarations
pub fn find_all_functions_git_aware(
    overlay: Vec<FunctionInfo>,
    has_files: bool,
    stored: Vec<FunctionInfo>,
    everywhere: Vec<FunctionInfo>,
    deleted: &NameSet,
) -> (r: Vec<FunctionInfo>)
    requires
        deleted.wf(),
    ensures
        r@ == functions_answer(overlay@, has_files, stored@, everywhere@, deleted@),
{
    if !has_files {
        filter_implementations_only(overlay)
    } else if stored.len() > 0 {
        filter_implementations_only(merge_overlay(overlay, stored, deleted))
    } else {
        filter_implementations_only(merge_overlay(overlay, everywhere, deleted))
    }
}

/// Whatever is stored, the implementations that the working tree holds are found.
pub proof fn functions_of_the_working_tree_are_found(
    overlay: Seq<FunctionInfo>,
    has_files: bool,
    stored: Seq<FunctionInfo>,
    everywhere: Seq<FunctionInfo>,
    deleted: Set<Seq<char>>,
    f: FunctionInfo,
)
    requires
        overlay.contains(f),
        implementation(f),
    ensures
        functions_answer(overlay, has_files, stored, everywhere, deleted).contains(f),
{
    let wanted = |f: FunctionInfo| implementation(f);
    lemma_filter_contains(overlay, wanted, f);
    lemma_filter_contains(overlaid(overlay, stored, deleted), wanted, f);
    lemma_filter_contains(overlaid(overlay, everywhere, deleted), wanted, f);
    the_working_tree_answers_for_its_files(overlay, stored, deleted, f);
    the_working_tree_answers_for_its_files(overlay, everywhere, deleted, f);
}

/// Whatever is stored, the definitions that the working tree holds are found.
pub proof fn types_of_the_working_tree_are_found(
    overlay: Seq<TypeInfo>,
    has_files: bool,
    stored: Seq<TypeInfo>,
    anywhere: Option<TypeInfo>,
    deleted: Set<Seq<char>>,
    t: TypeInfo,
)
    requires
        overlay.contains(t),
    ensures
        types_answer(overlay, has_files, stored, anywhere, deleted).contains(t),
{
    broadcast use vstd::seq_lib::group_to_multiset_ensures;

    let all = overlaid(overlay, stored, deleted);
    the_working_tree_answers_for_its_files(overlay, stored, deleted, t);
    ranked_is_an_ordered_rearrangement(all);
    assert(all.to_multiset().count(t) > 0);
    assert(ranked(all).to_multiset().count(t) > 0);
}

/// Whatever is stored, a typedef that the working tree holds is the one found.
pub proof fn a_typedef_of_the_working_tree_is_found(
    overlay: Seq<TypedefInfo>,
    has_files: bool,
    stored: Seq<TypedefInfo>,
    anywhere: Option<TypedefInfo>,
    deleted: Set<Seq<char>>,
)
    requires
        overlay.len() > 0,
    ensures
        typedef_answer(overlay, has_files, stored, anywhere, deleted) == Some(overlay[0]),
{
}

} // verus!
