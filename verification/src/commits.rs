//! Commits of the indexed tree, and how they are stored and searched.
use vstd::prelude::*;
use crate::json::{
    find_object_complaint, json_names, json_of_names, object_complaint, read_json_names,
    write_name_list,
};
use crate::keyed::{keep_rows, kept_is_a_filter};
use crate::patterns::{find_complaint, is_found, pattern_complaint, pattern_found};
use crate::sql::{equals, equals_filter, one_of, one_of_filter};
use crate::text::texts;

verus! {

/// The trailers of a commit's message: a JSON object, as text.
#[derive(Debug)]
pub struct Tags {
    json: String,
}

impl View for Tags {
    type V = Seq<char>;

    closed spec fn view(&self) -> Seq<char> {
        self.json@
    }
}

impl Tags {
    #[verifier::type_invariant]
    spec fn is_object(self) -> bool {
        object_complaint(self.json@) is None
    }

    /// The trailers that a text says, unless it is no JSON object.
    pub fn read(json: String) -> (r: Result<Tags, String>)
        ensures
            match r {
                Ok(tags) => object_complaint(json@) is None && tags@ == json@,
                Err(complaint) => object_complaint(json@) == Some(complaint@),
            },
    {
        match find_object_complaint(json.as_str()) {
            None => Ok(Tags { json }),
            Some(complaint) => Err(complaint),
        }
    }

    /// The trailers as they are stored.
    pub fn into_json(self) -> (r: String)
        ensures
            r@ == self@,
            object_complaint(r@) is None,
    {
        proof {
            use_type_invariant(&self);
        }
        self.json
    }
}

impl Clone for Tags {
    fn clone(&self) -> (r: Self)
        ensures
            r@ == self@,
    {
        proof {
            use_type_invariant(self);
        }
        Tags { json: self.json.clone() }
    }
}

/// A commit of the indexed tree.
#[derive(Debug, Clone)]
pub struct GitCommitInfo {
    pub git_sha: String,
    pub parent_sha: Vec<String>,
    pub author: String,
    pub subject: String,
    pub message: String,
    pub tags: Tags,
    pub diff: String,
    /// The symbols that the commit touches.
    pub symbols: Vec<String>,
    pub files: Vec<String>,
}

/// A commit as it is stored: the lists in JSON.
#[derive(Debug, Clone)]
pub struct CommitRow {
    pub git_sha: String,
    pub parent_sha: String,
    pub author: String,
    pub subject: String,
    pub message: String,
    pub tags: String,
    pub diff: String,
    pub symbols: String,
    pub files: String,
}

/// Whether a text is how a list is stored, and reads back as the list.
pub open spec fn stores_list(json: Seq<char>, names: Seq<Seq<char>>) -> bool {
    json == json_of_names(names) && (json_names(json) matches Ok(list) && list == names)
}

/// Whether a row is how a commit is stored.
pub open spec fn stored_as(commit: GitCommitInfo, row: CommitRow) -> bool {
    &&& row.git_sha == commit.git_sha
    &&& stores_list(row.parent_sha@, texts(commit.parent_sha@))
    &&& row.author == commit.author
    &&& row.subject == commit.subject
    &&& row.message == commit.message
    &&& row.tags@ == commit.tags@
    &&& object_complaint(row.tags@) is None
    &&& row.diff == commit.diff
    &&& stores_list(row.symbols@, texts(commit.symbols@))
    &&& stores_list(row.files@, texts(commit.files@))
}

/// The row that stores a commit.
pub fn write_commit(commit: GitCommitInfo) -> (r: Result<CommitRow, String>)
    ensures
        match r {
            Ok(row) => stored_as(commit, row),
            Err(_) => false,
        },
{
    let parent_sha = match write_name_list(&commit.parent_sha) {
        Ok(json) => json,
        Err(message) => {
            return Err(message);
        },
    };
    let symbols = match write_name_list(&commit.symbols) {
        Ok(json) => json,
        Err(message) => {
            return Err(message);
        },
    };
    let files = match write_name_list(&commit.files) {
        Ok(json) => json,
        Err(message) => {
            return Err(message);
        },
    };
    Ok(
        CommitRow {
            git_sha: commit.git_sha,
            parent_sha,
            author: commit.author,
            subject: commit.subject,
            message: commit.message,
            tags: commit.tags.into_json(),
            diff: commit.diff,
            symbols,
            files,
        },
    )
}

/// The rows that store some commits, one for one.
pub fn insert_git_commits(commits: Vec<GitCommitInfo>) -> (r: Result<Vec<CommitRow>, String>)
    ensures
        match r {
            Ok(rows) => rows@.len() == commits@.len() && forall|i: int|
                0 <= i < commits@.len() ==> stored_as(commits@[i], #[trigger] rows@[i]),
            Err(_) => false,
        },
{
    let ghost all = commits@;
    let mut out: Vec<CommitRow> = Vec::new();
    for commit in it: commits
        invariant
            it.seq() == all,
            out@.len() == it.index(),
            forall|i: int| 0 <= i < it.index() ==> stored_as(all[i], #[trigger] out@[i]),
    {
        match write_commit(commit) {
            Ok(row) => {
                out.push(row);
            },
            Err(message) => {
                return Err(message);
            },
        }
    }
    Ok(out)
}

/// What is wrong with a stored list, if anything is.
pub open spec fn list_complaint(json: Seq<char>) -> Option<Seq<char>> {
    match json_names(json) {
        Ok(_) => None,
        Err(complaint) => Some(complaint),
    }
}

/// What is wrong with a stored commit: with its parents, or else its tags, its
/// symbols or its files.
pub open spec fn commit_complaint(row: CommitRow) -> Option<Seq<char>> {
    if list_complaint(row.parent_sha@) is Some {
        list_complaint(row.parent_sha@)
    } else if object_complaint(row.tags@) is Some {
        object_complaint(row.tags@)
    } else if list_complaint(row.symbols@) is Some {
        list_complaint(row.symbols@)
    } else {
        list_complaint(row.files@)
    }
}

/// Whether a text reads as a list.
pub open spec fn reads_list(json: Seq<char>, names: Seq<Seq<char>>) -> bool {
    json_names(json) matches Ok(list) && list == names
}

/// Whether a commit is what a row says.
pub open spec fn read_as(row: CommitRow, commit: GitCommitInfo) -> bool {
    &&& commit.git_sha == row.git_sha
    &&& reads_list(row.parent_sha@, texts(commit.parent_sha@))
    &&& commit.author == row.author
    &&& commit.subject == row.subject
    &&& commit.message == row.message
    &&& commit.tags@ == row.tags@
    &&& commit.diff == row.diff
    &&& reads_list(row.symbols@, texts(commit.symbols@))
    &&& reads_list(row.files@, texts(commit.files@))
}

/// Reads a stored commit.
pub fn read_commit(row: CommitRow) -> (r: Result<GitCommitInfo, String>)
    ensures
        match r {
            Ok(commit) => commit_complaint(row) is None && read_as(row, commit),
            Err(complaint) => commit_complaint(row) == Some(complaint@),
        },
{
    let parent_sha = match read_json_names(row.parent_sha.as_str()) {
        Ok(names) => names,
        Err(complaint) => {
            return Err(complaint);
        },
    };
    let tags = match Tags::read(row.tags) {
        Ok(tags) => tags,
        Err(complaint) => {
            return Err(complaint);
        },
    };
    let symbols = match read_json_names(row.symbols.as_str()) {
        Ok(names) => names,
        Err(complaint) => {
            return Err(complaint);
        },
    };
    let files = match read_json_names(row.files.as_str()) {
        Ok(names) => names,
        Err(complaint) => {
            return Err(complaint);
        },
    };
    Ok(
        GitCommitInfo {
            git_sha: row.git_sha,
            parent_sha,
            author: row.author,
            subject: row.subject,
            message: row.message,
            tags,
            diff: row.diff,
            symbols,
            files,
        },
    )
}

/// A commit reads back as it was stored.
pub proof fn commits_read_back(commit: GitCommitInfo, row: CommitRow, read: GitCommitInfo)
    requires
        stored_as(commit, row),
        read_as(row, read),
    ensures
        commit_complaint(row) is None,
        read == (GitCommitInfo {
            parent_sha: read.parent_sha,
            tags: read.tags,
            symbols: read.symbols,
            files: read.files,
            ..commit
        }),
        read.tags@ == commit.tags@,
        texts(read.parent_sha@) == texts(commit.parent_sha@),
        texts(read.symbols@) == texts(commit.symbols@),
        texts(read.files@) == texts(commit.files@),
{
}

/// What is wrong with the first of some stored commits that cannot be read.
pub open spec fn commits_complaint(rows: Seq<CommitRow>) -> Option<Seq<char>>
    decreases rows.len(),
{
    if rows.len() == 0 {
        None
    } else {
        let before = commits_complaint(rows.drop_last());
        if before is Some {
            before
        } else {
            commit_complaint(rows.last())
        }
    }
}

proof fn lemma_commits_complaint_stays(rows: Seq<CommitRow>, i: int)
    requires
        0 <= i <= rows.len(),
        commits_complaint(rows.take(i)) is Some,
    ensures
        commits_complaint(rows) == commits_complaint(rows.take(i)),
    decreases rows.len(),
{
    if i == rows.len() {
        assert(rows.take(i) =~= rows);
    } else {
        assert(rows.drop_last().take(i) =~= rows.take(i));
        lemma_commits_complaint_stays(rows.drop_last(), i);
    }
}

/// Reads stored commits, one for one.
pub fn get_all_git_commits(rows: Vec<CommitRow>) -> (r: Result<Vec<GitCommitInfo>, String>)
    ensures
        match r {
            Ok(commits) => commits_complaint(rows@) is None && commits@.len() == rows@.len()
                && forall|i: int|
                0 <= i < rows@.len() ==> read_as(rows@[i], #[trigger] commits@[i]),
            Err(complaint) => commits_complaint(rows@) == Some(complaint@),
        },
{
    let ghost all = rows@;
    let mut out: Vec<GitCommitInfo> = Vec::new();
    assert(all.take(0) =~= Seq::empty());
    for row in it: rows
        invariant
            it.seq() == all,
            out@.len() == it.index(),
            commits_complaint(all.take(it.index())) is None,
            forall|i: int| 0 <= i < it.index() ==> read_as(all[i], #[trigger] out@[i]),
    {
        proof {
            assert(all.take(it.index() + 1).drop_last() =~= all.take(it.index()));
            assert(all.take(it.index() + 1).last() == row);
        }
        match read_commit(row) {
            Ok(commit) => {
                out.push(commit);
            },
            Err(complaint) => {
                proof {
                    lemma_commits_complaint_stays(all, it.index() + 1);
                }
                return Err(complaint);
            },
        }
    }
    assert(all.take(all.len() as int) =~= all);
    Ok(out)
}

/// Selects a commit.
pub fn commit_filter(git_sha: &str) -> (r: String)
    ensures
        r@ == equals("git_sha"@, git_sha@),
{
    equals_filter("git_sha", git_sha)
}

/// Selects some commits.
pub fn commits_chunk_filter(sha_chunk: &[String]) -> (r: String)
    ensures
        r@ == one_of("git_sha"@, texts(sha_chunk@), ", "@),
{
    one_of_filter("git_sha", sha_chunk, ", ")
}

/// Whether a pattern is found in the message or the diff of a commit; one that is
/// no regular expression does not count against it.
pub open spec fn pattern_allows(commit: GitCommitInfo, pattern: Seq<char>) -> bool {
    pattern_complaint(pattern) is Some || pattern_found(pattern, commit.message@) || pattern_found(
        pattern,
        commit.diff@,
    )
}

/// Whether a pattern is found in one of the symbols of a commit; one that is no
/// regular expression does not count against it.
pub open spec fn symbol_pattern_allows(commit: GitCommitInfo, pattern: Seq<char>) -> bool {
    pattern_complaint(pattern) is Some || exists|i: int|
        0 <= i < commit.symbols@.len() && pattern_found(pattern, (#[trigger] commit.symbols@[i])@)
}

/// Whether every pattern allows a commit.
pub open spec fn patterns_allow(
    commit: GitCommitInfo,
    patterns: Seq<Seq<char>>,
    symbol_patterns: Seq<Seq<char>>,
) -> bool {
    &&& forall|k: int| 0 <= k < patterns.len() ==> pattern_allows(commit, #[trigger] patterns[k])
    &&& forall|k: int|
        0 <= k < symbol_patterns.len() ==> symbol_pattern_allows(
            commit,
            #[trigger] symbol_patterns[k],
        )
}

fn pattern_is_met(commit: &GitCommitInfo, pattern: &str) -> (r: bool)
    ensures
        r == pattern_allows(*commit, pattern@),
{
    find_complaint(pattern).is_some() || is_found(pattern, commit.message.as_str()) || is_found(
        pattern,
        commit.diff.as_str(),
    )
}

fn symbol_pattern_is_met(commit: &GitCommitInfo, pattern: &str) -> (r: bool)
    ensures
        r == symbol_pattern_allows(*commit, pattern@),
{
    if find_complaint(pattern).is_some() {
        return true;
    }
    let mut i: usize = 0;
    while i < commit.symbols.len()
        invariant
            i <= commit.symbols@.len(),
            pattern_complaint(pattern@) is None,
            forall|k: int|
                0 <= k < i ==> !pattern_found(pattern@, (#[trigger] commit.symbols@[k])@),
        decreases commit.symbols@.len() - i,
    {
        if is_found(pattern, commit.symbols[i].as_str()) {
            return true;
        }
        i += 1;
    }
    false
}

fn patterns_are_met(
    commit: &GitCommitInfo,
    patterns: &[String],
    symbol_patterns: &[String],
) -> (r: bool)
    ensures
        r == patterns_allow(*commit, texts(patterns@), texts(symbol_patterns@)),
{
    let mut k: usize = 0;
    while k < patterns.len()
        invariant
            k <= patterns@.len(),
            forall|j: int|
                0 <= j < k ==> pattern_allows(*commit, #[trigger] texts(patterns@)[j]),
        decreases patterns@.len() - k,
    {
        if !pattern_is_met(commit, patterns[k].as_str()) {
            assert(!pattern_allows(*commit, texts(patterns@)[k as int]));
            return false;
        }
        k += 1;
    }
    let mut k: usize = 0;
    while k < symbol_patterns.len()
        invariant
            k <= symbol_patterns@.len(),
            forall|j: int|
                0 <= j < k ==> symbol_pattern_allows(
                    *commit,
                    #[trigger] texts(symbol_patterns@)[j],
                ),
        decreases symbol_patterns@.len() - k,
    {
        if !symbol_pattern_is_met(commit, symbol_patterns[k].as_str()) {
            assert(!symbol_pattern_allows(*commit, texts(symbol_patterns@)[k as int]));
            return false;
        }
        k += 1;
    }
    true
}

/// Keeps the commits that every pattern allows: ALL regex patterns must match, in
/// message OR diff, and ALL symbol patterns must match a symbol.
pub fn query_commits_chunk_filtered(
    commits: Vec<GitCommitInfo>,
    regex_patterns: &[String],
    symbol_patterns: &[String],
) -> (r: Vec<GitCommitInfo>)
    ensures
        r@ == commits@.filter(
            |commit: GitCommitInfo|
                patterns_allow(commit, texts(regex_patterns@), texts(symbol_patterns@)),
        ),
{
    let ghost wanted = |commit: GitCommitInfo|
        patterns_allow(commit, texts(regex_patterns@), texts(symbol_patterns@));
    let mut flags: Vec<bool> = Vec::new();
    let mut i: usize = 0;
    while i < commits.len()
        invariant
            i <= commits@.len(),
            flags@.len() == i,
            wanted == (|commit: GitCommitInfo|
                patterns_allow(commit, texts(regex_patterns@), texts(symbol_patterns@))),
            forall|k: int| 0 <= k < i ==> #[trigger] flags@[k] == wanted(commits@[k]),
        decreases commits@.len() - i,
    {
        flags.push(patterns_are_met(&commits[i], regex_patterns, symbol_patterns));
        i += 1;
    }
    proof {
        kept_is_a_filter(commits@, flags@, wanted);
    }
    keep_rows(commits, &flags)
}

/// Patterns that are no regular expressions keep every commit.
pub proof fn broken_patterns_keep_every_commit(
    commit: GitCommitInfo,
    patterns: Seq<Seq<char>>,
    symbol_patterns: Seq<Seq<char>>,
)
    requires
        forall|k: int|
            0 <= k < patterns.len() ==> pattern_complaint(#[trigger] patterns[k]) is Some,
        forall|k: int|
            0 <= k < symbol_patterns.len() ==> pattern_complaint(
                #[trigger] symbol_patterns[k],
            ) is Some,
    ensures
        patterns_allow(commit, patterns, symbol_patterns),
{
}

} // verus!
