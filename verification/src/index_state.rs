//! What an index holds and by which build it was written.
use vstd::prelude::*;
use crate::names::{copy_names, distinct, distinct_names, NameMap, NameSet};
use crate::stored::ProcessedFileRecord;
use crate::tables::SCHEMA_VERSION;
use crate::text::{decimal, decimal_of, lemma_contains_push, lemma_texts_push, pieces, split_on};
use crate::text::{str_eq, texts};

verus! {

/// Whether this build's extractor read a file.
pub open spec fn read_by_this_build(record: ProcessedFileRecord) -> bool {
    record.extractor_version == Some(SCHEMA_VERSION)
}

/// The contents that this build's extractor read, in order.
pub open spec fn contents_read(records: Seq<ProcessedFileRecord>) -> Seq<Seq<char>>
    decreases records.len(),
{
    if records.len() == 0 {
        Seq::empty()
    } else {
        let before = contents_read(records.drop_last());
        if read_by_this_build(records.last()) {
            before.push(records.last().git_file_sha@)
        } else {
            before
        }
    }
}

fn is_this_build(version: Option<u32>) -> (r: bool)
    ensures
        r == (version == Some(SCHEMA_VERSION)),
{
    match version {
        Some(version) => version == SCHEMA_VERSION,
        None => false,
    }
}

/// The record that this build's extractor read a file.
pub fn mark_file_processed(file: String, git_sha: Option<String>, git_file_sha: String) -> (r:
    ProcessedFileRecord)
    ensures
        r == (ProcessedFileRecord {
            file,
            git_sha,
            git_file_sha,
            extractor_version: Some(SCHEMA_VERSION),
        }),
{
    ProcessedFileRecord { file, git_sha, git_file_sha, extractor_version: Some(SCHEMA_VERSION) }
}

/// A file that is marked as processed is one that a later run may skip, whatever
/// else is recorded.
pub proof fn a_marked_file_may_be_skipped(
    records: Seq<ProcessedFileRecord>,
    record: ProcessedFileRecord,
)
    requires
        records.contains(record),
        record.extractor_version == Some(SCHEMA_VERSION),
    ensures
        contents_read(records).contains(record.git_file_sha@),
    decreases records.len(),
{
    let init = records.drop_last();
    let before = contents_read(init);
    if init.contains(record) {
        a_marked_file_may_be_skipped(init, record);
        lemma_contains_push(before, records.last().git_file_sha@, record.git_file_sha@);
    } else {
        let i = choose|i: int| 0 <= i < records.len() && records[i] == record;
        if i < init.len() {
            assert(init[i] == record);
        }
        assert(records.last() == record);
        lemma_contains_push(before, record.git_file_sha@, record.git_file_sha@);
    }
}

/// Content hashes this build's extractor has read, which is the set a
/// later run may skip. A file read by an older extractor is missing from
/// it even though the file itself has not changed.
pub fn processed_by_this_extractor(records: &Vec<ProcessedFileRecord>) -> (r: Vec<String>)
    ensures
        texts(r@) == distinct(contents_read(records@)),
{
    let mut list: Vec<String> = Vec::new();
    let mut i: usize = 0;
    assert(records@.take(0) =~= Seq::empty());
    assert(texts(list@) =~= Seq::empty());
    while i < records.len()
        invariant
            i <= records@.len(),
            texts(list@) == contents_read(records@.take(i as int)),
        decreases records@.len() - i,
    {
        proof {
            assert(records@.take(i + 1).drop_last() =~= records@.take(i as int));
            assert(records@.take(i + 1).last() == records@[i as int]);
        }
        if is_this_build(records[i].extractor_version) {
            let hash = records[i].git_file_sha.clone();
            proof {
                lemma_texts_push(list@, hash);
            }
            list.push(hash);
        }
        i += 1;
    }
    assert(records@.take(i as int) =~= records@);
    distinct_names(list)
}

/// Whether an index holds anything that an older build wrote: asked of the files,
/// and only where there are none of the mark on the database as a whole.
pub open spec fn predates_reader(
    records: Seq<ProcessedFileRecord>,
    stored_version: Option<u32>,
) -> bool {
    if records.len() > 0 {
        exists|i: int| 0 <= i < records.len() && !read_by_this_build(#[trigger] records[i])
    } else {
        match stored_version {
            Some(version) => version < SCHEMA_VERSION,
            None => 0 < SCHEMA_VERSION,
        }
    }
}

/// True when any file in the index was read by an older extractor, so
/// what is stored for it is not what a fresh index would hold.
pub fn index_predates_reader(
    records: &Vec<ProcessedFileRecord>,
    stored_version: Option<u32>,
) -> (r: bool)
    ensures
        r == predates_reader(records@, stored_version),
{
    if records.len() > 0 {
        let mut i: usize = 0;
        while i < records.len()
            invariant
                i <= records@.len(),
                forall|k: int| 0 <= k < i ==> read_by_this_build(#[trigger] records@[k]),
            decreases records@.len() - i,
        {
            if !is_this_build(records[i].extractor_version) {
                assert(!read_by_this_build(records@[i as int]));
                return true;
            }
            i += 1;
        }
        return false;
    }
    let version: u32 = match stored_version {
        Some(version) => version,
        None => 0,
    };
    version < SCHEMA_VERSION
}

/// An index whose files were all read by this build does not predate it, whatever
/// the mark on the database says; and then every file may be skipped.
pub proof fn a_current_index_may_be_skipped(
    records: Seq<ProcessedFileRecord>,
    stored_version: Option<u32>,
)
    requires
        records.len() > 0,
        !predates_reader(records, stored_version),
    ensures
        contents_read(records) == records.map_values(
            |record: ProcessedFileRecord| record.git_file_sha@,
        ),
    decreases records.len(),
{
    let hash = |record: ProcessedFileRecord| record.git_file_sha@;
    let init = records.drop_last();
    assert(read_by_this_build(records[records.len() - 1]));
    assert(records =~= init.push(records.last()));
    if init.len() > 0 {
        assert forall|i: int| 0 <= i < init.len() implies read_by_this_build(
            #[trigger] init[i],
        ) by {
            assert(read_by_this_build(records[i]));
        }
        a_current_index_may_be_skipped(init, stored_version);
    } else {
        assert(contents_read(init) =~= init.map_values(hash));
    }
    assert(records.map_values(hash) =~= init.map_values(hash).push(records.last().git_file_sha@));
}

/// The options an index was built with: the extensions, and whether macros were
/// skipped; nothing where no extensions are recorded.
pub open spec fn index_options(
    extensions: Option<Seq<char>>,
    macros: Option<Seq<char>>,
) -> Option<(Seq<Seq<char>>, bool)> {
    match extensions {
        Some(extensions) => if extensions.len() == 0 {
            None
        } else {
            Some((pieces(extensions, ','), macros == Some("skipped"@)))
        },
        None => None,
    }
}

/// The text of a value that may not be recorded.
pub open spec fn recorded_text(value: Option<&str>) -> Option<Seq<char>> {
    match value {
        Some(value) => Some(value@),
        None => None,
    }
}

/// How the index was built: the extensions indexed, and whether macros
/// were skipped. `None` when the index does not say, which is every index
/// written before this was recorded.
pub fn recorded_index_options(extensions: Option<&str>, macros: Option<&str>) -> (r: Option<
    (Vec<String>, bool),
>)
    ensures
        match r {
            Some((list, no_macros)) => index_options(
                recorded_text(extensions),
                recorded_text(macros),
            ) == Some((texts(list@), no_macros)),
            None => index_options(recorded_text(extensions), recorded_text(macros)) is None,
        },
{
    match extensions {
        Some(extensions) => {
            if extensions.is_empty() {
                return None;
            }
            let no_macros = match macros {
                Some(value) => str_eq(value, "skipped"),
                None => false,
            };
            Some((split_on(extensions, ','), no_macros))
        },
        None => None,
    }
}

/// What a new index says of itself: by which version it was written, and since
/// when it holds what only later versions write.
pub fn initial_metadata(now: u64) -> (r: Vec<(String, String)>)
    ensures
        r@.len() == 3,
        r@[0].0@ == "schema_version"@ && r@[0].1@ == decimal(SCHEMA_VERSION as nat),
        r@[1].0@ == "populated_since:dispatch_sites"@ && r@[1].1@ == decimal(now as nat),
        r@[2].0@ == "populated_since:registrations"@ && r@[2].1@ == decimal(now as nat),
{
    vec![
        (String::from_str("schema_version"), decimal_of(SCHEMA_VERSION as u64)),
        (String::from_str("populated_since:dispatch_sites"), decimal_of(now)),
        (String::from_str("populated_since:registrations"), decimal_of(now)),
    ]
}

/// The last manifest that was generated, kept because a single query asks for the
/// same revision several times.
pub struct ManifestCache {
    pub held: Option<(String, NameMap<String>)>,
}

impl ManifestCache {
    pub open spec fn wf(&self) -> bool {
        self.held is Some ==> (self.held->0).1.wf()
    }

    /// The manifest that is held for a revision.
    pub open spec fn manifest_for(&self, git_sha: Seq<char>) -> Option<Map<Seq<char>, String>> {
        match self.held {
            Some((sha, manifest)) => if sha@ == git_sha {
                Some(manifest@)
            } else {
                None
            },
            None => None,
        }
    }

    pub fn new() -> (r: Self)
        ensures
            r.wf(),
            forall|git_sha: Seq<char>| #[trigger] r.manifest_for(git_sha) is None,
    {
        ManifestCache { held: None }
    }

    /// The manifest of a revision, where it is the one in hand.
    pub fn get(&self, git_sha: &str) -> (r: Option<NameMap<String>>)
        requires
            self.wf(),
        ensures
            match r {
                Some(manifest) => manifest.wf() && self.manifest_for(git_sha@) == Some(manifest@),
                None => self.manifest_for(git_sha@) is None,
            },
    {
        match &self.held {
            Some((sha, manifest)) => {
                if str_eq(sha.as_str(), git_sha) {
                    Some(copy_names(manifest))
                } else {
                    None
                }
            },
            None => None,
        }
    }

    /// Keeps the manifest of a revision, in place of any other.
    pub fn keep(&mut self, git_sha: &str, manifest: NameMap<String>)
        requires
            manifest.wf(),
        ensures
            final(self).wf(),
            forall|other: Seq<char>| #[trigger]
                final(self).manifest_for(other) == (if other == git_sha@ {
                    Some(manifest@)
                } else {
                    None
                }),
    {
        self.held = Some((String::from_str(git_sha), manifest));
    }
}

/// How a file changed from one commit to another.
#[derive(Debug, Clone, Copy, PartialEq, Eq, Structural)]
pub enum ChangeType {
    Added,
    Modified,
    Deleted,
    Renamed,
}

/// A file that changed from one commit to another.
#[derive(Debug, Clone)]
pub struct ChangedFile {
    pub path: String,
    pub change_type: ChangeType,
}

/// Whether a file changed.
pub open spec fn is_changed(changed: Seq<ChangedFile>, path: Seq<char>) -> bool {
    exists|i: int| 0 <= i < changed.len() && (#[trigger] changed[i]).path@ == path
}

/// Whether a file changed and was not deleted.
pub open spec fn is_left(changed: Seq<ChangedFile>, path: Seq<char>) -> bool {
    exists|i: int|
        0 <= i < changed.len() && (#[trigger] changed[i]).path@ == path && changed[i].change_type
            != ChangeType::Deleted
}

/// Determine which files need to be rescanned for incremental updates: those that
/// changed and are still there, and those connected to a change that did not
/// change themselves.
pub fn get_files_for_incremental_scan(
    changed: &Vec<ChangedFile>,
    connected: &Vec<String>,
) -> (r: NameSet)
    ensures
        r.wf(),
        forall|path: Seq<char>| #[trigger]
            r@.contains(path) <==> is_left(changed@, path) || (texts(connected@).contains(path)
                && !is_changed(changed@, path)),
{
    let mut out = NameSet::new();
    let mut all = NameSet::new();
    let mut i: usize = 0;
    assert(changed@.take(0) =~= Seq::empty());
    while i < changed.len()
        invariant
            i <= changed@.len(),
            out.wf(),
            all.wf(),
            forall|path: Seq<char>| #[trigger]
                out@.contains(path) <==> is_left(changed@.take(i as int), path),
            forall|path: Seq<char>| #[trigger]
                all@.contains(path) <==> is_changed(changed@.take(i as int), path),
        decreases changed@.len() - i,
    {
        let ghost some = changed@.take(i as int);
        let ghost more = changed@.take(i + 1);
        let ghost had = out@;
        let ghost had_all = all@;
        let left = match changed[i].change_type {
            ChangeType::Deleted => false,
            _ => true,
        };
        if left {
            out.insert(changed[i].path.as_str());
        }
        all.insert(changed[i].path.as_str());
        proof {
            assert(more[i as int] == changed@[i as int]);
            assert forall|k: int| 0 <= k < i implies #[trigger] more[k] == some[k] by {}
            assert forall|path: Seq<char>| #[trigger] out@.contains(path) <==> is_left(
                more,
                path,
            ) by {
                assert(had.contains(path) <==> is_left(some, path));
                if is_left(some, path) {
                    let k = choose|k: int|
                        0 <= k < some.len() && (#[trigger] some[k]).path@ == path
                            && some[k].change_type != ChangeType::Deleted;
                    assert(more[k].path@ == path);
                }
                if is_left(more, path) {
                    let k = choose|k: int|
                        0 <= k < more.len() && (#[trigger] more[k]).path@ == path
                            && more[k].change_type != ChangeType::Deleted;
                    if k < i {
                        assert(some[k].path@ == path);
                    }
                }
            }
            assert forall|path: Seq<char>| #[trigger] all@.contains(path) <==> is_changed(
                more,
                path,
            ) by {
                assert(had_all.contains(path) <==> is_changed(some, path));
                if is_changed(some, path) {
                    let k = choose|k: int| 0 <= k < some.len() && (#[trigger] some[k]).path@ == path;
                    assert(more[k].path@ == path);
                }
                if is_changed(more, path) {
                    let k = choose|k: int| 0 <= k < more.len() && (#[trigger] more[k]).path@ == path;
                    if k < i {
                        assert(some[k].path@ == path);
                    }
                }
            }
        }
        i += 1;
    }
    assert(changed@.take(i as int) =~= changed@);
    let ghost list = texts(connected@);
    let mut i: usize = 0;
    while i < connected.len()
        invariant
            i <= connected@.len(),
            list == texts(connected@),
            out.wf(),
            all.wf(),
            forall|path: Seq<char>| #[trigger]
                out@.contains(path) <==> is_left(changed@, path) || (list.take(
                    i as int,
                ).contains(path) && !is_changed(changed@, path)),
            forall|path: Seq<char>| #[trigger]
                all@.contains(path) <==> is_changed(changed@, path),
        decreases connected@.len() - i,
    {
        let ghost had = out@;
        if !all.contains(connected[i].as_str()) {
            out.insert(connected[i].as_str());
        }
        proof {
            assert(list.take(i + 1) =~= list.take(i as int).push(list[i as int]));
            assert forall|path: Seq<char>| #[trigger]
                out@.contains(path) <==> is_left(changed@, path) || (list.take(i + 1).contains(path)
                    && !is_changed(changed@, path)) by {
                lemma_contains_push(list.take(i as int), list[i as int], path);
                assert(had.contains(path) <==> is_left(changed@, path) || (list.take(
                    i as int,
                ).contains(path) && !is_changed(changed@, path)));
            }
        }
        i += 1;
    }
    assert(list.take(i as int) =~= list);
    out
}

} // verus!
