//! The content each path holds at a revision, as the working tree shows it.
use vstd::prelude::*;
use crate::keyed::{keep_rows, kept};
use crate::names::{copy_names, NameMap, NameSet};
use crate::text::{chars_of, lemma_contains_push, str_eq};

verus! {

/// How many paths are looked up one by one before the whole tree is walked.
pub const LAZY_THRESHOLD: usize = 64;

/// A path with every `//` in it written `/`, read from the left.
pub open spec fn single_slashes(path: Seq<char>) -> Seq<char>
    decreases path.len(),
{
    if path.len() == 0 {
        path
    } else if path.len() >= 2 && path[0] == '/' && path[1] == '/' {
        seq!['/'] + single_slashes(path.skip(2))
    } else {
        seq![path[0]] + single_slashes(path.skip(1))
    }
}

/// A path of a tree walk as the index writes it, with every `//` made `/`.
pub fn normalize_manifest_path(path: &str) -> (r: String)
    ensures
        r@ == single_slashes(path@),
{
    let chars = chars_of(path);
    let mut out = String::new();
    let mut i: usize = 0;
    assert(path@.skip(0) =~= path@);
    assert(out@ + single_slashes(path@) =~= single_slashes(path@));
    while i < chars.len()
        invariant
            i <= chars@.len(),
            chars@ == path@,
            out@ + single_slashes(path@.skip(i as int)) == single_slashes(path@),
        decreases chars@.len() - i,
    {
        let ghost rest = path@.skip(i as int);
        let ghost held = out@;
        if chars.len() - i >= 2 && chars[i] == '/' && chars[i + 1] == '/' {
            out.push('/');
            proof {
                assert(rest.skip(2) =~= path@.skip(i + 2));
                assert(held.push('/') + single_slashes(rest.skip(2)) =~= held + (seq!['/']
                    + single_slashes(rest.skip(2))));
            }
            i += 2;
        } else {
            let c = chars[i];
            out.push(c);
            proof {
                assert(rest.skip(1) =~= path@.skip(i + 1));
                assert(held.push(c) + single_slashes(rest.skip(1)) =~= held + (seq![c]
                    + single_slashes(rest.skip(1))));
            }
            i += 1;
        }
    }
    assert(out@ + single_slashes(path@.skip(i as int)) =~= out@);
    out
}

/// The contents of a tree walk: for each path the hash it was last seen with.
pub open spec fn manifest(entries: Seq<(String, String)>) -> Map<Seq<char>, Seq<char>>
    decreases entries.len(),
{
    if entries.len() == 0 {
        Map::empty()
    } else {
        manifest(entries.drop_last()).insert(
            single_slashes(entries.last().0@),
            entries.last().1@,
        )
    }
}

/// The texts of a map's values.
pub open spec fn value_texts(m: Map<Seq<char>, String>) -> Map<Seq<char>, Seq<char>> {
    m.map_values(|s: String| s@)
}

/// The manifest that a tree walk gives.
pub fn manifest_of(entries: &Vec<(String, String)>) -> (r: NameMap<String>)
    ensures
        r.wf(),
        value_texts(r@) == manifest(entries@),
{
    let mut out: NameMap<String> = NameMap::new();
    let mut i: usize = 0;
    assert(entries@.take(0) =~= Seq::empty());
    assert(value_texts(out@) =~= Map::empty());
    while i < entries.len()
        invariant
            i <= entries@.len(),
            out.wf(),
            value_texts(out@) == manifest(entries@.take(i as int)),
        decreases entries@.len() - i,
    {
        let ghost held = out@;
        let entry = &entries[i];
        out.insert(normalize_manifest_path(entry.0.as_str()), entry.1.clone());
        proof {
            assert(entries@.take(i + 1).drop_last() =~= entries@.take(i as int));
            assert(value_texts(out@) =~= value_texts(held).insert(
                single_slashes(entry.0@),
                entry.1@,
            ));
        }
        i += 1;
    }
    assert(entries@.take(i as int) =~= entries@);
    out
}

/// A revision's manifest with the working tree laid over it: changed files have
/// their new content, and deleted ones are gone.
pub open spec fn merged_manifest(
    head: Map<Seq<char>, String>,
    dirty: Map<Seq<char>, String>,
    deleted: Set<Seq<char>>,
) -> Map<Seq<char>, String> {
    head.union_prefer_right(dirty).remove_keys(deleted)
}

fn insert_kept(out: &mut NameMap<String>, from: &NameMap<String>, deleted: &NameSet)
    requires
        old(out).wf(),
        from.wf(),
        deleted.wf(),
    ensures
        final(out).wf(),
        final(out)@ == old(out)@.union_prefer_right(from@.remove_keys(deleted@)),
{
    let ghost before = out@;
    proof {
        from.names_are_the_keys();
    }
    let mut i: usize = 0;
    while i < from.len()
        invariant
            out.wf(),
            from.wf(),
            deleted.wf(),
            i <= from.names().len(),
            forall|name: Seq<char>| #[trigger]
                from@.contains_key(name) <==> from.names().contains(name),
            forall|name: Seq<char>| #[trigger]
                out@.contains_key(name) <==> before.contains_key(name) || (from.names().take(
                    i as int,
                ).contains(name) && !deleted@.contains(name)),
            forall|name: Seq<char>| #[trigger]
                out@.contains_key(name) ==> out@[name] == (if from.names().take(
                    i as int,
                ).contains(name) && !deleted@.contains(name) {
                    from@[name]
                } else {
                    before[name]
                }),
        decreases from.names().len() - i,
    {
        let ghost seen = from.names().take(i as int);
        let name = from.name_at(i);
        if !deleted.contains(name) {
            out.insert(String::from_str(name), from.value_at(i).clone());
        }
        proof {
            assert(from.names().take(i + 1) =~= seen.push(name@));
            assert forall|other: Seq<char>| #[trigger]
                seen.push(name@).contains(other) <==> seen.contains(other) || other == name@ by {
                lemma_contains_push(seen, name@, other);
            }
        }
        i += 1;
    }
    proof {
        assert(from.names().take(i as int) =~= from.names());
        assert(out@ =~= before.union_prefer_right(from@.remove_keys(deleted@)));
    }
}

/// A revision's manifest as the working tree shows it.
pub fn workdir_merged_manifest(
    head: &NameMap<String>,
    dirty: &NameMap<String>,
    deleted: &NameSet,
) -> (r: NameMap<String>)
    requires
        head.wf(),
        dirty.wf(),
        deleted.wf(),
    ensures
        r.wf(),
        r@ == merged_manifest(head@, dirty@, deleted@),
{
    let mut out: NameMap<String> = NameMap::new();
    insert_kept(&mut out, head, deleted);
    insert_kept(&mut out, dirty, deleted);
    assert(out@ =~= merged_manifest(head@, dirty@, deleted@));
    out
}

/// The content each path holds at a revision.
///
/// A revision is not a filter a query may apply and may skip: it decides which
/// rows are answers at all. The working tree's own answer goes first; what it
/// does not say is looked up in the revision, path by path at first, and by one
/// walk of the whole tree once there have been too many lookups.
pub struct RevisionPaths {
    repo_path: String,
    git_sha: String,
    dirty: NameMap<String>,
    deleted: NameSet,
    cache: NameMap<Option<String>>,
    fallback: Option<NameMap<String>>,
    valid: bool,
}

/// What a revision says of a path.
pub enum PathAnswer {
    /// The content the path holds, or that the revision does not have it.
    Known(Option<String>),
    /// The path has to be looked up in the revision.
    ResolvePath,
    /// The whole tree has to be walked.
    WalkTree,
}

/// The text of an optional string.
pub open spec fn maybe_text(s: Option<String>) -> Option<Seq<char>> {
    match s {
        Some(s) => Some(s@),
        None => None,
    }
}

/// A copy of an optional string.
pub fn copy_maybe(s: &Option<String>) -> (r: Option<String>)
    ensures
        maybe_text(r) == maybe_text(*s),
        r == *s,
{
    match s {
        Some(s) => Some(s.clone()),
        None => None,
    }
}

impl RevisionPaths {
    /// Paths whose content in the working tree differs from the revision.
    pub closed spec fn dirty_paths(&self) -> Map<Seq<char>, String> {
        self.dirty@
    }

    /// Paths the working tree no longer has.
    pub closed spec fn deleted_paths(&self) -> Set<Seq<char>> {
        self.deleted@
    }

    /// Whether the revision could be established.
    pub closed spec fn is_valid(&self) -> bool {
        self.valid
    }

    /// What single lookups have answered.
    pub closed spec fn looked_up(&self) -> Map<Seq<char>, Option<String>> {
        self.cache@
    }

    /// How many single lookups there have been.
    pub closed spec fn lookups(&self) -> nat {
        self.cache.names().len()
    }

    /// What a walk of the whole tree has answered, once there was one.
    pub closed spec fn walked(&self) -> Option<Map<Seq<char>, String>> {
        match self.fallback {
            Some(m) => Some(m@),
            None => None,
        }
    }

    pub closed spec fn wf(&self) -> bool {
        &&& self.dirty.wf()
        &&& self.deleted.wf()
        &&& self.cache.wf()
        &&& self.fallback matches Some(m) ==> m.wf()
    }

    /// What is known of a path: `None` while it has to be looked up, else the
    /// content it holds, if the revision has it.
    pub open spec fn known(&self, path: Seq<char>) -> Option<Option<Seq<char>>> {
        if self.deleted_paths().contains(path) {
            Some(None)
        } else if self.dirty_paths().contains_key(path) {
            Some(Some(self.dirty_paths()[path]@))
        } else if !self.is_valid() {
            Some(None)
        } else if let Some(tree) = self.walked() {
            Some(
                if tree.contains_key(path) {
                    Some(tree[path]@)
                } else {
                    None
                },
            )
        } else if self.looked_up().contains_key(path) {
            Some(maybe_text(self.looked_up()[path]))
        } else {
            None
        }
    }

    /// Paths already resolved.
    pub fn from_map(paths: NameMap<String>) -> (r: Self)
        requires
            paths.wf(),
        ensures
            r.wf(),
            r.walked() == Some(paths@),
            r.is_valid(),
            r.dirty_paths() == Map::<Seq<char>, String>::empty(),
            r.deleted_paths() == Set::<Seq<char>>::empty(),
            r.looked_up() == Map::<Seq<char>, Option<String>>::empty(),
            r.lookups() == 0,
    {
        RevisionPaths {
            repo_path: String::new(),
            git_sha: String::new(),
            dirty: NameMap::new(),
            deleted: NameSet::new(),
            cache: NameMap::new(),
            fallback: Some(paths),
            valid: true,
        }
    }

    /// Lazily resolved paths: what the working tree changed and deleted, over a
    /// revision that is asked as needed.
    pub fn new_lazy(
        repo_path: String,
        git_sha: String,
        dirty: NameMap<String>,
        deleted: NameSet,
        valid: bool,
    ) -> (r: Self)
        requires
            dirty.wf(),
            deleted.wf(),
        ensures
            r.wf(),
            r.walked() is None,
            r.is_valid() == valid,
            r.dirty_paths() == dirty@,
            r.deleted_paths() == deleted@,
            r.looked_up() == Map::<Seq<char>, Option<String>>::empty(),
            r.lookups() == 0,
            r.repository() == repo_path@,
            r.revision() == git_sha@,
    {
        RevisionPaths {
            repo_path,
            git_sha,
            dirty,
            deleted,
            cache: NameMap::new(),
            fallback: None,
            valid,
        }
    }

    /// Where the repository is.
    pub closed spec fn repository(&self) -> Seq<char> {
        self.repo_path@
    }

    /// The revision the paths are read at.
    pub closed spec fn revision(&self) -> Seq<char> {
        self.git_sha@
    }

    pub fn repo_path(&self) -> (r: &str)
        ensures
            r@ == self.repository(),
    {
        self.repo_path.as_str()
    }

    pub fn git_sha(&self) -> (r: &str)
        ensures
            r@ == self.revision(),
    {
        self.git_sha.as_str()
    }

    /// The content this path holds, if it is known, or what has to be asked of
    /// the revision first. That the revision does not have the path is an
    /// answer too: the row that named it is not in this tree.
    pub fn hash_of(&self, path: &str) -> (r: PathAnswer)
        requires
            self.wf(),
        ensures
            match r {
                PathAnswer::Known(hash) => self.known(path@) == Some(maybe_text(hash)),
                PathAnswer::ResolvePath => self.known(path@) is None && self.lookups()
                    < LAZY_THRESHOLD,
                PathAnswer::WalkTree => self.known(path@) is None && self.lookups()
                    >= LAZY_THRESHOLD,
            },
    {
        if self.deleted.contains(path) {
            return PathAnswer::Known(None);
        }
        if let Some(hash) = self.dirty.get(path) {
            return PathAnswer::Known(Some(hash.clone()));
        }
        if !self.valid {
            return PathAnswer::Known(None);
        }
        if let Some(tree) = &self.fallback {
            return match tree.get(path) {
                Some(hash) => PathAnswer::Known(Some(hash.clone())),
                None => PathAnswer::Known(None),
            };
        }
        if let Some(cached) = self.cache.get(path) {
            return PathAnswer::Known(copy_maybe(cached));
        }
        if self.cache.len() < LAZY_THRESHOLD {
            PathAnswer::ResolvePath
        } else {
            PathAnswer::WalkTree
        }
    }

    /// Takes in what a single lookup found, unless the path has been answered
    /// meanwhile, and gives the answer that holds from now on.
    pub fn record_resolved(&mut self, path: &str, resolved: Option<String>) -> (r: Option<String>)
        requires
            old(self).wf(),
        ensures
            final(self).wf(),
            final(self).dirty_paths() == old(self).dirty_paths(),
            final(self).deleted_paths() == old(self).deleted_paths(),
            final(self).is_valid() == old(self).is_valid(),
            final(self).repository() == old(self).repository(),
            final(self).revision() == old(self).revision(),
            final(self).walked() == old(self).walked(),
            final(self).looked_up() == (if old(self).walked() is Some || old(
                self,
            ).looked_up().contains_key(path@) {
                old(self).looked_up()
            } else {
                old(self).looked_up().insert(path@, resolved)
            }),
            final(self).lookups() == (if old(self).walked() is Some || old(
                self,
            ).looked_up().contains_key(path@) {
                old(self).lookups()
            } else {
                old(self).lookups() + 1
            }),
            maybe_text(r) == final(self).recorded(path@),
    {
        if let Some(tree) = &self.fallback {
            return match tree.get(path) {
                Some(hash) => Some(hash.clone()),
                None => None,
            };
        }
        if let Some(cached) = self.cache.get(path) {
            return copy_maybe(cached);
        }
        self.cache.insert(String::from_str(path), copy_maybe(&resolved));
        resolved
    }

    /// What the revision itself has answered of a path.
    pub open spec fn recorded(&self, path: Seq<char>) -> Option<Seq<char>> {
        if let Some(tree) = self.walked() {
            if tree.contains_key(path) {
                Some(tree[path]@)
            } else {
                None
            }
        } else if self.looked_up().contains_key(path) {
            maybe_text(self.looked_up()[path])
        } else {
            None
        }
    }

    /// Takes in a walk of the whole tree, unless there has been one, and gives
    /// the answer for a path. A walk that failed counts as an empty tree, so
    /// that misses are not asked for again forever.
    pub fn record_walk(&mut self, path: &str, tree: Option<NameMap<String>>) -> (r: Option<String>)
        requires
            old(self).wf(),
            tree matches Some(m) ==> m.wf(),
        ensures
            final(self).wf(),
            final(self).dirty_paths() == old(self).dirty_paths(),
            final(self).deleted_paths() == old(self).deleted_paths(),
            final(self).is_valid() == old(self).is_valid(),
            final(self).repository() == old(self).repository(),
            final(self).revision() == old(self).revision(),
            final(self).looked_up() == old(self).looked_up(),
            final(self).lookups() == old(self).lookups(),
            final(self).walked() == (match (old(self).walked(), tree) {
                (Some(m), _) => Some(m),
                (None, Some(m)) => Some(m@),
                (None, None) => Some(Map::<Seq<char>, String>::empty()),
            }),
            maybe_text(r) == final(self).recorded(path@),
    {
        if self.fallback.is_none() {
            self.fallback = match tree {
                Some(m) => Some(m),
                None => Some(NameMap::new()),
            };
        }
        match &self.fallback {
            Some(tree) => match tree.get(path) {
                Some(hash) => Some(hash.clone()),
                None => None,
            },
            None => None,
        }
    }

    /// Whether nothing at all resolved, which says the revision could not be
    /// established rather than that the tree is empty. Until the tree has been
    /// walked nothing shows that it is empty.
    pub fn is_empty(&self) -> (r: bool)
        requires
            self.wf(),
        ensures
            r == (!self.is_valid() || (self.walked() == Some(Map::<Seq<char>, String>::empty())
                && self.dirty_paths() == Map::<Seq<char>, String>::empty())),
    {
        if !self.valid {
            return true;
        }
        match &self.fallback {
            Some(tree) => tree.is_empty() && self.dirty.is_empty(),
            None => false,
        }
    }

    /// How many paths have been answered: those of the tree once it has been
    /// walked, until then those looked up one by one.
    pub fn len(&self) -> (r: usize)
        requires
            self.wf(),
        ensures
            self.walked() matches Some(tree) ==> tree.dom().finite() && r == tree.dom().len(),
            self.walked() is None ==> r == self.lookups(),
    {
        match &self.fallback {
            Some(tree) => {
                proof {
                    tree.dom_is_counted();
                }
                tree.len()
            },
            None => self.cache.len(),
        }
    }

    /// The paths as a map: the whole tree once it has been walked, until then
    /// what lookups have found.
    pub fn as_map(&self) -> (r: NameMap<String>)
        requires
            self.wf(),
        ensures
            r.wf(),
            match self.walked() {
                Some(tree) => r@ == tree,
                None => r@ == found_paths(self.looked_up()),
            },
    {
        match &self.fallback {
            Some(tree) => copy_names(tree),
            None => {
                let mut out: NameMap<String> = NameMap::new();
                let mut i: usize = 0;
                proof {
                    self.cache.names_are_the_keys();
                }
                while i < self.cache.len()
                    invariant
                        self.cache.wf(),
                        i <= self.cache.names().len(),
                        out.wf(),
                        self.cache.names().no_duplicates(),
                        forall|name: Seq<char>| #[trigger]
                            out@.contains_key(name) <==> (exists|j: int|
                                0 <= j < i && #[trigger] self.cache.names()[j] == name)
                                && self.cache@[name] is Some,
                        forall|name: Seq<char>| #[trigger]
                            out@.contains_key(name) ==> Some(out@[name]) == self.cache@[name],
                    decreases self.cache.names().len() - i,
                {
                    let ghost held = out@;
                    let name = self.cache.name_at(i);
                    if let Some(hash) = self.cache.value_at(i) {
                        out.insert(String::from_str(name), hash.clone());
                    }
                    proof {
                        assert forall|other: Seq<char>| #[trigger]
                            out@.contains_key(other) <==> (exists|j: int|
                                0 <= j < i + 1 && #[trigger] self.cache.names()[j] == other)
                                && self.cache@[other] is Some by {
                            if other == name@ {
                                assert(self.cache.names()[i as int] == other);
                            } else if held.contains_key(other) {
                                let j = choose|j: int|
                                    0 <= j < i && #[trigger] self.cache.names()[j] == other;
                                assert(self.cache.names()[j] == other);
                            }
                        }
                    }
                    i += 1;
                }
                proof {
                    assert(out@ =~= found_paths(self.cache@)) by {
                        assert forall|name: Seq<char>| #[trigger]
                            out@.contains_key(name) <==> found_paths(self.cache@).contains_key(
                                name,
                            ) by {
                            if self.cache@.contains_key(name) {
                                assert(self.cache.names().contains(name));
                            }
                            if out@.contains_key(name) {
                                assert(self.cache.names().contains(name));
                            }
                        }
                    }
                }
                out
            },
        }
    }
}

/// The paths that lookups found, with what they hold.
pub open spec fn found_paths(answers: Map<Seq<char>, Option<String>>) -> Map<Seq<char>, String> {
    Map::new(
        |path: Seq<char>| answers.contains_key(path) && answers[path] is Some,
        |path: Seq<char>| answers[path]->0,
    )
}

/// A path that has to be looked up before rows can be told apart by revision.
pub struct PathLookup {
    pub path: String,
    /// Whether the whole tree has to be walked for it.
    pub walk: bool,
}

/// Whether `keys` are the file and the hash that the key function gives for the
/// rows, one for each.
pub open spec fn places_given<T, F: Fn(&T) -> (String, String)>(
    rows: Seq<T>,
    key: F,
    keys: Seq<(Seq<char>, Seq<char>)>,
) -> bool {
    &&& keys.len() == rows.len()
    &&& forall|i: int| 0 <= i < rows.len() ==> #[trigger] gives_place(key, rows[i], keys[i])
}

/// Whether the key function can give a row this file and hash.
pub open spec fn gives_place<T, F: Fn(&T) -> (String, String)>(
    key: F,
    row: T,
    place: (Seq<char>, Seq<char>),
) -> bool {
    exists|k: (String, String)| #[trigger]
        call_ensures(key, (&row,), k) && k.0@ == place.0 && k.1@ == place.1
}

/// For each row, whether its file holds its hash at the revision.
pub open spec fn at_its_hash(
    keys: Seq<(Seq<char>, Seq<char>)>,
    paths: RevisionPaths,
) -> Seq<bool> {
    Seq::new(keys.len(), |i: int| paths.known(keys[i].0) == Some(Some(keys[i].1)))
}

/// Keeps only the rows whose file holds, at the revision being queried, the
/// content the row was read from. While a file of theirs has not been looked up
/// the rows come back as they are, with the first lookup that is missing.
pub fn at_revision<T, F: Fn(&T) -> (String, String)>(
    rows: Vec<T>,
    paths: &RevisionPaths,
    key: F,
) -> (r: Result<Vec<T>, (Vec<T>, PathLookup)>)
    requires
        paths.wf(),
        forall|i: int| 0 <= i < rows@.len() ==> call_requires(key, (#[trigger] &rows@[i],)),
    ensures
        match r {
            Ok(left) => exists|keys: Seq<(Seq<char>, Seq<char>)>|
                {
                    &&& places_given(rows@, key, keys)
                    &&& forall|i: int|
                        0 <= i < keys.len() ==> paths.known((#[trigger] keys[i]).0) is Some
                    &&& left@ == #[trigger] kept(rows@, at_its_hash(keys, *paths))
                },
            Err((back, lookup)) => {
                &&& back == rows
                &&& paths.known(lookup.path@) is None
                &&& lookup.walk == (paths.lookups() >= LAZY_THRESHOLD)
                &&& exists|i: int, hash: Seq<char>|
                    0 <= i < rows@.len() && #[trigger] gives_place(
                        key,
                        rows@[i],
                        (lookup.path@, hash),
                    )
            },
        },
{
    let mut flags: Vec<bool> = Vec::new();
    let ghost mut keys: Seq<(Seq<char>, Seq<char>)> = Seq::empty();
    let mut i: usize = 0;
    while i < rows.len()
        invariant
            i <= rows@.len(),
            paths.wf(),
            keys.len() == i,
            forall|j: int| 0 <= j < rows@.len() ==> call_requires(key, (#[trigger] &rows@[j],)),
            forall|j: int| 0 <= j < i ==> #[trigger] gives_place(key, rows@[j], keys[j]),
            forall|j: int| 0 <= j < i ==> paths.known((#[trigger] keys[j]).0) is Some,
            flags@ == at_its_hash(keys, *paths),
        decreases rows@.len() - i,
    {
        let row = &rows[i];
        let place = key(row);
        let ghost given = (place.0@, place.1@);
        proof {
            assert(call_ensures(key, (&rows@[i as int],), place));
            assert(gives_place(key, rows@[i as int], given));
        }
        match paths.hash_of(place.0.as_str()) {
            PathAnswer::Known(hash) => {
                let here = match &hash {
                    Some(hash) => str_eq(hash.as_str(), place.1.as_str()),
                    None => false,
                };
                flags.push(here);
                proof {
                    keys = keys.push(given);
                }
                assert(flags@ =~= at_its_hash(keys, *paths));
            },
            PathAnswer::ResolvePath => {
                return Err((rows, PathLookup { path: place.0, walk: false }));
            },
            PathAnswer::WalkTree => {
                return Err((rows, PathLookup { path: place.0, walk: true }));
            },
        }
        i += 1;
    }
    Ok(keep_rows(rows, &flags))
}

/// A lookup settles the path it was made for: what it recorded is from then on
/// what is known of the path, and nothing has to be asked of it again.
pub proof fn a_recorded_path_is_known(before: RevisionPaths, after: RevisionPaths, path: Seq<char>)
    requires
        before.known(path) is None,
        after.dirty_paths() == before.dirty_paths(),
        after.deleted_paths() == before.deleted_paths(),
        after.is_valid() == before.is_valid(),
        after.walked() is Some || after.looked_up().contains_key(path),
    ensures
        after.known(path) == Some(after.recorded(path)),
{
}

/// A lookup that is recorded changes nothing that was known of other paths.
pub proof fn a_lookup_keeps_what_was_known(
    before: RevisionPaths,
    after: RevisionPaths,
    path: Seq<char>,
    resolved: Option<String>,
    other: Seq<char>,
)
    requires
        after.dirty_paths() == before.dirty_paths(),
        after.deleted_paths() == before.deleted_paths(),
        after.is_valid() == before.is_valid(),
        after.walked() == before.walked(),
        after.looked_up() == before.looked_up().insert(path, resolved),
        other != path,
    ensures
        after.known(other) == before.known(other),
{
}

/// What the working tree says goes before anything the revision says.
pub proof fn the_working_tree_goes_first(paths: RevisionPaths, path: Seq<char>)
    ensures
        paths.deleted_paths().contains(path) ==> paths.known(path) == Some(None::<Seq<char>>),
        !paths.deleted_paths().contains(path) && paths.dirty_paths().contains_key(path)
            ==> paths.known(path) == Some(Some(paths.dirty_paths()[path]@)),
{
}

/// The manifest of a revision that was walked, with the working tree laid over
/// it, says of every path what a lookup of that path says.
pub proof fn manifests_answer_as_lookups_do(
    paths: RevisionPaths,
    tree: Map<Seq<char>, String>,
    path: Seq<char>,
)
    requires
        paths.is_valid(),
        paths.walked() == Some(tree),
    ensures
        ({
            let merged = merged_manifest(tree, paths.dirty_paths(), paths.deleted_paths());
            paths.known(path) == Some(
                if merged.contains_key(path) {
                    Some(merged[path]@)
                } else {
                    None
                },
            )
        }),
{
}

} // verus!
