//! Maps and sets keyed by name, which remember the order names came in.
use vstd::hash_map::StringHashMap;
use vstd::prelude::*;
use crate::text::{lemma_texts_push, texts};

verus! {

/// A map from names to values. Walking it visits the names in the order they
/// were first inserted.
#[verifier::reject_recursive_types(V)]
pub struct NameMap<V> {
    entries: Vec<(String, V)>,
    index: StringHashMap<usize>,
}

impl<V> View for NameMap<V> {
    type V = Map<Seq<char>, V>;

    closed spec fn view(&self) -> Map<Seq<char>, V> {
        Map::new(|name: Seq<char>| self.index@.contains_key(name), |name: Seq<char>| self.entries@[self.index@[name] as int].1)
    }
}

impl<V> NameMap<V> {
    /// The names, in the order they were first inserted.
    pub closed spec fn names(&self) -> Seq<Seq<char>> {
        self.entries@.map_values(|e: (String, V)| e.0@)
    }

    /// Each name occurs once, and the index knows exactly the names there are.
    pub closed spec fn wf(&self) -> bool {
        &&& forall|i: int|
            0 <= i < self.entries@.len() ==> self.index@.contains_key(
                (#[trigger] self.entries@[i]).0@,
            ) && self.index@[self.entries@[i].0@] == i
        &&& forall|name: Seq<char>| #[trigger]
            self.index@.contains_key(name) ==> self.index@[name] < self.entries@.len()
                && self.entries@[self.index@[name] as int].0@ == name
    }

    /// What every map keeps: a name occurs once in the order, and it occurs
    /// there just when the map has it.
    pub proof fn names_are_the_keys(&self)
        requires
            self.wf(),
        ensures
            self.names().no_duplicates(),
            forall|name: Seq<char>| #[trigger]
                self@.contains_key(name) <==> self.names().contains(name),
    {
        assert forall|name: Seq<char>| #[trigger] self@.contains_key(name) implies self.names().contains(
            name,
        ) by {
            assert(self.names()[self.index@[name] as int] == name);
        }
        assert forall|name: Seq<char>| self.names().contains(name) implies #[trigger] self@.contains_key(
            name,
        ) by {
            let i = choose|i: int| 0 <= i < self.names().len() && self.names()[i] == name;
            assert(self.entries@[i].0@ == name);
        }
        assert forall|i: int, j: int| 0 <= i < self.names().len() && 0 <= j < self.names().len() && i != j implies self.names()[i] != self.names()[j] by {
            assert(self.names()[i] == self.entries@[i].0@);
            assert(self.names()[j] == self.entries@[j].0@);
        }
    }

    /// A map has as many names as its order shows.
    pub proof fn dom_is_counted(&self)
        requires
            self.wf(),
        ensures
            self@.dom().finite(),
            self@.dom().len() == self.names().len(),
    {
        self.names_are_the_keys();
        assert(self@.dom() =~= self.names().to_set()) by {
            assert forall|name: Seq<char>| #[trigger]
                self@.dom().contains(name) <==> self.names().to_set().contains(name) by {
                assert(self@.contains_key(name) <==> self.names().contains(name));
            }
        }
        self.names().unique_seq_to_set();
    }

    pub fn new() -> (r: Self)
        ensures
            r.wf(),
            r@ == Map::<Seq<char>, V>::empty(),
            r.names() == Seq::<Seq<char>>::empty(),
    {
        let r = NameMap { entries: Vec::new(), index: StringHashMap::new() };
        assert(r@ =~= Map::<Seq<char>, V>::empty());
        assert(r.names() =~= Seq::<Seq<char>>::empty());
        r
    }

    pub fn len(&self) -> (r: usize)
        requires
            self.wf(),
        ensures
            r == self.names().len(),
    {
        self.entries.len()
    }

    pub fn is_empty(&self) -> (r: bool)
        requires
            self.wf(),
        ensures
            r == (self@ == Map::<Seq<char>, V>::empty()),
    {
        proof {
            self.names_are_the_keys();
            if self.entries@.len() == 0 {
                assert(self@ =~= Map::<Seq<char>, V>::empty());
            } else {
                assert(self@.contains_key(self.entries@[0].0@));
            }
        }
        self.entries.len() == 0
    }

    pub fn contains(&self, name: &str) -> (r: bool)
        requires
            self.wf(),
        ensures
            r == self@.contains_key(name@),
    {
        self.index.contains_key(name)
    }

    pub fn get(&self, name: &str) -> (r: Option<&V>)
        requires
            self.wf(),
        ensures
            match r {
                Some(v) => self@.contains_key(name@) && *v == self@[name@],
                None => !self@.contains_key(name@),
            },
    {
        match self.index.get(name) {
            Some(i) => Some(&self.entries[*i].1),
            None => None,
        }
    }

    /// The name at a position of the order.
    pub fn name_at(&self, i: usize) -> (r: &str)
        requires
            self.wf(),
            i < self.names().len(),
        ensures
            r@ == self.names()[i as int],
    {
        self.entries[i].0.as_str()
    }

    /// The value of the name at a position of the order.
    pub fn value_at(&self, i: usize) -> (r: &V)
        requires
            self.wf(),
            i < self.names().len(),
        ensures
            self@.contains_key(self.names()[i as int]),
            *r == self@[self.names()[i as int]],
    {
        assert(self.names()[i as int] == self.entries@[i as int].0@);
        &self.entries[i].1
    }

    /// Gives a name a value, in place of the one it has.
    pub fn insert(&mut self, name: String, value: V)
        requires
            old(self).wf(),
        ensures
            final(self).wf(),
            final(self)@ == old(self)@.insert(name@, value),
            final(self).names() == (if old(self)@.contains_key(name@) {
                old(self).names()
            } else {
                old(self).names().push(name@)
            }),
    {
        let ghost before = *self;
        match self.index.get(name.as_str()) {
            Some(at) => {
                let i = *at;
                self.entries.set(i, (name, value));
                assert(self.names() =~= before.names());
            },
            None => {
                self.index.insert(name.clone(), self.entries.len());
                self.entries.push((name, value));
                assert(self.names() =~= before.names().push(name@));
            },
        }
        assert(self@ =~= before@.insert(name@, value));
    }

    /// Takes the value of a name out, leaving another in its place.
    pub fn replace(&mut self, name: &str, value: V) -> (r: V)
        requires
            old(self).wf(),
            old(self)@.contains_key(name@),
        ensures
            final(self).wf(),
            r == old(self)@[name@],
            final(self)@ == old(self)@.insert(name@, value),
            final(self).names() == old(self).names(),
    {
        let ghost before = *self;
        let i: usize = match self.index.get(name) {
            Some(at) => *at,
            None => 0,
        };
        let mut out = value;
        std::mem::swap(&mut self.entries[i].1, &mut out);
        assert(self.names() =~= before.names());
        assert(self@ =~= before@.insert(name@, value));
        out
    }
}

/// Adds an item to the list kept under a name.
pub fn push_under<T>(map: &mut NameMap<Vec<T>>, name: &str, item: T)
    requires
        old(map).wf(),
    ensures
        final(map).wf(),
        final(map).names() == (if old(map)@.contains_key(name@) {
            old(map).names()
        } else {
            old(map).names().push(name@)
        }),
        final(map)@.dom() == old(map)@.dom().insert(name@),
        final(map)@[name@]@ == (if old(map)@.contains_key(name@) {
            old(map)@[name@]@.push(item)
        } else {
            seq![item]
        }),
        forall|other: Seq<char>|
            other != name@ && old(map)@.contains_key(other) ==> #[trigger] final(map)@[other]
                == old(map)@[other],
{
    if map.contains(name) {
        let mut list = map.replace(name, Vec::new());
        list.push(item);
        let _ = map.replace(name, list);
        assert(map@.dom() =~= old(map)@.dom().insert(name@));
    } else {
        let mut list: Vec<T> = Vec::new();
        list.push(item);
        assert(list@ =~= seq![item]);
        map.insert(String::from_str(name), list);
        assert(map@.dom() =~= old(map)@.dom().insert(name@));
    }
}

/// A copy of a map.
pub fn copy_names(map: &NameMap<String>) -> (r: NameMap<String>)
    requires
        map.wf(),
    ensures
        r.wf(),
        r@ == map@,
        r.names() == map.names(),
{
    let mut out: NameMap<String> = NameMap::new();
    let mut i: usize = 0;
    proof {
        map.names_are_the_keys();
    }
    while i < map.len()
        invariant
            map.wf(),
            map.names().no_duplicates(),
            i <= map.names().len(),
            out.wf(),
            out.names() == map.names().take(i as int),
            forall|name: Seq<char>| #[trigger]
                out@.contains_key(name) ==> map@.contains_key(name) && out@[name] == map@[name],
        decreases map.names().len() - i,
    {
        proof {
            out.names_are_the_keys();
            let name = map.names()[i as int];
            if out@.contains_key(name) {
                let j = choose|j: int| 0 <= j < i && map.names().take(i as int)[j] == name;
                assert(map.names()[j] == name);
            }
        }
        out.insert(String::from_str(map.name_at(i)), map.value_at(i).clone());
        i += 1;
        assert(out.names() =~= map.names().take(i as int));
    }
    proof {
        assert(out.names() =~= map.names());
        out.names_are_the_keys();
        assert(out@ =~= map@) by {
            assert forall|name: Seq<char>| #[trigger]
                out@.contains_key(name) <==> map@.contains_key(name) by {
                assert(map@.contains_key(name) <==> map.names().contains(name));
            }
        }
    }
    out
}

/// A set of names. Walking it visits the names in the order they came in.
pub struct NameSet {
    members: NameMap<()>,
}

impl View for NameSet {
    type V = Set<Seq<char>>;

    closed spec fn view(&self) -> Set<Seq<char>> {
        self.members@.dom()
    }
}

impl NameSet {
    /// The names, in the order they came in.
    pub closed spec fn names(&self) -> Seq<Seq<char>> {
        self.members.names()
    }

    pub closed spec fn wf(&self) -> bool {
        self.members.wf()
    }

    /// A name occurs once in the order, and it occurs there just when the set
    /// has it.
    pub proof fn names_are_the_members(&self)
        requires
            self.wf(),
        ensures
            self.names().no_duplicates(),
            forall|name: Seq<char>| #[trigger]
                self@.contains(name) <==> self.names().contains(name),
    {
        self.members.names_are_the_keys();
        assert forall|name: Seq<char>| #[trigger]
            self@.contains(name) <==> self.names().contains(name) by {
            assert(self@.contains(name) <==> self.members@.contains_key(name));
        }
    }

    pub fn new() -> (r: Self)
        ensures
            r.wf(),
            r@ == Set::<Seq<char>>::empty(),
            r.names() == Seq::<Seq<char>>::empty(),
    {
        let r = NameSet { members: NameMap::new() };
        assert(r@ =~= Set::<Seq<char>>::empty());
        r
    }

    pub fn len(&self) -> (r: usize)
        requires
            self.wf(),
        ensures
            r == self.names().len(),
    {
        self.members.len()
    }

    pub fn contains(&self, name: &str) -> (r: bool)
        requires
            self.wf(),
        ensures
            r == self@.contains(name@),
    {
        self.members.contains(name)
    }

    /// The name at a position of the order.
    pub fn name_at(&self, i: usize) -> (r: &str)
        requires
            self.wf(),
            i < self.names().len(),
        ensures
            r@ == self.names()[i as int],
    {
        self.members.name_at(i)
    }

    /// Adds a name; says whether it was new.
    pub fn insert(&mut self, name: &str) -> (fresh: bool)
        requires
            old(self).wf(),
        ensures
            final(self).wf(),
            fresh == !old(self)@.contains(name@),
            final(self)@ == old(self)@.insert(name@),
            final(self).names() == (if fresh {
                old(self).names().push(name@)
            } else {
                old(self).names()
            }),
    {
        let fresh = !self.members.contains(name);
        if fresh {
            self.members.insert(String::from_str(name), ());
        }
        assert(self@ =~= old(self)@.insert(name@));
        fresh
    }
}

/// The names of a list, each at its first place.
pub open spec fn distinct(list: Seq<Seq<char>>) -> Seq<Seq<char>>
    decreases list.len(),
{
    if list.len() == 0 {
        Seq::empty()
    } else {
        let before = distinct(list.drop_last());
        if before.contains(list.last()) {
            before
        } else {
            before.push(list.last())
        }
    }
}

/// The distinct names of a list are its names, each once.
pub proof fn distinct_names_are_the_names(list: Seq<Seq<char>>)
    ensures
        distinct(list).no_duplicates(),
        forall|name: Seq<char>| #[trigger] distinct(list).contains(name) <==> list.contains(name),
    decreases list.len(),
{
    if list.len() > 0 {
        let init = list.drop_last();
        distinct_names_are_the_names(init);
        assert forall|name: Seq<char>| #[trigger]
            distinct(list).contains(name) <==> list.contains(name) by {
            let before = distinct(init);
            if list.contains(name) {
                let i = choose|i: int| 0 <= i < list.len() && list[i] == name;
                if i < init.len() {
                    assert(init[i] == name);
                    assert(before.contains(name));
                    let j = choose|j: int| 0 <= j < before.len() && before[j] == name;
                    assert(distinct(list)[j] == name);
                } else if !before.contains(name) {
                    assert(distinct(list)[before.len() as int] == name);
                }
            }
            if distinct(list).contains(name) {
                let j = choose|j: int| 0 <= j < distinct(list).len() && distinct(list)[j] == name;
                if j < before.len() {
                    assert(before[j] == name);
                    assert(before.contains(name));
                    let i = choose|i: int| 0 <= i < init.len() && init[i] == name;
                    assert(list[i] == name);
                } else {
                    assert(list[list.len() - 1] == name);
                }
            }
        }
    }
}

/// The names of a list, each at its first place.
pub fn distinct_names(list: Vec<String>) -> (r: Vec<String>)
    ensures
        texts(r@) == distinct(texts(list@)),
{
    let ghost all = texts(list@);
    let mut seen = NameSet::new();
    let mut out: Vec<String> = Vec::new();
    assert(all.take(0) =~= Seq::empty());
    assert(texts(out@) =~= Seq::empty());
    for name in it: list
        invariant
            all == texts(it.seq()),
            seen.wf(),
            texts(out@) == distinct(all.take(it.index())),
            seen.names() == distinct(all.take(it.index())),
    {
        proof {
            assert(all.take(it.index() + 1).drop_last() =~= all.take(it.index()));
            assert(all.take(it.index() + 1).last() == name@);
            seen.names_are_the_members();
        }
        if seen.insert(name.as_str()) {
            proof {
                lemma_texts_push(out@, name);
            }
            out.push(name);
        }
    }
    assert(all.take(all.len() as int) =~= all);
    out
}

} // verus!
