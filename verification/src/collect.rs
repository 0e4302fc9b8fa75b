//! Collecting the functions around a function, as far as some calls away.
use vstd::prelude::*;
use crate::names::NameSet;
use crate::text::{lemma_contains_push, texts};

verus! {

/// Names in the order they were found, how many calls away each is, and how many
/// of them have been followed.
pub struct Collected {
    pub names: Seq<Seq<char>>,
    pub depths: Seq<int>,
    pub followed: int,
}

/// Names with some more that are so many calls away, where they are new.
pub open spec fn with_names(c: Collected, more: Seq<Seq<char>>, depth: int) -> Collected
    decreases more.len(),
{
    if more.len() == 0 {
        c
    } else {
        let before = with_names(c, more.drop_last(), depth);
        if before.names.contains(more.last()) {
            before
        } else {
            Collected {
                names: before.names.push(more.last()),
                depths: before.depths.push(depth),
                followed: before.followed,
            }
        }
    }
}

/// What is collected once the next name was followed to its neighbours.
pub open spec fn followed_to(c: Collected, neighbours: Seq<Seq<char>>) -> Collected {
    let more = with_names(c, neighbours, c.depths[c.followed] + 1);
    Collected { followed: c.followed + 1, ..more }
}

/// Collects the functions around a function, the nearest first.
pub struct ChainCollector {
    found: NameSet,
    depths: Vec<usize>,
    followed: usize,
    max_depth: usize,
}

impl View for ChainCollector {
    type V = Collected;

    closed spec fn view(&self) -> Collected {
        Collected {
            names: self.found.names(),
            depths: self.depths@.map_values(|d: usize| d as int),
            followed: self.followed as int,
        }
    }
}

impl ChainCollector {
    pub closed spec fn wf(&self) -> bool {
        &&& self.found.wf()
        &&& self.depths@.len() == self.found.names().len()
        &&& self.followed <= self.depths@.len()
        &&& forall|i: int, j: int|
            0 <= i <= j < self.depths@.len() ==> self.depths@[i] <= self.depths@[j]
        &&& self.followed < self.depths@.len() ==> forall|i: int|
            0 <= i < self.depths@.len() ==> #[trigger] self.depths@[i]
                <= self.depths@[self.followed as int] + 1
    }

    /// How many calls away the functions may be.
    pub closed spec fn limit(&self) -> int {
        self.max_depth as int
    }

    /// The functions that were found.
    pub closed spec fn names(&self) -> Set<Seq<char>> {
        self.found@
    }

    /// Whether a name remains to be followed.
    pub open spec fn goes_on(&self) -> bool {
        self@.followed < self@.names.len() && self@.depths[self@.followed] < self.limit()
    }

    /// Begins at a function.
    pub fn begin(start: &str, max_depth: usize) -> (r: Self)
        ensures
            r.wf(),
            r.limit() == max_depth,
            r@ == (Collected { names: seq![start@], depths: seq![0int], followed: 0 }),
    {
        let mut found = NameSet::new();
        found.insert(start);
        let mut depths: Vec<usize> = Vec::new();
        depths.push(0);
        let r = ChainCollector { found, depths, followed: 0, max_depth };
        assert(r@.names =~= seq![start@]);
        assert(r@.depths =~= seq![0int]);
        r
    }

    /// The next function to follow to its neighbours; nothing once every function
    /// that is near enough was followed.
    pub fn next_name(&self) -> (r: Option<&str>)
        requires
            self.wf(),
        ensures
            match r {
                Some(name) => self.goes_on() && name@ == self@.names[self@.followed],
                None => !self.goes_on(),
            },
    {
        let count: usize = self.found.len();
        if self.followed < count && self.depths[self.followed] < self.max_depth {
            Some(self.found.name_at(self.followed))
        } else {
            None
        }
    }

    /// Takes in the neighbours of the function that was followed.
    pub fn follow(&mut self, neighbours: &Vec<String>)
        requires
            old(self).wf(),
            old(self).goes_on(),
        ensures
            final(self).wf(),
            final(self).limit() == old(self).limit(),
            final(self)@ == followed_to(old(self)@, texts(neighbours@)),
    {
        let ghost given = self@;
        let ghost list = texts(neighbours@);
        let here: usize = self.depths[self.followed];
        let depth: usize = here + 1;
        let mut i: usize = 0;
        assert(list.take(0) =~= Seq::empty());
        while i < neighbours.len()
            invariant
                i <= neighbours@.len(),
                list == texts(neighbours@),
                self.wf(),
                self.max_depth == old(self).max_depth,
                self.followed == old(self).followed,
                self.followed < self.depths@.len(),
                self.depths@[self.followed as int] == here,
                here < self.max_depth,
                depth == here + 1,
                given == old(self)@,
                self@ == with_names(given, list.take(i as int), depth as int),
            decreases neighbours@.len() - i,
        {
            let ghost before = self@;
            let ghost had = self.depths@;
            let ghost name = list[i as int];
            proof {
                assert(list.take(i + 1).drop_last() =~= list.take(i as int));
                assert(list.take(i + 1).last() == name);
                self.found.names_are_the_members();
                assert(self.found@.contains(name) <==> before.names.contains(name));
            }
            if self.found.insert(neighbours[i].as_str()) {
                self.depths.push(depth);
                proof {
                    assert(self@.names =~= before.names.push(name));
                    assert(self@.depths =~= before.depths.push(depth as int));
                    assert forall|a: int, b: int| 0 <= a <= b < self.depths@.len() implies
                        self.depths@[a] <= self.depths@[b] by {
                        if b == had.len() && a < had.len() {
                            assert(had[a] <= here + 1);
                        }
                    }
                }
            }
            i += 1;
        }
        assert(list.take(i as int) =~= list);
        proof {
            assert(self.depths@[self.followed as int] == here);
            if self.followed + 1 < self.depths@.len() {
                assert(self.depths@[self.followed as int] <= self.depths@[self.followed + 1]);
            }
        }
        let count: usize = self.depths.len();
        assert(self.followed < count);
        self.followed = self.followed + 1;
        assert(self@.names =~= followed_to(given, list).names);
        assert(self@.depths =~= followed_to(given, list).depths);
    }

    /// The functions that were found.
    pub fn into_found(self) -> (r: NameSet)
        requires
            self.wf(),
        ensures
            r.wf(),
            r.names() == self@.names,
            r@ == self.names(),
    {
        self.found
    }
}

/// The functions at most so many calls away.
pub open spec fn within(
    start: Seq<char>,
    edges: spec_fn(Seq<char>) -> Seq<Seq<char>>,
    depth: nat,
) -> Set<Seq<char>>
    decreases depth,
{
    if depth == 0 {
        set![start]
    } else {
        let nearer = within(start, edges, (depth - 1) as nat);
        Set::new(|name: Seq<char>| nearer.contains(name) || leads_from(nearer, edges, name))
    }
}

/// Whether one of some functions leads to a name.
pub open spec fn leads_from(
    from: Set<Seq<char>>,
    edges: spec_fn(Seq<char>) -> Seq<Seq<char>>,
    name: Seq<char>,
) -> bool {
    exists|near: Seq<char>| from.contains(near) && #[trigger] edges(near).contains(name)
}

/// Whether a name is among those collected, at most so many calls away.
pub open spec fn found_within(c: Collected, name: Seq<char>, depth: int) -> bool {
    exists|i: int| 0 <= i < c.names.len() && #[trigger] c.names[i] == name && c.depths[i] <= depth
}

/// Whether what is collected is right as far as it goes: the names are as near as
/// it says, the nearest stand first, and what was followed led to all neighbours.
pub open spec fn collects(
    c: Collected,
    start: Seq<char>,
    edges: spec_fn(Seq<char>) -> Seq<Seq<char>>,
    limit: int,
) -> bool {
    &&& c.names.len() == c.depths.len()
    &&& c.names.no_duplicates()
    &&& 0 <= c.followed <= c.names.len()
    &&& found_within(c, start, 0)
    &&& forall|i: int|
        0 <= i < c.names.len() ==> 0 <= #[trigger] c.depths[i] <= limit && within(
            start,
            edges,
            c.depths[i] as nat,
        ).contains(c.names[i])
    &&& forall|i: int, j: int| 0 <= i <= j < c.depths.len() ==> c.depths[i] <= c.depths[j]
    &&& c.followed < c.depths.len() ==> forall|i: int|
        0 <= i < c.depths.len() ==> #[trigger] c.depths[i] <= c.depths[c.followed] + 1
    &&& forall|i: int, name: Seq<char>|
        0 <= i < c.followed && edges(c.names[i]).contains(name) ==> #[trigger] found_within(
            c,
            name,
            c.depths[i] + 1,
        )
}

/// Collecting begins right.
pub proof fn collecting_begins_right(
    start: Seq<char>,
    edges: spec_fn(Seq<char>) -> Seq<Seq<char>>,
    limit: int,
)
    requires
        limit >= 0,
    ensures
        collects(
            (Collected { names: seq![start], depths: seq![0int], followed: 0 }),
            start,
            edges,
            limit,
        ),
{
    let c = Collected { names: seq![start], depths: seq![0int], followed: 0 };
    assert(c.names[0] == start);
}

proof fn lemma_within_grows(
    start: Seq<char>,
    edges: spec_fn(Seq<char>) -> Seq<Seq<char>>,
    a: nat,
    b: nat,
)
    requires
        a <= b,
    ensures
        within(start, edges, a).subset_of(within(start, edges, b)),
    decreases b,
{
    if a < b {
        lemma_within_grows(start, edges, a, (b - 1) as nat);
    }
}

/// Whether what is collected is right while neighbours of the next name are added.
spec fn adds(
    c: Collected,
    more: Seq<Seq<char>>,
    start: Seq<char>,
    edges: spec_fn(Seq<char>) -> Seq<Seq<char>>,
    limit: int,
) -> bool {
    let depth = c.depths[c.followed] + 1;
    let now = with_names(c, more, depth);
    &&& collects(now, start, edges, limit)
    &&& now.followed == c.followed
    &&& c.names.len() <= now.names.len()
    &&& now.depths[c.followed] == c.depths[c.followed]
    &&& now.names[c.followed] == c.names[c.followed]
    &&& forall|name: Seq<char>| more.contains(name) ==> #[trigger] found_within(now, name, depth)
}

proof fn lemma_adding_stays_right(
    c: Collected,
    more: Seq<Seq<char>>,
    start: Seq<char>,
    edges: spec_fn(Seq<char>) -> Seq<Seq<char>>,
    limit: int,
)
    requires
        collects(c, start, edges, limit),
        c.followed < c.names.len(),
        c.depths[c.followed] < limit,
        forall|k: int|
            0 <= k < more.len() ==> edges(c.names[c.followed]).contains(#[trigger] more[k]),
    ensures
        adds(c, more, start, edges, limit),
    decreases more.len(),
{
    let depth = c.depths[c.followed] + 1;
    if more.len() > 0 {
        let init = more.drop_last();
        let name = more.last();
        assert forall|k: int| 0 <= k < init.len() implies edges(c.names[c.followed]).contains(
            #[trigger] init[k],
        ) by {
            assert(more[k] == init[k]);
        }
        lemma_adding_stays_right(c, init, start, edges, limit);
        let before = with_names(c, init, depth);
        let now = with_names(c, more, depth);
        assert(edges(c.names[c.followed]).contains(more[more.len() - 1]));
        assert(more =~= init.push(name));
        if before.names.contains(name) {
            let k = choose|k: int| 0 <= k < before.names.len() && before.names[k] == name;
            assert(before.depths[k] <= before.depths[before.followed] + 1);
            assert(found_within(before, name, depth));
            assert forall|other: Seq<char>| more.contains(other) implies #[trigger] found_within(
                now,
                other,
                depth,
            ) by {
                lemma_contains_push(init, name, other);
            }
        } else {
            let last = before.names.len() as int;
            assert(now.names[last] == name && now.depths[last] == depth);
            assert(found_within(now, name, depth));
            let here = c.names[c.followed];
            let nearer = within(start, edges, (depth - 1) as nat);
            assert(before.depths[before.followed] == depth - 1);
            assert(nearer.contains(here)) by {
                assert(within(start, edges, before.depths[before.followed] as nat).contains(
                    before.names[before.followed],
                ));
            }
            assert(leads_from(nearer, edges, name));
            assert(within(start, edges, depth as nat).contains(name));
            assert forall|other: Seq<char>, d: int| #[trigger]
                found_within(before, other, d) implies found_within(now, other, d) by {
                let k = choose|k: int|
                    0 <= k < before.names.len() && #[trigger] before.names[k] == other
                        && before.depths[k] <= d;
                assert(now.names[k] == other && now.depths[k] <= d);
            }
            assert(found_within(before, start, 0));
            assert forall|i: int| 0 <= i < now.names.len() implies 0 <= #[trigger] now.depths[i]
                <= limit && within(start, edges, now.depths[i] as nat).contains(now.names[i]) by {
                if i < last {
                    assert(now.depths[i] == before.depths[i]);
                    assert(now.names[i] == before.names[i]);
                }
            }
            assert forall|i: int, j: int| 0 <= i <= j < now.depths.len() implies now.depths[i]
                <= now.depths[j] by {
                if j == last && i < last {
                    assert(before.depths[i] <= before.depths[before.followed] + 1);
                }
            }
            assert forall|i: int| 0 <= i < now.depths.len() implies #[trigger] now.depths[i]
                <= now.depths[now.followed] + 1 by {
                if i < last {
                    assert(before.depths[i] <= before.depths[before.followed] + 1);
                }
            }
            assert(now.names.no_duplicates()) by {
                assert forall|i: int, j: int|
                    0 <= i < now.names.len() && 0 <= j < now.names.len() && i
                        != j implies now.names[i] != now.names[j] by {
                    if i == last {
                        assert(before.names[j] != name);
                    } else if j == last {
                        assert(before.names[i] != name);
                    }
                }
            }
            assert forall|i: int, other: Seq<char>|
                0 <= i < now.followed && edges(now.names[i]).contains(
                    other,
                ) implies #[trigger] found_within(now, other, now.depths[i] + 1) by {
                assert(now.names[i] == before.names[i] && now.depths[i] == before.depths[i]);
                assert(found_within(before, other, before.depths[i] + 1));
            }
            assert forall|other: Seq<char>| more.contains(other) implies #[trigger] found_within(
                now,
                other,
                depth,
            ) by {
                lemma_contains_push(init, name, other);
                if init.contains(other) {
                    assert(found_within(before, other, depth));
                }
            }
        }
    }
}

/// Collecting stays right: following the next name to its neighbours keeps what is
/// collected right.
pub proof fn following_stays_right(
    c: Collected,
    start: Seq<char>,
    edges: spec_fn(Seq<char>) -> Seq<Seq<char>>,
    limit: int,
)
    requires
        collects(c, start, edges, limit),
        c.followed < c.names.len(),
        c.depths[c.followed] < limit,
    ensures
        collects(followed_to(c, edges(c.names[c.followed])), start, edges, limit),
{
    let here = c.names[c.followed];
    let more = edges(here);
    let depth = c.depths[c.followed] + 1;
    assert forall|k: int| 0 <= k < more.len() implies edges(here).contains(#[trigger] more[k]) by {
        assert(more[k] == more[k]);
    }
    lemma_adding_stays_right(c, more, start, edges, limit);
    let added = with_names(c, more, depth);
    let now = followed_to(c, more);
    assert(now.names == added.names && now.depths == added.depths);
    assert forall|name: Seq<char>, d: int| #[trigger] found_within(added, name, d) implies
        found_within(now, name, d) by {
        let k = choose|k: int|
            0 <= k < added.names.len() && #[trigger] added.names[k] == name && added.depths[k] <= d;
        assert(now.names[k] == name);
    }
    assert(found_within(added, start, 0));
    assert forall|i: int, name: Seq<char>|
        0 <= i < now.followed && edges(now.names[i]).contains(
            name,
        ) implies #[trigger] found_within(now, name, now.depths[i] + 1) by {
        if i < added.followed {
            assert(found_within(added, name, added.depths[i] + 1));
        } else {
            assert(more.contains(name));
            assert(found_within(added, name, depth));
        }
    }
    if now.followed < now.depths.len() {
        assert(added.depths[added.followed] <= added.depths[now.followed]);
        assert forall|i: int| 0 <= i < now.depths.len() implies #[trigger] now.depths[i]
            <= now.depths[now.followed] + 1 by {
            assert(added.depths[i] <= added.depths[added.followed] + 1);
        }
    }
}

proof fn lemma_all_are_found(
    c: Collected,
    start: Seq<char>,
    edges: spec_fn(Seq<char>) -> Seq<Seq<char>>,
    limit: int,
    depth: nat,
    name: Seq<char>,
)
    requires
        collects(c, start, edges, limit),
        c.followed == c.names.len() || c.depths[c.followed] >= limit,
        depth <= limit,
        within(start, edges, depth).contains(name),
    ensures
        found_within(c, name, depth as int),
    decreases depth,
{
    if depth == 0 {
        assert(name == start);
        assert(found_within(c, start, 0));
    } else {
        let nearer = within(start, edges, (depth - 1) as nat);
        if nearer.contains(name) {
            lemma_all_are_found(c, start, edges, limit, (depth - 1) as nat, name);
            let k = choose|k: int|
                0 <= k < c.names.len() && #[trigger] c.names[k] == name && c.depths[k] <= depth - 1;
            assert(c.names[k] == name && c.depths[k] <= depth);
        } else {
            let near = choose|near: Seq<char>|
                nearer.contains(near) && #[trigger] edges(near).contains(name);
            lemma_all_are_found(c, start, edges, limit, (depth - 1) as nat, near);
            let k = choose|k: int|
                0 <= k < c.names.len() && #[trigger] c.names[k] == near && c.depths[k] <= depth - 1;
            if k >= c.followed {
                assert(c.depths[c.followed] <= c.depths[k]);
            }
            assert(found_within(c, name, c.depths[k] + 1));
            let j = choose|j: int|
                0 <= j < c.names.len() && #[trigger] c.names[j] == name && c.depths[j]
                    <= c.depths[k] + 1;
            assert(c.names[j] == name && c.depths[j] <= depth);
        }
    }
}

/// Once nothing remains to be followed, what was collected are the functions at
/// most so many calls away, and nothing else.
pub proof fn collected_functions_are_those_in_reach(
    c: Collected,
    start: Seq<char>,
    edges: spec_fn(Seq<char>) -> Seq<Seq<char>>,
    limit: nat,
    name: Seq<char>,
)
    requires
        collects(c, start, edges, limit as int),
        c.followed == c.names.len() || c.depths[c.followed] >= limit,
    ensures
        c.names.contains(name) <==> within(start, edges, limit).contains(name),
{
    if c.names.contains(name) {
        let i = choose|i: int| 0 <= i < c.names.len() && c.names[i] == name;
        assert(0 <= c.depths[i] <= limit);
        lemma_within_grows(start, edges, c.depths[i] as nat, limit);
    }
    if within(start, edges, limit).contains(name) {
        lemma_all_are_found(c, start, edges, limit as int, limit, name);
        let k = choose|k: int|
            0 <= k < c.names.len() && #[trigger] c.names[k] == name && c.depths[k] <= limit;
        assert(c.names[k] == name);
    }
}

} // verus!
