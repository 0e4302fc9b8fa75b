//! The order of texts, and a stable sort by any rank.
use vstd::prelude::*;
use crate::text::{chars_of, str_eq, texts};

verus! {

/// Whether one text stands strictly before another: by the first character in
/// which they differ, a text standing before its own extensions.
pub open spec fn before(a: Seq<char>, b: Seq<char>) -> bool
    decreases a.len(),
{
    if b.len() == 0 {
        false
    } else if a.len() == 0 {
        true
    } else if a[0] == b[0] {
        before(a.skip(1), b.skip(1))
    } else {
        (a[0] as int) < (b[0] as int)
    }
}

/// No text stands before itself.
pub proof fn before_is_irreflexive(a: Seq<char>)
    ensures
        !before(a, a),
    decreases a.len(),
{
    if a.len() > 0 {
        before_is_irreflexive(a.skip(1));
    }
}

/// Texts that stand before one another in a chain stand before one another.
pub proof fn before_is_transitive(a: Seq<char>, b: Seq<char>, c: Seq<char>)
    requires
        before(a, b),
        before(b, c),
    ensures
        before(a, c),
    decreases a.len(),
{
    if a.len() > 0 && a[0] == b[0] && b[0] == c[0] {
        before_is_transitive(a.skip(1), b.skip(1), c.skip(1));
    }
}

/// Of two different texts one stands before the other.
pub proof fn before_is_total(a: Seq<char>, b: Seq<char>)
    ensures
        before(a, b) || before(b, a) || a == b,
    decreases a.len(),
{
    if a.len() == 0 && b.len() == 0 {
        assert(a =~= b);
    } else if a.len() > 0 && b.len() > 0 && a[0] == b[0] {
        before_is_total(a.skip(1), b.skip(1));
        if a.skip(1) == b.skip(1) {
            assert(a =~= seq![a[0]] + a.skip(1));
            assert(b =~= seq![b[0]] + b.skip(1));
            assert(a =~= b);
        }
    }
}

/// Whether one text stands strictly before another.
pub fn str_before(a: &str, b: &str) -> (r: bool)
    ensures
        r == before(a@, b@),
{
    let left = chars_of(a);
    let right = chars_of(b);
    let mut i: usize = 0;
    assert(a@.skip(0) =~= a@);
    assert(b@.skip(0) =~= b@);
    while i < left.len() && i < right.len()
        invariant
            i <= left@.len(),
            i <= right@.len(),
            left@ == a@,
            right@ == b@,
            before(a@, b@) == before(a@.skip(i as int), b@.skip(i as int)),
        decreases left@.len() - i,
    {
        if left[i] != right[i] {
            return left[i] < right[i];
        }
        assert(a@.skip(i as int).skip(1) =~= a@.skip(i + 1));
        assert(b@.skip(i as int).skip(1) =~= b@.skip(i + 1));
        i += 1;
    }
    left.len() < right.len()
}

/// An ordered list of texts with one more, unless it has it already.
pub open spec fn with_text(sorted: Seq<Seq<char>>, text: Seq<char>) -> Seq<Seq<char>>
    decreases sorted.len(),
{
    if sorted.len() == 0 || before(sorted.last(), text) {
        sorted.push(text)
    } else if sorted.last() == text {
        sorted
    } else {
        with_text(sorted.drop_last(), text).push(sorted.last())
    }
}

/// Some texts in order, each once.
pub open spec fn sorted_set(list: Seq<Seq<char>>) -> Seq<Seq<char>>
    decreases list.len(),
{
    if list.len() == 0 {
        list
    } else {
        with_text(sorted_set(list.drop_last()), list.last())
    }
}

/// Whether each text stands strictly before those after it.
pub open spec fn ascending(list: Seq<Seq<char>>) -> bool {
    forall|i: int, j: int| 0 <= i < j < list.len() ==> before(#[trigger] list[i], #[trigger] list[j])
}

proof fn lemma_with_text(sorted: Seq<Seq<char>>, text: Seq<char>)
    requires
        ascending(sorted),
    ensures
        ascending(with_text(sorted, text)),
        forall|t: Seq<char>| #[trigger]
            with_text(sorted, text).contains(t) <==> sorted.contains(t) || t == text,
    decreases sorted.len(),
{
    let r = with_text(sorted, text);
    if sorted.len() == 0 || before(sorted.last(), text) {
        assert forall|i: int, j: int| 0 <= i < j < r.len() implies before(
            #[trigger] r[i],
            #[trigger] r[j],
        ) by {
            if j == sorted.len() && i < sorted.len() - 1 {
                before_is_transitive(sorted[i], sorted[sorted.len() - 1], text);
            }
        }
        assert forall|t: Seq<char>| #[trigger] r.contains(t) <==> sorted.contains(t) || t == text by {
            assert(r[sorted.len() as int] == text);
            if sorted.contains(t) {
                let i = choose|i: int| 0 <= i < sorted.len() && sorted[i] == t;
                assert(r[i] == t);
            }
        }
    } else if sorted.last() == text {
        assert(sorted[sorted.len() - 1] == text);
    } else {
        let init = sorted.drop_last();
        let last = sorted.last();
        lemma_with_text(init, text);
        let inner = with_text(init, text);
        before_is_total(last, text);
        assert(before(text, last));
        assert forall|i: int| 0 <= i < inner.len() implies before(#[trigger] inner[i], last) by {
            assert(inner.contains(inner[i]));
            if inner[i] != text {
                let k = choose|k: int| 0 <= k < init.len() && init[k] == inner[i];
                assert(before(sorted[k], sorted[sorted.len() - 1]));
            }
        }
        assert forall|t: Seq<char>| #[trigger] r.contains(t) <==> sorted.contains(t) || t == text by {
            assert(r[inner.len() as int] == last);
            if inner.contains(t) {
                let i = choose|i: int| 0 <= i < inner.len() && inner[i] == t;
                assert(r[i] == t);
            }
            if sorted.contains(t) && t != last {
                let i = choose|i: int| 0 <= i < sorted.len() && sorted[i] == t;
                assert(init[i] == t);
            }
            if init.contains(t) {
                let i = choose|i: int| 0 <= i < init.len() && init[i] == t;
                assert(sorted[i] == t);
            }
            assert(sorted[sorted.len() - 1] == last);
        }
    }
}

/// Putting texts in order keeps each of them, once, and adds none.
pub proof fn sorted_set_has_the_same_texts(list: Seq<Seq<char>>)
    ensures
        ascending(sorted_set(list)),
        forall|t: Seq<char>| #[trigger] sorted_set(list).contains(t) <==> list.contains(t),
    decreases list.len(),
{
    if list.len() > 0 {
        let init = list.drop_last();
        sorted_set_has_the_same_texts(init);
        lemma_with_text(sorted_set(init), list.last());
        assert forall|t: Seq<char>| #[trigger] sorted_set(list).contains(t) <==> list.contains(t) by {
            if list.contains(t) && t != list.last() {
                let i = choose|i: int| 0 <= i < list.len() && list[i] == t;
                assert(init[i] == t);
            }
            if init.contains(t) {
                let i = choose|i: int| 0 <= i < init.len() && init[i] == t;
                assert(list[i] == t);
            }
            assert(list[list.len() - 1] == list.last());
        }
    }
}

proof fn lemma_with_text_at(sorted: Seq<Seq<char>>, text: Seq<char>, at: int)
    requires
        0 <= at <= sorted.len(),
        at > 0 ==> before(sorted[at - 1], text) || sorted[at - 1] == text,
        forall|j: int|
            at <= j < sorted.len() ==> !before(#[trigger] sorted[j], text) && sorted[j] != text,
    ensures
        with_text(sorted, text) == (if at > 0 && sorted[at - 1] == text {
            sorted
        } else {
            sorted.insert(at, text)
        }),
    decreases sorted.len(),
{
    if at == sorted.len() {
        if at > 0 && sorted[at - 1] == text {
            before_is_irreflexive(text);
        } else {
            assert(sorted.insert(at, text) =~= sorted.push(text));
        }
    } else {
        lemma_with_text_at(sorted.drop_last(), text, at);
        if at > 0 && sorted[at - 1] == text {
            assert(sorted.drop_last().push(sorted.last()) =~= sorted);
        } else {
            assert(sorted.drop_last().insert(at, text).push(sorted.last()) =~= sorted.insert(
                at,
                text,
            ));
        }
    }
}

/// Some texts in order, each once.
pub fn sort_texts(list: Vec<String>) -> (r: Vec<String>)
    ensures
        texts(r@) == sorted_set(texts(list@)),
{
    let mut out: Vec<String> = Vec::new();
    let ghost all = list@;
    assert(texts(out@) =~= Seq::empty());
    assert(texts(all).take(0) =~= Seq::empty());
    for text in it: list
        invariant
            it.seq() == all,
            texts(out@) == sorted_set(texts(all).take(it.index())),
    {
        let ghost held = texts(out@);
        proof {
            let next = texts(all).take(it.index() + 1);
            assert(next.drop_last() =~= texts(all).take(it.index()));
            assert(next.last() == text@);
        }
        let mut at: usize = out.len();
        while at > 0 && !str_before(out[at - 1].as_str(), text.as_str()) && !str_eq(
            out[at - 1].as_str(),
            text.as_str(),
        )
            invariant
                at <= out@.len(),
                held == texts(out@),
                forall|j: int|
                    at <= j < out@.len() ==> !before(#[trigger] held[j], text@) && held[j]
                        != text@,
            decreases at,
        {
            assert(held[at - 1] == out@[at - 1]@);
            at -= 1;
        }
        proof {
            if at > 0 {
                assert(held[at - 1] == out@[at - 1]@);
            }
            lemma_with_text_at(held, text@, at as int);
        }
        if !(at > 0 && str_eq(out[at - 1].as_str(), text.as_str())) {
            let ghost t = text@;
            out.insert(at, text);
            assert(texts(out@) =~= held.insert(at as int, t));
        }
    }
    assert(texts(all).take(all.len() as int) =~= texts(all));
    out
}

/// Items that a sort can put in order.
pub trait Ranked: Sized {
    spec fn at_most(&self, other: &Self) -> bool;

    proof fn at_most_is_total(a: &Self, b: &Self)
        ensures
            a.at_most(b) || b.at_most(a),
    ;

    proof fn at_most_is_transitive(a: &Self, b: &Self, c: &Self)
        requires
            a.at_most(b),
            b.at_most(c),
        ensures
            a.at_most(c),
    ;

    fn is_at_most(&self, other: &Self) -> (r: bool)
        ensures
            r == self.at_most(other),
    ;
}

/// An ordered list with one more item, which goes after every item that ranks
/// no higher than it.
pub open spec fn inserted<T: Ranked>(s: Seq<T>, x: T) -> Seq<T>
    decreases s.len(),
{
    if s.len() == 0 || s.last().at_most(&x) {
        s.push(x)
    } else {
        inserted(s.drop_last(), x).push(s.last())
    }
}

/// The items in order of rank; items of equal rank keep the order they came in.
pub open spec fn ranked<T: Ranked>(s: Seq<T>) -> Seq<T>
    decreases s.len(),
{
    if s.len() == 0 {
        s
    } else {
        inserted(ranked(s.drop_last()), s.last())
    }
}

/// Whether each item ranks at most as high as those after it.
pub open spec fn in_rank_order<T: Ranked>(s: Seq<T>) -> bool {
    forall|i: int, j: int| 0 <= i < j < s.len() ==> (#[trigger] s[i]).at_most(#[trigger] &s[j])
}

proof fn lemma_inserted_at<T: Ranked>(s: Seq<T>, x: T, at: int)
    requires
        0 <= at <= s.len(),
        at > 0 ==> s[at - 1].at_most(&x),
        forall|j: int| at <= j < s.len() ==> !(#[trigger] s[j]).at_most(&x),
    ensures
        inserted(s, x) == s.insert(at, x),
    decreases s.len(),
{
    if at == s.len() {
        assert(s.insert(at, x) =~= s.push(x));
    } else {
        lemma_inserted_at(s.drop_last(), x, at);
        assert(s.drop_last().insert(at, x).push(s.last()) =~= s.insert(at, x));
    }
}

proof fn lemma_inserted_keeps_order<T: Ranked>(s: Seq<T>, x: T)
    requires
        in_rank_order(s),
    ensures
        in_rank_order(inserted(s, x)),
        inserted(s, x).len() == s.len() + 1,
        inserted(s, x).to_multiset() == s.to_multiset().insert(x),
        forall|i: int|
            0 <= i < s.len() + 1 ==> (#[trigger] inserted(s, x)[i]) == x || exists|j: int|
                0 <= j < s.len() && s[j] == inserted(s, x)[i],
    decreases s.len(),
{
    broadcast use vstd::seq_lib::group_to_multiset_ensures;

    if s.len() == 0 || s.last().at_most(&x) {
        assert forall|i: int| 0 <= i < s.len() implies (#[trigger] s[i]).at_most(&x) by {
            if i < s.len() - 1 {
                T::at_most_is_transitive(&s[i], &s.last(), &x);
            }
        }
        assert forall|i: int| 0 <= i < s.len() + 1 implies (#[trigger] s.push(x)[i]) == x || exists|
            j: int,
        |
            0 <= j < s.len() && s[j] == s.push(x)[i] by {
            if i < s.len() {
                assert(s[i] == s.push(x)[i]);
            }
        }
    } else {
        let init = s.drop_last();
        let last = s.last();
        lemma_inserted_keeps_order(init, x);
        let r = inserted(init, x);
        T::at_most_is_total(&last, &x);
        assert forall|i: int| 0 <= i < r.len() implies (#[trigger] r[i]).at_most(&last) by {
            if r[i] != x {
                let j = choose|j: int| 0 <= j < init.len() && init[j] == r[i];
                assert(s[j].at_most(&s[s.len() - 1]));
            }
        }
        assert forall|i: int| 0 <= i < s.len() + 1 implies (#[trigger] inserted(s, x)[i]) == x || exists|
            j: int,
        |
            0 <= j < s.len() && s[j] == inserted(s, x)[i] by {
            if i < r.len() {
                if r[i] != x {
                    let j = choose|j: int| 0 <= j < init.len() && init[j] == r[i];
                    assert(s[j] == inserted(s, x)[i]);
                }
            } else {
                assert(s[s.len() - 1] == inserted(s, x)[i]);
            }
        }
        assert(s =~= init.push(last));
        assert(s.to_multiset() =~= init.to_multiset().insert(last));
        assert(inserted(s, x).to_multiset() =~= s.to_multiset().insert(x));
    }
}

/// Sorting puts the items in order of rank, and neither adds, drops nor changes
/// one.
pub proof fn ranked_is_an_ordered_rearrangement<T: Ranked>(s: Seq<T>)
    ensures
        in_rank_order(ranked(s)),
        ranked(s).len() == s.len(),
        ranked(s).to_multiset() == s.to_multiset(),
    decreases s.len(),
{
    broadcast use vstd::seq_lib::group_to_multiset_ensures;

    if s.len() > 0 {
        ranked_is_an_ordered_rearrangement(s.drop_last());
        lemma_inserted_keeps_order(ranked(s.drop_last()), s.last());
        assert(s =~= s.drop_last().push(s.last()));
    }
}

proof fn lemma_inserted_position<T: Ranked>(s: Seq<T>, x: T) -> (at: int)
    ensures
        0 <= at <= s.len(),
        inserted(s, x) == s.insert(at, x),
        forall|j: int| at <= j < s.len() ==> !(#[trigger] s[j]).at_most(&x),
    decreases s.len(),
{
    if s.len() == 0 || s.last().at_most(&x) {
        assert(s.insert(s.len() as int, x) =~= s.push(x));
        s.len() as int
    } else {
        let at = lemma_inserted_position(s.drop_last(), x);
        assert(s.drop_last().insert(at, x).push(s.last()) =~= s.insert(at, x));
        assert forall|j: int| at <= j < s.len() implies !(#[trigger] s[j]).at_most(&x) by {
            if j < s.len() - 1 {
                assert(s.drop_last()[j] == s[j]);
            }
        }
        at
    }
}

/// Where each item of a sorted list stood before the sort: every place once, and
/// of two items that rank the same the one that came first still comes first.
pub proof fn ranked_places<T: Ranked>(s: Seq<T>) -> (places: Seq<int>)
    ensures
        places.len() == s.len(),
        ranked(s).len() == s.len(),
        forall|i: int|
            0 <= i < s.len() ==> 0 <= (#[trigger] places[i]) < s.len() && ranked(s)[i]
                == s[places[i]],
        forall|i: int, j: int|
            0 <= i < j < s.len() ==> (#[trigger] places[i]) != (#[trigger] places[j]),
        forall|k: int| 0 <= k < s.len() ==> #[trigger] places.contains(k),
        forall|i: int, j: int|
            0 <= i < j < s.len() && ranked(s)[j].at_most(&ranked(s)[i]) ==> (#[trigger] places[i])
                < (#[trigger] places[j]),
    decreases s.len(),
{
    if s.len() == 0 {
        Seq::empty()
    } else {
        let init = s.drop_last();
        let n = s.len() - 1;
        let inner = ranked_places(init);
        let at = lemma_inserted_position(ranked(init), s.last());
        let places = inner.insert(at, n);
        let r = ranked(s);
        let ri = ranked(init);
        assert(r == ri.insert(at, s.last()));
        assert forall|i: int, j: int|
            0 <= i < j < s.len() && r[j].at_most(&r[i]) implies (#[trigger] places[i])
            < (#[trigger] places[j]) by {
            if i == at {
                assert(r[j] == ri[j - 1]);
            } else if j == at {
                assert(places[i] == inner[i]);
            } else {
                let a = if i < at {
                    i
                } else {
                    i - 1
                };
                let b = if j < at {
                    j
                } else {
                    j - 1
                };
                assert(r[i] == ri[a] && r[j] == ri[b]);
                assert(places[i] == inner[a] && places[j] == inner[b]);
            }
        }
        assert forall|k: int| 0 <= k < s.len() implies #[trigger] places.contains(k) by {
            if k == n {
                assert(places[at] == k);
            } else {
                assert(inner.contains(k));
                let i = choose|i: int| 0 <= i < init.len() && inner[i] == k;
                if i < at {
                    assert(places[i] == k);
                } else {
                    assert(places[i + 1] == k);
                }
            }
        }
        places
    }
}

/// A sort changes nothing in a list that is in order already.
pub proof fn ranked_keeps_an_ordered_list<T: Ranked>(s: Seq<T>)
    requires
        in_rank_order(s),
    ensures
        ranked(s) == s,
    decreases s.len(),
{
    if s.len() > 0 {
        ranked_keeps_an_ordered_list(s.drop_last());
        if s.len() > 1 {
            assert(s[s.len() - 2].at_most(&s[s.len() - 1]));
        }
        assert(s =~= s.drop_last().push(s.last()));
    }
}

/// The items in order of rank, items of equal rank in the order they came in.
pub fn sort_by_rank<T: Ranked>(items: Vec<T>) -> (r: Vec<T>)
    ensures
        r@ == ranked(items@),
{
    let mut out: Vec<T> = Vec::new();
    let ghost all = items@;
    for x in it: items
        invariant
            it.seq() == all,
            out@ == ranked(all.take(it.index())),
    {
        let ghost next = all.take(it.index() + 1);
        assert(next.drop_last() =~= all.take(it.index()));
        assert(next.last() == x);
        let mut at: usize = out.len();
        while at > 0 && !out[at - 1].is_at_most(&x)
            invariant
                at <= out@.len(),
                forall|j: int| at <= j < out@.len() ==> !(#[trigger] out@[j]).at_most(&x),
            decreases at,
        {
            at -= 1;
        }
        proof {
            lemma_inserted_at(out@, x, at as int);
        }
        out.insert(at, x);
    }
    assert(all.take(all.len() as int) =~= all);
    out
}

} // verus!
