//! What the callers of a function do not depend on: the order in which the rows
//! come out of the store.
use vstd::prelude::*;
use vstd::seq_lib::lemma_multiset_commutative;
use crate::resolution::{
    a_site_is_one_answer, answer_key, answer_the_rows, answered, answers, answers_key, first_place,
    follows, grouped_by_member, key_of, pairs, pairs_under, pairs_with, place_before, place_of, reaches, site_of, sites_through, Answer, AnswerKey,
    IndirectCaller, Pair,
};
use crate::types::{DispatchSite, Registration};

verus! {

/// Whether two lists hold the same things, each as often, in whatever order.
pub open spec fn rearranged<T>(a: Seq<T>, b: Seq<T>) -> bool {
    a.to_multiset() == b.to_multiset()
}

/// Whether two groupings of sites have the same members, and under each member the
/// same sites in whatever order.
pub open spec fn rearranged_by_member(
    a: Map<Seq<char>, Vec<DispatchSite>>,
    b: Map<Seq<char>, Vec<DispatchSite>>,
) -> bool {
    &&& forall|member: Seq<char>| #[trigger] a.contains_key(member) <==> b.contains_key(member)
    &&& forall|member: Seq<char>| #[trigger]
        a.contains_key(member) ==> rearranged(a[member]@, b[member]@)
}

/// How often a registration makes a pair with a site of a list.
proof fn lemma_count_pairs_with(registration: Registration, sites: Seq<DispatchSite>, pair: Pair)
    ensures
        pairs_with(registration, sites).to_multiset().count(pair) == (if pair.0 == registration
            && reaches(pair.1, registration) {
            sites.to_multiset().count(pair.1)
        } else {
            0
        }),
    decreases sites.len(),
{
    broadcast use vstd::seq_lib::group_to_multiset_ensures;

    if sites.len() > 0 {
        let init = sites.drop_last();
        let last = sites.last();
        lemma_count_pairs_with(registration, init, pair);
        assert(sites =~= init.push(last));
        assert(sites.to_multiset() == init.to_multiset().insert(last));
        if reaches(last, registration) {
            let held = pairs_with(registration, init);
            assert(held.push((registration, last)).to_multiset() == held.to_multiset().insert(
                (registration, last),
            ));
        }
    }
}

/// How often a pair is made: once for each registration equal to its own and each
/// site equal to its own.
proof fn lemma_count_pairs(
    registrations: Seq<Registration>,
    sites_by_member: Map<Seq<char>, Vec<DispatchSite>>,
    pair: Pair,
)
    ensures
        pairs(registrations, sites_by_member).to_multiset().count(pair) == (
        if sites_by_member.contains_key(pair.0.member@) && reaches(pair.1, pair.0) {
            registrations.to_multiset().count(pair.0)
                * sites_by_member[pair.0.member@]@.to_multiset().count(pair.1)
        } else {
            0
        }),
    decreases registrations.len(),
{
    broadcast use vstd::seq_lib::group_to_multiset_ensures;

    let here = sites_by_member[pair.0.member@]@.to_multiset().count(pair.1);
    if registrations.len() == 0 {
        assert(registrations.to_multiset().count(pair.0) == 0);
        assert(pairs(registrations, sites_by_member).to_multiset().count(pair) == 0);
        assert(0 * here == 0) by (nonlinear_arith);
    } else {
        let init = registrations.drop_last();
        let last = registrations.last();
        lemma_count_pairs(init, sites_by_member, pair);
        assert(registrations =~= init.push(last));
        assert(registrations.to_multiset() == init.to_multiset().insert(last));
        let n = init.to_multiset().count(pair.0);
        if sites_by_member.contains_key(last.member@) {
            let held = pairs(init, sites_by_member);
            let more = pairs_with(last, sites_by_member[last.member@]@);
            lemma_multiset_commutative(held, more);
            lemma_count_pairs_with(last, sites_by_member[last.member@]@, pair);
        }
        assert((n + 1) * here == n * here + here) by (nonlinear_arith);
        assert(registrations.to_multiset().count(pair.0) == (if pair.0 == last {
            n + 1
        } else {
            n
        }));
    }
}

proof fn lemma_pairs_rearranged(
    registrations: Seq<Registration>,
    sites_by_member: Map<Seq<char>, Vec<DispatchSite>>,
    other_registrations: Seq<Registration>,
    other_sites: Map<Seq<char>, Vec<DispatchSite>>,
)
    requires
        rearranged(registrations, other_registrations),
        rearranged_by_member(sites_by_member, other_sites),
    ensures
        rearranged(
            pairs(registrations, sites_by_member),
            pairs(other_registrations, other_sites),
        ),
{
    let p = pairs(registrations, sites_by_member).to_multiset();
    let q = pairs(other_registrations, other_sites).to_multiset();
    assert forall|pair: Pair| p.count(pair) == q.count(pair) by {
        lemma_count_pairs(registrations, sites_by_member, pair);
        lemma_count_pairs(other_registrations, other_sites, pair);
        assert(sites_by_member.contains_key(pair.0.member@) <==> other_sites.contains_key(
            pair.0.member@,
        ));
    }
    assert(p =~= q);
}

proof fn lemma_rearranged_contains<T>(a: Seq<T>, b: Seq<T>, x: T)
    requires
        rearranged(a, b),
    ensures
        a.contains(x) <==> b.contains(x),
{
    broadcast use vstd::seq_lib::group_to_multiset_ensures;

    assert(a.contains(x) <==> a.to_multiset().count(x) > 0);
    assert(b.contains(x) <==> b.to_multiset().count(x) > 0);
}

proof fn lemma_pairs_under_add(a: Seq<Pair>, b: Seq<Pair>, key: AnswerKey)
    ensures
        pairs_under(a + b, key) == pairs_under(a, key) + pairs_under(b, key),
    decreases b.len(),
{
    if b.len() == 0 {
        assert(a + b =~= a);
    } else {
        assert((a + b).drop_last() =~= a + b.drop_last());
        lemma_pairs_under_add(a, b.drop_last(), key);
    }
}

/// How many pairs have a key does not depend on the order of the pairs.
proof fn lemma_pairs_under_rearranged(a: Seq<Pair>, b: Seq<Pair>, key: AnswerKey)
    requires
        rearranged(a, b),
    ensures
        pairs_under(a, key) == pairs_under(b, key),
    decreases a.len(),
{
    broadcast use vstd::seq_lib::group_to_multiset_ensures;

    assert(a.len() == a.to_multiset().len() && b.len() == b.to_multiset().len());
    if a.len() > 0 {
        let last = a.last();
        assert(a.contains(last));
        lemma_rearranged_contains(a, b, last);
        let i = choose|i: int| 0 <= i < b.len() && b[i] == last;
        let left = b.take(i);
        let right = b.skip(i + 1);
        let one = seq![last];
        assert(a.remove(a.len() - 1) =~= a.drop_last());
        assert(b.remove(i) =~= left + right);
        assert(rearranged(a.drop_last(), left + right));
        lemma_pairs_under_rearranged(a.drop_last(), left + right, key);
        assert(b =~= (left + one) + right);
        lemma_pairs_under_add(left, right, key);
        lemma_pairs_under_add(left + one, right, key);
        lemma_pairs_under_add(left, one, key);
        assert(one.drop_last() =~= Seq::<Pair>::empty());
        assert(pairs_under(one.drop_last(), key) == 0);
        assert(one.last() == last);
        assert(pairs_under(one, key) == (if key_of(last) == key {
            1nat
        } else {
            0
        }));
    }
}

proof fn lemma_first_place_rearranged(
    a: Seq<Pair>,
    b: Seq<Pair>,
    key: AnswerKey,
    place: (Seq<char>, u32),
)
    requires
        rearranged(a, b),
        first_place(a, key, place),
    ensures
        first_place(b, key, place),
{
    let i = choose|i: int|
        0 <= i < a.len() && key_of(#[trigger] a[i]) == key && place_of(a[i]) == place;
    assert(a.contains(a[i]));
    lemma_rearranged_contains(a, b, a[i]);
    let j = choose|j: int| 0 <= j < b.len() && b[j] == a[i];
    assert(key_of(b[j]) == key && place_of(b[j]) == place);
    assert forall|k: int|
        0 <= k < b.len() && key_of(#[trigger] b[k]) == key implies !place_before(
        place_of(b[k]),
        place,
    ) by {
        assert(b.contains(b[k]));
        lemma_rearranged_contains(a, b, b[k]);
        let m = choose|m: int| 0 <= m < a.len() && a[m] == b[k];
        assert(key_of(a[m]) == key);
    }
}

/// What follows from some rows follows from them in any order.
proof fn lemma_follows_rearranged(
    answer: Answer,
    stated: Seq<DispatchSite>,
    other_stated: Seq<DispatchSite>,
    a: Seq<Pair>,
    b: Seq<Pair>,
)
    requires
        rearranged(stated, other_stated),
        rearranged(a, b),
        follows(answer, stated, a),
    ensures
        follows(answer, other_stated, b),
{
    match answer {
        Answer::Stated { site } => {
            let i = choose|i: int|
                0 <= i < stated.len() && site_of(#[trigger] stated[i]) == site;
            assert(stated.contains(stated[i]));
            lemma_rearranged_contains(stated, other_stated, stated[i]);
            let j = choose|j: int| 0 <= j < other_stated.len() && other_stated[j] == stated[i];
            assert(site_of(other_stated[j]) == site);
        },
        Answer::Registered { site, container, type_matched, file, line, count } => {
            let key = AnswerKey { site, container, type_matched };
            lemma_pairs_under_rearranged(a, b, key);
            lemma_first_place_rearranged(a, b, key, (file, line));
        },
    }
}

/// Every answer that follows from the rows is among the callers that answer them.
pub proof fn what_follows_is_answered(
    answer: Answer,
    found: Seq<IndirectCaller>,
    registrations: Seq<Registration>,
    sites_by_member: Map<Seq<char>, Vec<DispatchSite>>,
    stated: Seq<DispatchSite>,
)
    requires
        answer_the_rows(found, registrations, sites_by_member, stated),
        follows(answer, stated, pairs(registrations, sites_by_member)),
    ensures
        answers(found).contains(answer),
{
    let all = pairs(registrations, sites_by_member);
    match answer {
        Answer::Stated { site } => {
            let i = choose|i: int|
                0 <= i < stated.len() && site_of(#[trigger] stated[i]) == site;
            assert(answers(found).contains(Answer::Stated { site: site_of(stated[i]) }));
        },
        Answer::Registered { site, container, type_matched, file, line, count } => {
            let key = AnswerKey { site, container, type_matched };
            let p = choose|p: int|
                0 <= p < all.len() && key_of(#[trigger] all[p]) == key && place_of(all[p]) == (
                    file,
                    line,
                );
            assert(answered(found, key_of(all[p])));
            let i = choose|i: int|
                0 <= i < found.len() && answers_key((#[trigger] found[i]).answer(), key);
            assert(answer_key(found[i].answer()) == answer_key(answer));
            a_site_is_one_answer(found[i].answer(), answer, stated, all);
            assert(answers(found)[i] == answer);
        },
    }
}

proof fn lemma_count_through(sites: Seq<DispatchSite>, member: Seq<char>, site: DispatchSite)
    ensures
        sites_through(sites, member).to_multiset().count(site) == (if site.member@ == member {
            sites.to_multiset().count(site)
        } else {
            0
        }),
    decreases sites.len(),
{
    broadcast use vstd::seq_lib::group_to_multiset_ensures;

    reveal(Seq::filter);
    if sites.len() > 0 {
        let init = sites.drop_last();
        let last = sites.last();
        lemma_count_through(init, member, site);
        assert(sites =~= init.push(last));
        assert(sites.to_multiset() == init.to_multiset().insert(last));
        let held = sites_through(init, member);
        assert(held.push(last).to_multiset() == held.to_multiset().insert(last));
        assert(sites_through(sites, member) == (if last.member@ == member {
            held.push(last)
        } else {
            held
        }));
    }
}

/// Sites in another order are grouped under the same members, the same sites under
/// each.
pub proof fn grouping_does_not_depend_on_the_order(
    grouped: Map<Seq<char>, Vec<DispatchSite>>,
    sites: Seq<DispatchSite>,
    other_grouped: Map<Seq<char>, Vec<DispatchSite>>,
    other_sites: Seq<DispatchSite>,
)
    requires
        grouped_by_member(grouped, sites),
        grouped_by_member(other_grouped, other_sites),
        rearranged(sites, other_sites),
    ensures
        rearranged_by_member(grouped, other_grouped),
{
    broadcast use vstd::seq_lib::group_to_multiset_ensures;

    assert forall|member: Seq<char>| true implies rearranged(
        #[trigger] sites_through(sites, member),
        sites_through(other_sites, member),
    ) by {
        let a = sites_through(sites, member).to_multiset();
        let b = sites_through(other_sites, member).to_multiset();
        assert forall|site: DispatchSite| a.count(site) == b.count(site) by {
            lemma_count_through(sites, member, site);
            lemma_count_through(other_sites, member, site);
        }
        assert(a =~= b);
    }
    assert forall|member: Seq<char>| #[trigger]
        grouped.contains_key(member) <==> other_grouped.contains_key(member) by {
        let a = sites_through(sites, member);
        let b = sites_through(other_sites, member);
        assert(rearranged(a, b));
        assert(a.len() == a.to_multiset().len() && b.len() == b.to_multiset().len());
    }
    assert forall|member: Seq<char>| #[trigger] grouped.contains_key(member) implies rearranged(
        grouped[member]@,
        other_grouped[member]@,
    ) by {
        assert(other_grouped.contains_key(member));
    }
}

/// The callers are the same in whatever order the rows come: as many, and each
/// answer of one list in the other, down to the place that its evidence shows and
/// the number of registrations it counts.
pub proof fn the_order_of_the_rows_does_not_matter(
    found: Seq<IndirectCaller>,
    registrations: Seq<Registration>,
    sites_by_member: Map<Seq<char>, Vec<DispatchSite>>,
    stated: Seq<DispatchSite>,
    other_found: Seq<IndirectCaller>,
    other_registrations: Seq<Registration>,
    other_sites: Map<Seq<char>, Vec<DispatchSite>>,
    other_stated: Seq<DispatchSite>,
)
    requires
        answer_the_rows(found, registrations, sites_by_member, stated),
        answer_the_rows(other_found, other_registrations, other_sites, other_stated),
        rearranged(registrations, other_registrations),
        rearranged_by_member(sites_by_member, other_sites),
        rearranged(stated, other_stated),
    ensures
        found.len() == other_found.len(),
        forall|answer: Answer| #[trigger]
            answers(found).contains(answer) <==> answers(other_found).contains(answer),
{
    let all = pairs(registrations, sites_by_member);
    let other = pairs(other_registrations, other_sites);
    lemma_pairs_rearranged(registrations, sites_by_member, other_registrations, other_sites);
    assert forall|answer: Answer| #[trigger] answers(found).contains(answer) <==> answers(
        other_found,
    ).contains(answer) by {
        if answers(found).contains(answer) {
            let i = choose|i: int| 0 <= i < answers(found).len() && answers(found)[i] == answer;
            assert(found[i].answer() == answer);
            lemma_follows_rearranged(answer, stated, other_stated, all, other);
            what_follows_is_answered(
                answer,
                other_found,
                other_registrations,
                other_sites,
                other_stated,
            );
        }
        if answers(other_found).contains(answer) {
            let i = choose|i: int|
                0 <= i < answers(other_found).len() && answers(other_found)[i] == answer;
            assert(other_found[i].answer() == answer);
            lemma_follows_rearranged(answer, other_stated, stated, other, all);
            what_follows_is_answered(answer, found, registrations, sites_by_member, stated);
        }
    }
    answers(found).unique_seq_to_set();
    answers(other_found).unique_seq_to_set();
    assert(answers(found).to_set() =~= answers(other_found).to_set());
}

} // verus!
