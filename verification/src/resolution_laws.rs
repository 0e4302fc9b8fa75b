//! What the search for indirect callers promises, said of the registrations, the
//! sites and the callers themselves.
use vstd::prelude::*;
use crate::aggregate::aggregate;
use crate::chained::{
    agreed, bases, chained, declared_as, field_aggregate, field_aggregates, found_under, receiver_of,
};
use crate::names::{distinct, distinct_names_are_the_names};
use crate::order::{before, in_rank_order, Ranked};
use crate::resolution::{
    answer_the_rows, answered, answers, answers_key, first_place, follows, grouped_by_member, key_of,
    pairs, pairs_under, pairs_with, place_of, reaches, site_of, sites_through, AnswerKey, Evidence,
    IndirectCaller, Pair,
};
use crate::text::lemma_contains_push;
use crate::types::{DispatchKind, DispatchSite, Registration, TypeInfo};

verus! {

/// Whether a caller is shown at a site: every column is that of the site.
pub open spec fn shown_at(c: IndirectCaller, s: DispatchSite) -> bool {
    &&& c.caller_name@ == s.caller_name@
    &&& c.site_file@ == s.file_path@
    &&& c.site_line == s.line
    &&& c.site_byte_start == s.byte_start
    &&& c.member@ == s.member@
    &&& c.site_kind@ == (match s.kind {
        DispatchKind::MemberArrow => "member_arrow"@,
        DispatchKind::MacroDeclared => "macro_declared"@,
    })
}

/// Whether the evidence for a caller is a registration in the type of one, seen
/// from a site that says its receiver's type or does not.
pub open spec fn by_way_of(c: IndirectCaller, r: Registration, s: DispatchSite) -> bool {
    c.evidence matches Evidence::Registered { container_type, type_matched, .. } && container_type@
        == r.container_type@ && type_matched == (s.receiver_type is Some)
}

/// Whether nothing a site says keeps it from what is installed: it does not say its
/// receiver's type, or says the type that the function is installed in.
pub open spec fn may_reach(s: DispatchSite, r: Registration) -> bool {
    s.receiver_type is None || (s.receiver_type->0)@ == r.container_type@
}

/// Whether a function is installed by one of the registrations, and a site goes
/// through the member it is installed in and may reach it.
pub open spec fn joins(
    registrations: Seq<Registration>,
    sites_by_member: Map<Seq<char>, Vec<DispatchSite>>,
    r: Registration,
    s: DispatchSite,
) -> bool {
    &&& registrations.contains(r)
    &&& sites_by_member.contains_key(r.member@)
    &&& sites_by_member[r.member@]@.contains(s)
    &&& may_reach(s, r)
}

proof fn lemma_pairs_with(r: Registration, sites: Seq<DispatchSite>, pair: Pair)
    ensures
        pairs_with(r, sites).contains(pair) <==> pair.0 == r && sites.contains(pair.1) && may_reach(
            pair.1,
            r,
        ),
    decreases sites.len(),
{
    if sites.len() > 0 {
        let init = sites.drop_last();
        lemma_pairs_with(r, init, pair);
        assert(sites =~= init.push(sites.last()));
        lemma_contains_push(init, sites.last(), pair.1);
        if reaches(sites.last(), r) {
            lemma_contains_push(pairs_with(r, init), (r, sites.last()), pair);
        }
    }
}

proof fn lemma_contains_plus<T>(a: Seq<T>, b: Seq<T>, x: T)
    ensures
        (a + b).contains(x) <==> a.contains(x) || b.contains(x),
{
    if a.contains(x) {
        let i = choose|i: int| 0 <= i < a.len() && a[i] == x;
        assert((a + b)[i] == x);
    }
    if b.contains(x) {
        let i = choose|i: int| 0 <= i < b.len() && b[i] == x;
        assert((a + b)[a.len() + i] == x);
    }
    if (a + b).contains(x) {
        let i = choose|i: int| 0 <= i < (a + b).len() && (a + b)[i] == x;
        if i < a.len() {
            assert(a[i] == x);
        } else {
            assert(b[i - a.len()] == x);
        }
    }
}

proof fn lemma_pairs(
    registrations: Seq<Registration>,
    sites_by_member: Map<Seq<char>, Vec<DispatchSite>>,
    pair: Pair,
)
    ensures
        pairs(registrations, sites_by_member).contains(pair) <==> joins(
            registrations,
            sites_by_member,
            pair.0,
            pair.1,
        ),
    decreases registrations.len(),
{
    if registrations.len() > 0 {
        let init = registrations.drop_last();
        let last = registrations.last();
        lemma_pairs(init, sites_by_member, pair);
        assert(registrations =~= init.push(last));
        lemma_contains_push(init, last, pair.0);
        if sites_by_member.contains_key(last.member@) {
            let sites = sites_by_member[last.member@]@;
            lemma_pairs_with(last, sites, pair);
            lemma_contains_plus(pairs(init, sites_by_member), pairs_with(last, sites), pair);
        }
    }
}

/// Every site that goes through a member the function is installed in, and does not
/// say that its receiver has another type, is answered: with its own columns, with
/// the type the function is installed in, and with a place of installation that no
/// other such place stands before.
pub proof fn sites_that_may_reach_are_answered(
    found: Seq<IndirectCaller>,
    registrations: Seq<Registration>,
    sites_by_member: Map<Seq<char>, Vec<DispatchSite>>,
    stated: Seq<DispatchSite>,
    r: Registration,
    s: DispatchSite,
)
    requires
        answer_the_rows(found, registrations, sites_by_member, stated),
        joins(registrations, sites_by_member, r, s),
    ensures
        exists|i: int|
            0 <= i < found.len() && shown_at(#[trigger] found[i], s) && by_way_of(found[i], r, s)
                && stands_no_later(found[i], r),
{
    let all = pairs(registrations, sites_by_member);
    lemma_pairs(registrations, sites_by_member, (r, s));
    let p = choose|p: int| 0 <= p < all.len() && all[p] == (r, s);
    let key = key_of(all[p]);
    assert(answered(found, key));
    let i = choose|i: int| 0 <= i < found.len() && answers_key((#[trigger] found[i]).answer(), key);
    assert(follows(found[i].answer(), stated, all));
    assert(place_of(all[p]) == (r.file_path@, r.line));
    assert(shown_at(found[i], s) && by_way_of(found[i], r, s) && stands_no_later(found[i], r));
}

/// Whether the place a caller shows is not after that of a registration: its file
/// does not come later, and within the file its line does not.
pub open spec fn stands_no_later(c: IndirectCaller, r: Registration) -> bool {
    c.evidence matches Evidence::Registered { registration_file, registration_line, .. } && !before(
        r.file_path@,
        registration_file@,
    ) && (r.file_path@ == registration_file@ ==> registration_line <= r.line)
}

/// Whether the place a caller shows is that of a registration.
pub open spec fn shows_place(c: IndirectCaller, r: Registration) -> bool {
    c.evidence matches Evidence::Registered { registration_file, registration_line, .. }
        && registration_file@ == r.file_path@ && registration_line == r.line
}

/// Every answer by way of a registration comes from one that is there and from a
/// site that goes through its member; an answer that claims to know the type comes
/// from a site that says that very type.
pub proof fn answers_come_from_registrations(
    found: Seq<IndirectCaller>,
    registrations: Seq<Registration>,
    sites_by_member: Map<Seq<char>, Vec<DispatchSite>>,
    stated: Seq<DispatchSite>,
    i: int,
)
    requires
        answer_the_rows(found, registrations, sites_by_member, stated),
        0 <= i < found.len(),
        found[i].evidence is Registered,
    ensures
        exists|r: Registration, s: DispatchSite| #[trigger]
            joins(registrations, sites_by_member, r, s) && shown_at(found[i], s) && by_way_of(
                found[i],
                r,
                s,
            ) && shows_place(found[i], r),
        found[i].evidence->type_matched ==> exists|r: Registration, s: DispatchSite| #[trigger]
            joins(registrations, sites_by_member, r, s) && shown_at(found[i], s)
                && s.receiver_type is Some && (s.receiver_type->0)@
                == found[i].evidence->container_type@,
{
    let all = pairs(registrations, sites_by_member);
    let answer = found[i].answer();
    assert(follows(answer, stated, all));
    let key = key_of_caller(found[i]);
    let place = (found[i].evidence->registration_file@, found[i].evidence->registration_line);
    assert(first_place(all, key, place));
    let p = choose|p: int|
        0 <= p < all.len() && key_of(#[trigger] all[p]) == key && place_of(all[p]) == place;
    assert(all.contains(all[p]));
    lemma_pairs(registrations, sites_by_member, all[p]);
    let (r, s) = all[p];
    assert(joins(registrations, sites_by_member, r, s));
    assert(shown_at(found[i], s));
}

spec fn key_of_caller(c: IndirectCaller) -> AnswerKey {
    AnswerKey {
        site: c.site(),
        container: c.evidence->container_type@,
        type_matched: c.evidence->type_matched,
    }
}

/// How many times a function is installed where a caller reaches it: for each
/// registration, the sites that the caller shows and that may reach it.
pub open spec fn installations(
    registrations: Seq<Registration>,
    sites_by_member: Map<Seq<char>, Vec<DispatchSite>>,
    c: IndirectCaller,
) -> nat
    decreases registrations.len(),
{
    if registrations.len() == 0 {
        0
    } else {
        let r = registrations.last();
        installations(registrations.drop_last(), sites_by_member, c) + (
        if sites_by_member.contains_key(r.member@) {
            sites_by_member[r.member@]@.filter(
                |s: DispatchSite| shown_at(c, s) && by_way_of(c, r, s) && may_reach(s, r),
            ).len()
        } else {
            0
        })
    }
}

proof fn lemma_under_plus(a: Seq<Pair>, b: Seq<Pair>, key: AnswerKey)
    ensures
        pairs_under(a + b, key) == pairs_under(a, key) + pairs_under(b, key),
    decreases b.len(),
{
    if b.len() == 0 {
        assert(a + b =~= a);
    } else {
        assert((a + b).drop_last() =~= a + b.drop_last());
        lemma_under_plus(a, b.drop_last(), key);
    }
}

proof fn lemma_under_with(r: Registration, sites: Seq<DispatchSite>, c: IndirectCaller)
    requires
        c.evidence is Registered,
    ensures
        pairs_under(pairs_with(r, sites), key_of_caller(c)) == sites.filter(
            |s: DispatchSite| shown_at(c, s) && by_way_of(c, r, s) && may_reach(s, r),
        ).len(),
    decreases sites.len(),
{
    reveal(Seq::filter);
    if sites.len() > 0 {
        lemma_under_with(r, sites.drop_last(), c);
        let s = sites.last();
        let before = pairs_with(r, sites.drop_last());
        if reaches(s, r) {
            assert(before.push((r, s)).drop_last() =~= before);
            assert((key_of((r, s)) == key_of_caller(c)) == (shown_at(c, s) && by_way_of(c, r, s)));
        }
    }
}

proof fn lemma_installations(
    registrations: Seq<Registration>,
    sites_by_member: Map<Seq<char>, Vec<DispatchSite>>,
    c: IndirectCaller,
)
    requires
        c.evidence is Registered,
    ensures
        pairs_under(pairs(registrations, sites_by_member), key_of_caller(c)) == installations(
            registrations,
            sites_by_member,
            c,
        ),
    decreases registrations.len(),
{
    if registrations.len() > 0 {
        let init = registrations.drop_last();
        let r = registrations.last();
        lemma_installations(init, sites_by_member, c);
        if sites_by_member.contains_key(r.member@) {
            let sites = sites_by_member[r.member@]@;
            lemma_under_with(r, sites, c);
            lemma_under_plus(pairs(init, sites_by_member), pairs_with(r, sites), key_of_caller(c));
        }
    }
}

/// The count that an answer shows is the number of installations behind it.
pub proof fn installations_are_counted(
    found: Seq<IndirectCaller>,
    registrations: Seq<Registration>,
    sites_by_member: Map<Seq<char>, Vec<DispatchSite>>,
    stated: Seq<DispatchSite>,
    i: int,
)
    requires
        answer_the_rows(found, registrations, sites_by_member, stated),
        0 <= i < found.len(),
        found[i].evidence is Registered,
    ensures
        found[i].evidence->registration_count == installations(
            registrations,
            sites_by_member,
            found[i],
        ),
{
    assert(follows(found[i].answer(), stated, pairs(registrations, sites_by_member)));
    lemma_installations(registrations, sites_by_member, found[i]);
}

/// Whether a site is answered as one that names the function itself.
pub open spec fn is_said_at(found: Seq<IndirectCaller>, s: DispatchSite) -> bool {
    exists|i: int|
        0 <= i < found.len() && shown_at(#[trigger] found[i], s)
            && found[i].evidence is StatedAtSite
}

/// The sites that name the function are answered as saying so themselves, and no
/// other site is.
pub proof fn sites_that_name_the_function_are_answered(
    found: Seq<IndirectCaller>,
    registrations: Seq<Registration>,
    sites_by_member: Map<Seq<char>, Vec<DispatchSite>>,
    stated: Seq<DispatchSite>,
)
    requires
        answer_the_rows(found, registrations, sites_by_member, stated),
    ensures
        forall|k: int| 0 <= k < stated.len() ==> is_said_at(found, #[trigger] stated[k]),
        forall|i: int|
            0 <= i < found.len() && (#[trigger] found[i]).evidence is StatedAtSite ==> exists|k: int|
                0 <= k < stated.len() && shown_at(found[i], #[trigger] stated[k]),
{
    assert forall|k: int| 0 <= k < stated.len() implies is_said_at(found, #[trigger] stated[k]) by {
        let answer = crate::resolution::Answer::Stated { site: site_of(stated[k]) };
        assert(answers(found).contains(answer));
        let i = choose|i: int| 0 <= i < answers(found).len() && answers(found)[i] == answer;
        assert(found[i].answer() == answer);
        assert(shown_at(found[i], stated[k]));
    }
    assert forall|i: int|
        0 <= i < found.len() && (#[trigger] found[i]).evidence is StatedAtSite implies exists|
        k: int,
    |
        0 <= k < stated.len() && shown_at(found[i], #[trigger] stated[k]) by {
        assert(follows(found[i].answer(), stated, pairs(registrations, sites_by_member)));
        let k = choose|k: int|
            0 <= k < stated.len() && site_of(#[trigger] stated[k]) == found[i].site();
        assert(shown_at(found[i], stated[k]));
    }
}

/// Answers come in the order of their sites: by caller, then file, line and place in
/// the file.
pub proof fn answers_come_in_the_order_of_sites(
    found: Seq<IndirectCaller>,
    registrations: Seq<Registration>,
    sites_by_member: Map<Seq<char>, Vec<DispatchSite>>,
    stated: Seq<DispatchSite>,
    i: int,
    j: int,
)
    requires
        answer_the_rows(found, registrations, sites_by_member, stated),
        0 <= i < j < found.len(),
    ensures
        !before(found[j].caller_name@, found[i].caller_name@),
        found[i].caller_name@ == found[j].caller_name@ ==> !before(
            found[j].site_file@,
            found[i].site_file@,
        ),
        found[i].caller_name@ == found[j].caller_name@ && found[i].site_file@
            == found[j].site_file@ ==> found[i].site_line <= found[j].site_line,
        found[i].caller_name@ == found[j].caller_name@ && found[i].site_file@
            == found[j].site_file@ && found[i].site_line == found[j].site_line
            ==> found[i].site_byte_start <= found[j].site_byte_start,
{
    assert(in_rank_order(found));
    assert(found[i].at_most(&found[j]));
    let a = found[i].site();
    let b = found[j].site();
    crate::order::before_is_irreflexive(a.caller);
    crate::order::before_is_irreflexive(a.file);
    if before(a.caller, b.caller) && before(b.caller, a.caller) {
        crate::order::before_is_transitive(a.caller, b.caller, a.caller);
    }
    if before(a.file, b.file) && before(b.file, a.file) {
        crate::order::before_is_transitive(a.file, b.file, a.file);
    }
}

proof fn lemma_sites_through(sites: Seq<DispatchSite>, member: Seq<char>, site: DispatchSite)
    ensures
        sites_through(sites, member).contains(site) <==> sites.contains(site) && site.member@
            == member,
    decreases sites.len(),
{
    reveal(Seq::filter);
    if sites.len() > 0 {
        let init = sites.drop_last();
        lemma_sites_through(init, member, site);
        assert(sites =~= init.push(sites.last()));
        lemma_contains_push(init, sites.last(), site);
        lemma_contains_push(sites_through(init, member), sites.last(), site);
    }
}

/// Sites are grouped under the member they go through, those that go through none
/// not at all.
pub proof fn sites_are_found_under_their_member(
    grouped: Map<Seq<char>, Vec<DispatchSite>>,
    sites: Seq<DispatchSite>,
    member: Seq<char>,
    site: DispatchSite,
)
    requires
        grouped_by_member(grouped, sites),
    ensures
        (grouped.contains_key(member) && grouped[member]@.contains(site)) <==> sites.contains(site)
            && site.member@ == member && member.len() > 0,
{
    lemma_sites_through(sites, member, site);
    if sites.contains(site) && site.member@ == member && member.len() > 0 {
        assert(sites_through(sites, member).contains(site));
        assert(sites_through(sites, member).len() > 0);
        assert(grouped.contains_key(member));
    }
}

/// Whether a member of a type is the one that a field of a name is taken to be: the
/// first of that name.
pub open spec fn is_field(container: TypeInfo, field: Seq<char>, j: int) -> bool {
    &&& 0 <= j < container.members@.len()
    &&& container.members@[j].name@ == field
    &&& forall|k: int| 0 <= k < j ==> (#[trigger] container.members@[k]).name@ != field
}

/// Whether a definition says that a field is, or points to, an aggregate.
pub open spec fn says_field_is(container: TypeInfo, field: Seq<char>, name: Seq<char>) -> bool {
    exists|j: int| #[trigger]
        is_field(container, field, j) && aggregate(container.members@[j].declared_type@) == Some(
            name,
        )
}

proof fn lemma_declared_as(members: Seq<crate::types::FieldInfo>, field: Seq<char>) -> (j: int)
    ensures
        declared_as(members, field) is Some <==> 0 <= j < members.len(),
        declared_as(members, field) is Some ==> members[j].name@ == field && declared_as(
            members,
            field,
        ) == Some(members[j].declared_type@) && forall|k: int|
            0 <= k < j ==> (#[trigger] members[k]).name@ != field,
        declared_as(members, field) is None ==> forall|k: int|
            0 <= k < members.len() ==> (#[trigger] members[k]).name@ != field,
    decreases members.len(),
{
    if members.len() == 0 {
        0
    } else if members[0].name@ == field {
        0
    } else {
        let rest = members.skip(1);
        let j = lemma_declared_as(rest, field);
        assert forall|k: int| 0 < k < members.len() implies members[k] == #[trigger] rest[k - 1] by {
        }
        if declared_as(rest, field) is Some {
            assert forall|k: int| 0 <= k < j + 1 implies (#[trigger] members[k]).name@ != field by {
                if k > 0 {
                    assert(rest[k - 1] == members[k]);
                }
            }
            j + 1
        } else {
            assert forall|k: int| 0 <= k < members.len() implies (#[trigger] members[k]).name@
                != field by {
                if k > 0 {
                    assert(rest[k - 1] == members[k]);
                }
            }
            members.len() as int
        }
    }
}

proof fn lemma_field_aggregate(container: TypeInfo, field: Seq<char>, name: Seq<char>)
    ensures
        field_aggregate(container, field) == Some(name) <==> says_field_is(container, field, name),
{
    let j = lemma_declared_as(container.members@, field);
    if field_aggregate(container, field) == Some(name) {
        assert(is_field(container, field, j));
    }
    if says_field_is(container, field, name) {
        let k = choose|k: int| #[trigger]
            is_field(container, field, k) && aggregate(container.members@[k].declared_type@) == Some(
                name,
            );
        if declared_as(container.members@, field) is Some {
            if j < k {
                assert(container.members@[j].name@ != field);
            }
            if k < j {
                assert(container.members@[k].name@ != field);
            }
        } else {
            assert(container.members@[k].name@ != field);
        }
    }
}

proof fn lemma_field_aggregates(containers: Seq<TypeInfo>, field: Seq<char>, name: Seq<char>)
    ensures
        field_aggregates(containers, field).contains(name) <==> exists|i: int|
            0 <= i < containers.len() && says_field_is(#[trigger] containers[i], field, name),
    decreases containers.len(),
{
    if containers.len() > 0 {
        let init = containers.drop_last();
        lemma_field_aggregates(init, field, name);
        let before = field_aggregates(init, field);
        lemma_field_aggregate(containers.last(), field, name);
        match field_aggregate(containers.last(), field) {
            Some(x) => lemma_contains_push(before, x, name),
            None => {},
        }
        if before.contains(name) {
            let i = choose|i: int|
                0 <= i < init.len() && says_field_is(#[trigger] init[i], field, name);
            assert(containers[i] == init[i]);
        }
        if exists|i: int|
            0 <= i < containers.len() && says_field_is(#[trigger] containers[i], field, name) {
            let i = choose|i: int|
                0 <= i < containers.len() && says_field_is(#[trigger] containers[i], field, name);
            if i < init.len() {
                assert(init[i] == containers[i]);
            }
        }
        assert(containers[containers.len() - 1] == containers.last());
    }
}

/// A field is an aggregate where some definition of its type says so and none says
/// another.
pub proof fn a_field_is_what_definitions_agree_on(
    containers: Seq<TypeInfo>,
    field: Seq<char>,
    name: Seq<char>,
)
    ensures
        agreed(containers, field) == Some(name) <==> (exists|i: int|
            0 <= i < containers.len() && says_field_is(#[trigger] containers[i], field, name))
            && forall|i: int, other: Seq<char>|
            0 <= i < containers.len() && #[trigger] says_field_is(containers[i], field, other)
                ==> other == name,
{
    let said = field_aggregates(containers, field);
    lemma_field_aggregates(containers, field, name);
    assert forall|i: int, other: Seq<char>|
        0 <= i < containers.len() && #[trigger] says_field_is(
            containers[i],
            field,
            other,
        ) implies said.contains(other) by {
        lemma_field_aggregates(containers, field, other);
    }
    if agreed(containers, field) == Some(name) {
        assert(said.contains(said[0]));
        assert forall|i: int, other: Seq<char>|
            0 <= i < containers.len() && #[trigger] says_field_is(
                containers[i],
                field,
                other,
            ) implies other == name by {
            assert(said.contains(other));
            let k = choose|k: int| 0 <= k < said.len() && said[k] == other;
            assert(said[k] == said[0]);
        }
    }
    if said.contains(name) && forall|i: int, other: Seq<char>|
        0 <= i < containers.len() && #[trigger] says_field_is(containers[i], field, other)
            ==> other == name {
        assert forall|k: int| 0 <= k < said.len() implies #[trigger] said[k] == name by {
            assert(said.contains(said[k]));
            lemma_field_aggregates(containers, field, said[k]);
            let i = choose|i: int|
                0 <= i < containers.len() && says_field_is(#[trigger] containers[i], field, said[k]);
            assert(says_field_is(containers[i], field, said[k]));
        }
    }
}

/// A receiver that is written as a field gets the type that the definitions of the
/// type of its base agree on for that field; any other keeps what it has.
pub proof fn receivers_are_typed_by_their_field(
    site: DispatchSite,
    containers: Map<Seq<char>, Vec<TypeInfo>>,
)
    ensures
        site.receiver_type is Some ==> receiver_of(site, containers) == Some(
            (site.receiver_type->0)@,
        ),
        site.receiver_type is None && (site.receiver_base_type is None
            || site.receiver_field is None) ==> receiver_of(site, containers) is None,
        site.receiver_type is None && site.receiver_base_type is Some
            && site.receiver_field is Some && !containers.contains_key(
            (site.receiver_base_type->0)@,
        ) ==> receiver_of(site, containers) is None,
        site.receiver_type is None && site.receiver_base_type is Some
            && site.receiver_field is Some && containers.contains_key((site.receiver_base_type->0)@)
            ==> receiver_of(site, containers) == agreed(
            containers[(site.receiver_base_type->0)@]@,
            (site.receiver_field->0)@,
        ),
{
    if site.receiver_base_type is Some && site.receiver_field is Some {
        let none = found_under(containers, (site.receiver_base_type->0)@);
        if none.len() == 0 {
            assert(field_aggregates(none, (site.receiver_field->0)@).len() == 0);
        }
    }
}

/// The types that are looked up are those of the bases of untyped receivers that are
/// written as fields.
pub proof fn bases_are_those_of_untyped_fields(sites: Seq<DispatchSite>, base: Seq<char>)
    ensures
        distinct(bases(sites)).contains(base) <==> exists|i: int|
            0 <= i < sites.len() && (#[trigger] sites[i]).receiver_type is None
                && sites[i].receiver_field is Some && sites[i].receiver_base_type is Some && (
            sites[i].receiver_base_type->0)@ == base,
        distinct(bases(sites)).no_duplicates(),
{
    distinct_names_are_the_names(bases(sites));
    lemma_bases(sites, base);
}

proof fn lemma_bases(sites: Seq<DispatchSite>, base: Seq<char>)
    ensures
        bases(sites).contains(base) <==> exists|i: int|
            0 <= i < sites.len() && (#[trigger] sites[i]).receiver_type is None
                && sites[i].receiver_field is Some && sites[i].receiver_base_type is Some && (
            sites[i].receiver_base_type->0)@ == base,
    decreases sites.len(),
{
    if sites.len() > 0 {
        let init = sites.drop_last();
        lemma_bases(init, base);
        let last = sites.last();
        if chained(last) {
            lemma_contains_push(bases(init), last.receiver_base_type->0@, base);
        }
        assert(sites[sites.len() - 1] == last);
        assert forall|i: int| 0 <= i < init.len() implies init[i] == #[trigger] sites[i] by {
        }
        if bases(init).contains(base) {
            let i = choose|i: int|
                0 <= i < init.len() && (#[trigger] init[i]).receiver_type is None
                    && init[i].receiver_field is Some && init[i].receiver_base_type is Some && (
                init[i].receiver_base_type->0)@ == base;
            assert(sites[i] == init[i]);
        }
    }
}

/// The members that are looked up are those of the registrations.
pub proof fn members_are_those_of_registrations(
    registrations: Seq<Registration>,
    member: Seq<char>,
)
    ensures
        distinct(registrations.map_values(|r: Registration| r.member@)).contains(member)
            <==> exists|i: int|
            0 <= i < registrations.len() && (#[trigger] registrations[i]).member@ == member,
{
    let members = registrations.map_values(|r: Registration| r.member@);
    distinct_names_are_the_names(members);
    if members.contains(member) {
        let i = choose|i: int| 0 <= i < members.len() && members[i] == member;
        assert(registrations[i].member@ == member);
    }
    if exists|i: int|
        0 <= i < registrations.len() && (#[trigger] registrations[i]).member@ == member {
        let i = choose|i: int|
            0 <= i < registrations.len() && (#[trigger] registrations[i]).member@ == member;
        assert(members[i] == member);
    }
}

} // verus!
