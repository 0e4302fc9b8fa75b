//! Typing the receivers of calls that go through a field of a field.
use vstd::prelude::*;
use crate::aggregate::{aggregate, aggregate_of};
use crate::names::{distinct, distinct_names, NameMap};
use crate::revision::maybe_text;
use crate::text::{lemma_texts_push, str_eq, texts};
use crate::types::{DispatchSite, FieldInfo, Registration, TypeInfo};

verus! {

/// How the first member of a name is declared.
pub open spec fn declared_as(members: Seq<FieldInfo>, field: Seq<char>) -> Option<Seq<char>>
    decreases members.len(),
{
    if members.len() == 0 {
        None
    } else if members[0].name@ == field {
        Some(members[0].declared_type@)
    } else {
        declared_as(members.skip(1), field)
    }
}

/// The aggregate that a definition of a type declares a field to be, or to point
/// to.
pub open spec fn field_aggregate(container: TypeInfo, field: Seq<char>) -> Option<Seq<char>> {
    match declared_as(container.members@, field) {
        Some(declared) => aggregate(declared),
        None => None,
    }
}

fn aggregate_of_field(container: &TypeInfo, field: &str) -> (r: Option<String>)
    ensures
        maybe_text(r) == field_aggregate(*container, field@),
{
    let mut i: usize = 0;
    assert(container.members@.skip(0) =~= container.members@);
    while i < container.members.len()
        invariant
            i <= container.members@.len(),
            declared_as(container.members@.skip(i as int), field@) == declared_as(
                container.members@,
                field@,
            ),
        decreases container.members@.len() - i,
    {
        assert(container.members@.skip(i as int).skip(1) =~= container.members@.skip(i + 1));
        if str_eq(container.members[i].name.as_str(), field) {
            return aggregate_of(container.members[i].declared_type.as_str());
        }
        i += 1;
    }
    None
}

/// What the definitions of a type say a field is, where they say something.
pub open spec fn field_aggregates(containers: Seq<TypeInfo>, field: Seq<char>) -> Seq<Seq<char>>
    decreases containers.len(),
{
    if containers.len() == 0 {
        Seq::empty()
    } else {
        let before = field_aggregates(containers.drop_last(), field);
        match field_aggregate(containers.last(), field) {
            Some(name) => before.push(name),
            None => before,
        }
    }
}

/// What a field is where every definition that says something says the same.
pub open spec fn agreed(containers: Seq<TypeInfo>, field: Seq<char>) -> Option<Seq<char>> {
    let said = field_aggregates(containers, field);
    if said.len() > 0 && forall|i: int| 0 <= i < said.len() ==> #[trigger] said[i] == said[0] {
        Some(said[0])
    } else {
        None
    }
}

/// What a field is, where the definitions of its type agree. A tree holds more
/// than one definition of a name; where they differ, any answer would be a guess.
pub fn agreed_field_type(containers: &Vec<TypeInfo>, field: &str) -> (r: Option<String>)
    ensures
        maybe_text(r) == agreed(containers@, field@),
{
    let mut known: Option<String> = None;
    let mut conflicting = false;
    let mut i: usize = 0;
    assert(containers@.take(0) =~= Seq::empty());
    while i < containers.len()
        invariant
            i <= containers@.len(),
            ({
                let said = field_aggregates(containers@.take(i as int), field@);
                &&& known is Some <==> said.len() > 0
                &&& known is Some ==> known->0@ == said[0]
                &&& conflicting <==> exists|k: int|
                    0 <= k < said.len() && #[trigger] said[k] != said[0]
            }),
        decreases containers@.len() - i,
    {
        let ghost said = field_aggregates(containers@.take(i as int), field@);
        let ghost more = field_aggregates(containers@.take(i + 1), field@);
        proof {
            assert(containers@.take(i + 1).drop_last() =~= containers@.take(i as int));
            assert(containers@.take(i + 1).last() == containers@[i as int]);
        }
        if let Some(name) = aggregate_of_field(&containers[i], field) {
            assert(more == said.push(name@));
            match &known {
                Some(first) => {
                    if !str_eq(first.as_str(), name.as_str()) {
                        conflicting = true;
                        assert(more[said.len() as int] != more[0]);
                    } else {
                        if conflicting {
                            let ghost k = choose|k: int|
                                0 <= k < said.len() && #[trigger] said[k] != said[0];
                            assert(more[k] != more[0]);
                        } else {
                            assert forall|k: int| 0 <= k < more.len() implies #[trigger] more[k]
                                == more[0] by {
                                if k < said.len() {
                                    assert(said[k] == said[0]);
                                }
                            }
                        }
                    }
                },
                None => {
                    known = Some(name);
                },
            }
        }
        i += 1;
    }
    assert(containers@.take(i as int) =~= containers@);
    if conflicting {
        None
    } else {
        known
    }
}

/// Whether the receiver of a site is typed by way of a field.
pub open spec fn chained(site: DispatchSite) -> bool {
    site.receiver_type is None && site.receiver_base_type is Some && site.receiver_field is Some
}

/// The definitions found under a name; none where it was not found.
pub open spec fn found_under(containers: Map<Seq<char>, Vec<TypeInfo>>, name: Seq<char>) -> Seq<
    TypeInfo,
> {
    if containers.contains_key(name) {
        containers[name]@
    } else {
        Seq::empty()
    }
}

/// The type of a site's receiver once the definitions of all types are known.
pub open spec fn receiver_of(
    site: DispatchSite,
    containers: Map<Seq<char>, Vec<TypeInfo>>,
) -> Option<Seq<char>> {
    if chained(site) {
        agreed(found_under(containers, site.receiver_base_type->0@), site.receiver_field->0@)
    } else {
        maybe_text(site.receiver_type)
    }
}

/// Finish typing the receivers the analyzer could only half-type.
///
/// A site written `file->f_op->read()` stored the type of `file` and the
/// field `f_op`. What `f_op` is declared as lives with struct file, in a
/// header the analyzer was not looking at, so the last hop happens here,
/// where the whole tree's types are available.
pub fn type_chained_receivers(
    sites: &mut Vec<DispatchSite>,
    containers: &NameMap<Vec<TypeInfo>>,
)
    requires
        containers.wf(),
    ensures
        final(sites)@.len() == old(sites)@.len(),
        forall|i: int|
            0 <= i < old(sites)@.len() ==> {
                &&& maybe_text((#[trigger] final(sites)@[i]).receiver_type) == receiver_of(
                    old(sites)@[i],
                    containers@,
                )
                &&& final(sites)@[i] == (DispatchSite {
                    receiver_type: final(sites)@[i].receiver_type,
                    ..old(sites)@[i]
                })
            },
{
    let ghost given = sites@;
    let mut i: usize = 0;
    while i < sites.len()
        invariant
            containers.wf(),
            i <= sites@.len() == given.len(),
            forall|k: int| i <= k < given.len() ==> #[trigger] sites@[k] == given[k],
            forall|k: int|
                0 <= k < i ==> {
                    &&& maybe_text((#[trigger] sites@[k]).receiver_type) == receiver_of(
                        given[k],
                        containers@,
                    )
                    &&& sites@[k] == (DispatchSite {
                        receiver_type: sites@[k].receiver_type,
                        ..given[k]
                    })
                },
        decreases given.len() - i,
    {
        assert(sites@[i as int] == given[i as int]);
        let mut found: Option<Option<String>> = None;
        if sites[i].receiver_type.is_none() {
            if let Some(base) = &sites[i].receiver_base_type {
                if let Some(field) = &sites[i].receiver_field {
                    match containers.get(base.as_str()) {
                        Some(list) => {
                            found = Some(agreed_field_type(list, field.as_str()));
                        },
                        None => {
                            found = Some(None);
                        },
                    }
                }
            }
        }
        if let Some(answer) = found {
            sites[i].receiver_type = answer;
        }
        i += 1;
    }
}

/// The types whose definitions are needed to type the receivers of some sites.
pub open spec fn bases(sites: Seq<DispatchSite>) -> Seq<Seq<char>>
    decreases sites.len(),
{
    if sites.len() == 0 {
        Seq::empty()
    } else {
        let before = bases(sites.drop_last());
        if chained(sites.last()) {
            before.push(sites.last().receiver_base_type->0@)
        } else {
            before
        }
    }
}

/// The types whose definitions are needed to type the receivers of some sites,
/// each once.
pub fn bases_to_look_up(sites: &Vec<DispatchSite>) -> (r: Vec<String>)
    ensures
        texts(r@) == distinct(bases(sites@)),
{
    let mut list: Vec<String> = Vec::new();
    let mut i: usize = 0;
    assert(sites@.take(0) =~= Seq::empty());
    assert(texts(list@) =~= Seq::empty());
    while i < sites.len()
        invariant
            i <= sites@.len(),
            texts(list@) == bases(sites@.take(i as int)),
        decreases sites@.len() - i,
    {
        proof {
            assert(sites@.take(i + 1).drop_last() =~= sites@.take(i as int));
            assert(sites@.take(i + 1).last() == sites@[i as int]);
        }
        if sites[i].receiver_type.is_none() && sites[i].receiver_field.is_some() {
            if let Some(base) = &sites[i].receiver_base_type {
                let copy = base.clone();
                proof {
                    lemma_texts_push(list@, copy);
                }
                list.push(copy);
            }
        }
        i += 1;
    }
    assert(sites@.take(i as int) =~= sites@);
    distinct_names(list)
}

/// The members that a function is installed in, each once: only the sites of
/// these can reach it.
pub fn members_to_look_up(registrations: &Vec<Registration>) -> (r: Vec<String>)
    ensures
        texts(r@) == distinct(registrations@.map_values(|r: Registration| r.member@)),
{
    let ghost members = registrations@.map_values(|r: Registration| r.member@);
    let mut list: Vec<String> = Vec::new();
    let mut i: usize = 0;
    assert(texts(list@) =~= members.take(0));
    while i < registrations.len()
        invariant
            i <= registrations@.len(),
            members == registrations@.map_values(|r: Registration| r.member@),
            texts(list@) == members.take(i as int),
        decreases registrations@.len() - i,
    {
        let member = registrations[i].member.clone();
        proof {
            lemma_texts_push(list@, member);
            assert(members.take(i + 1) =~= members.take(i as int).push(member@));
        }
        list.push(member);
        i += 1;
    }
    assert(members.take(i as int) =~= members);
    distinct_names(list)
}

/// A receiver that was typed stays as it is, and one that cannot be typed by way
/// of a field stays untyped.
pub proof fn typed_receivers_stay(
    site: DispatchSite,
    containers: Map<Seq<char>, Vec<TypeInfo>>,
)
    requires
        !chained(site),
    ensures
        receiver_of(site, containers) == maybe_text(site.receiver_type),
{
}

/// Definitions that differ on a field type no receiver.
pub proof fn definitions_that_differ_give_no_type(
    containers: Seq<TypeInfo>,
    field: Seq<char>,
    i: int,
    j: int,
)
    requires
        0 <= i < field_aggregates(containers, field).len(),
        0 <= j < field_aggregates(containers, field).len(),
        field_aggregates(containers, field)[i] != field_aggregates(containers, field)[j],
    ensures
        agreed(containers, field) is None,
{
}

} // verus!
