//! Joining dispatch sites to the functions installed in the members they
//! dispatch through. Neither side knows the answer alone: a site names a
//! member, a registration names a target, and the join is what turns them into
//! "this call can reach that function".
use vstd::prelude::*;
use crate::names::{push_under, NameMap};
use crate::order::{
    before, before_is_irreflexive, before_is_total, before_is_transitive, in_rank_order,
    ranked_is_an_ordered_rearrangement, ranked_places, sort_by_rank, str_before, Ranked,
};
use crate::text::str_eq;
use crate::types::{DispatchSite, Registration};

verus! {

/// A call site that can reach a function without naming it.
#[derive(Debug, Clone, PartialEq, Eq)]
pub struct IndirectCaller {
    /// Function containing the call, empty when the site is not in one.
    pub caller_name: String,
    pub site_file: String,
    pub site_line: u32,
    /// Byte offset of the site. Two dispatches can share a line, and without
    /// this they are one answer whose registration count is the sum of both.
    pub site_byte_start: u64,
    pub member: String,
    /// How the site was written.
    pub site_kind: String,
    /// Why this site is believed to reach the target.
    pub evidence: Evidence,
}

#[derive(Debug, Clone, PartialEq, Eq)]
pub enum Evidence {
    /// The site itself names the target. Nothing had to be joined.
    StatedAtSite,
    /// The target is installed in a member this site dispatches through.
    Registered {
        container_type: String,
        /// One of the places it is installed, and how many there are.
        registration_file: String,
        registration_line: u32,
        registration_count: usize,
        /// True when the site's receiver type is known and matches the type
        /// the function was installed in.
        type_matched: bool,
    },
}

impl Evidence {
    /// Whether nothing weaker than a matching type is behind the answer.
    pub open spec fn type_matched(self) -> bool {
        match self {
            Evidence::StatedAtSite => true,
            Evidence::Registered { type_matched, .. } => type_matched,
        }
    }

    pub fn is_type_matched(&self) -> (r: bool)
        ensures
            r == self.type_matched(),
    {
        match self {
            Evidence::StatedAtSite => true,
            Evidence::Registered { type_matched, .. } => *type_matched,
        }
    }
}

/// Where a dispatch stands and how it is written: what makes one site.
pub struct Site {
    pub caller: Seq<char>,
    pub file: Seq<char>,
    pub line: u32,
    pub byte: u64,
    pub member: Seq<char>,
    pub kind: Seq<char>,
}

/// What an answer says, apart from the strings that hold it.
pub enum Answer {
    Stated { site: Site },
    Registered {
        site: Site,
        container: Seq<char>,
        type_matched: bool,
        file: Seq<char>,
        line: u32,
        count: nat,
    },
}

/// The site of a stored row.
pub open spec fn site_of(row: DispatchSite) -> Site {
    Site {
        caller: row.caller_name@,
        file: row.file_path@,
        line: row.line,
        byte: row.byte_start,
        member: row.member@,
        kind: row.kind.text(),
    }
}

impl IndirectCaller {
    pub open spec fn site(self) -> Site {
        Site {
            caller: self.caller_name@,
            file: self.site_file@,
            line: self.site_line,
            byte: self.site_byte_start,
            member: self.member@,
            kind: self.site_kind@,
        }
    }

    pub open spec fn answer(self) -> Answer {
        match self.evidence {
            Evidence::StatedAtSite => Answer::Stated { site: self.site() },
            Evidence::Registered {
                container_type,
                registration_file,
                registration_line,
                registration_count,
                type_matched,
            } => Answer::Registered {
                site: self.site(),
                container: container_type@,
                type_matched,
                file: registration_file@,
                line: registration_line,
                count: registration_count as nat,
            },
        }
    }
}

/// The answers of a list.
pub open spec fn answers(found: Seq<IndirectCaller>) -> Seq<Answer> {
    found.map_values(|c: IndirectCaller| c.answer())
}

/// Sites in the order they are listed in: by caller, then file, line, byte,
/// member and kind.
pub open spec fn site_before(a: Site, b: Site) -> bool {
    ||| before(a.caller, b.caller)
    ||| a.caller == b.caller && {
        ||| before(a.file, b.file)
        ||| a.file == b.file && {
            ||| a.line < b.line
            ||| a.line == b.line && {
                ||| a.byte < b.byte
                ||| a.byte == b.byte && {
                    ||| before(a.member, b.member)
                    ||| a.member == b.member && before(a.kind, b.kind)
                }
            }
        }
    }
}

proof fn lemma_site_before_total(a: Site, b: Site)
    ensures
        site_before(a, b) || site_before(b, a) || a == b,
{
    before_is_total(a.caller, b.caller);
    before_is_total(a.file, b.file);
    before_is_total(a.member, b.member);
    before_is_total(a.kind, b.kind);
}

proof fn lemma_site_before_transitive(a: Site, b: Site, c: Site)
    requires
        site_before(a, b),
        site_before(b, c),
    ensures
        site_before(a, c),
{
    if before(a.caller, b.caller) && before(b.caller, c.caller) {
        before_is_transitive(a.caller, b.caller, c.caller);
    }
    if before(a.file, b.file) && before(b.file, c.file) {
        before_is_transitive(a.file, b.file, c.file);
    }
    if before(a.member, b.member) && before(b.member, c.member) {
        before_is_transitive(a.member, b.member, c.member);
    }
    if before(a.kind, b.kind) && before(b.kind, c.kind) {
        before_is_transitive(a.kind, b.kind, c.kind);
    }
}

/// A text set against another: -1 before it, 0 the same, 1 after it.
fn text_side(a: &str, b: &str) -> (r: i8)
    ensures
        r == (if a@ == b@ {
            0int
        } else if before(a@, b@) {
            -1
        } else {
            1
        }),
        r == 1 ==> before(b@, a@),
{
    proof {
        before_is_total(a@, b@);
    }
    if str_eq(a, b) {
        0
    } else if str_before(a, b) {
        -1
    } else {
        1
    }
}

impl Ranked for IndirectCaller {
    open spec fn at_most(&self, other: &Self) -> bool {
        site_before(self.site(), other.site()) || self.site() == other.site()
    }

    proof fn at_most_is_total(a: &Self, b: &Self) {
        lemma_site_before_total(a.site(), b.site());
    }

    proof fn at_most_is_transitive(a: &Self, b: &Self, c: &Self) {
        if site_before(a.site(), b.site()) && site_before(b.site(), c.site()) {
            lemma_site_before_transitive(a.site(), b.site(), c.site());
        }
    }

    fn is_at_most(&self, other: &Self) -> (r: bool) {
        proof {
            before_is_irreflexive(self.site().caller);
            before_is_irreflexive(self.site().file);
            before_is_irreflexive(self.site().member);
            before_is_irreflexive(self.site().kind);
        }
        let by_caller: i8 = text_side(self.caller_name.as_str(), other.caller_name.as_str());
        if by_caller != 0 {
            return by_caller < 0;
        }
        let by_file: i8 = text_side(self.site_file.as_str(), other.site_file.as_str());
        if by_file != 0 {
            return by_file < 0;
        }
        if self.site_line != other.site_line {
            return self.site_line < other.site_line;
        }
        if self.site_byte_start != other.site_byte_start {
            return self.site_byte_start < other.site_byte_start;
        }
        let by_member: i8 = text_side(self.member.as_str(), other.member.as_str());
        if by_member != 0 {
            return by_member < 0;
        }
        let by_kind: i8 = text_side(self.site_kind.as_str(), other.site_kind.as_str());
        by_kind <= 0
    }
}

/// Whether a site can reach what a registration installs, given that both name
/// the same member: a site that states its receiver's type reaches only what
/// is installed in that type.
pub open spec fn reaches(site: DispatchSite, registration: Registration) -> bool {
    match site.receiver_type {
        Some(receiver) => receiver@ == registration.container_type@,
        None => true,
    }
}

/// A registration and a site it joins with.
pub type Pair = (Registration, DispatchSite);

/// The pairs that one registration makes with a list of sites.
pub open spec fn pairs_with(registration: Registration, sites: Seq<DispatchSite>) -> Seq<Pair>
    decreases sites.len(),
{
    if sites.len() == 0 {
        Seq::empty()
    } else if reaches(sites.last(), registration) {
        pairs_with(registration, sites.drop_last()).push((registration, sites.last()))
    } else {
        pairs_with(registration, sites.drop_last())
    }
}

/// Every registration with every site that dispatches through its member and
/// can reach it.
pub open spec fn pairs(
    registrations: Seq<Registration>,
    sites_by_member: Map<Seq<char>, Vec<DispatchSite>>,
) -> Seq<Pair>
    decreases registrations.len(),
{
    if registrations.len() == 0 {
        Seq::empty()
    } else {
        let last = registrations.last();
        let before = pairs(registrations.drop_last(), sites_by_member);
        if sites_by_member.contains_key(last.member@) {
            before + pairs_with(last, sites_by_member[last.member@]@)
        } else {
            before
        }
    }
}

/// What makes two pairs one answer: the site, the type the function is
/// installed in, and whether the site states that type.
pub struct AnswerKey {
    pub site: Site,
    pub container: Seq<char>,
    pub type_matched: bool,
}

pub open spec fn key_of(pair: Pair) -> AnswerKey {
    AnswerKey {
        site: site_of(pair.1),
        container: pair.0.container_type@,
        type_matched: pair.1.receiver_type is Some,
    }
}

/// How many pairs have a key.
pub open spec fn pairs_under(pairs: Seq<Pair>, key: AnswerKey) -> nat
    decreases pairs.len(),
{
    if pairs.len() == 0 {
        0
    } else {
        pairs_under(pairs.drop_last(), key) + (if key_of(pairs.last()) == key {
            1nat
        } else {
            0
        })
    }
}

/// Places in a source tree, by file and then line.
pub open spec fn place_before(a: (Seq<char>, u32), b: (Seq<char>, u32)) -> bool {
    before(a.0, b.0) || (a.0 == b.0 && a.1 < b.1)
}

pub open spec fn place_of(pair: Pair) -> (Seq<char>, u32) {
    (pair.0.file_path@, pair.0.line)
}

/// Whether a place is the first of those where a key's pairs are installed.
pub open spec fn first_place(pairs: Seq<Pair>, key: AnswerKey, place: (Seq<char>, u32)) -> bool {
    &&& exists|i: int|
        0 <= i < pairs.len() && key_of(#[trigger] pairs[i]) == key && place_of(pairs[i]) == place
    &&& forall|i: int|
        0 <= i < pairs.len() && key_of(#[trigger] pairs[i]) == key ==> !place_before(
            place_of(pairs[i]),
            place,
        )
}

/// Whether an answer follows from the rows: a stated one from a site that names
/// the target, a registered one from all the pairs that share its key.
pub open spec fn follows(answer: Answer, stated: Seq<DispatchSite>, pairs: Seq<Pair>) -> bool {
    match answer {
        Answer::Stated { site } => exists|i: int|
            0 <= i < stated.len() && site_of(#[trigger] stated[i]) == site,
        Answer::Registered { site, container, type_matched, file, line, count } => {
            let key = AnswerKey { site, container, type_matched };
            &&& count == pairs_under(pairs, key)
            &&& first_place(pairs, key, (file, line))
        },
    }
}

proof fn lemma_place_before_steps(a: (Seq<char>, u32), b: (Seq<char>, u32), c: (Seq<char>, u32))
    ensures
        !place_before(a, a),
        place_before(a, b) && place_before(b, c) ==> place_before(a, c),
        place_before(a, b) || place_before(b, a) || a == b,
{
    before_is_irreflexive(a.0);
    before_is_total(a.0, b.0);
    if before(a.0, b.0) && before(b.0, c.0) {
        before_is_transitive(a.0, b.0, c.0);
    }
}

/// One answer while it is being put together.
struct Group {
    site: DispatchSiteRef,
    container_type: String,
    type_matched: bool,
    file: String,
    line: u32,
    count: usize,
}

/// The parts of a site that an answer shows.
struct DispatchSiteRef {
    caller_name: String,
    file_path: String,
    line: u32,
    byte_start: u64,
    member: String,
    kind: String,
}

impl DispatchSiteRef {
    spec fn site(self) -> Site {
        Site {
            caller: self.caller_name@,
            file: self.file_path@,
            line: self.line,
            byte: self.byte_start,
            member: self.member@,
            kind: self.kind@,
        }
    }

    fn of(row: &DispatchSite) -> (r: Self)
        ensures
            r.site() == site_of(*row),
    {
        DispatchSiteRef {
            caller_name: row.caller_name.clone(),
            file_path: row.file_path.clone(),
            line: row.line,
            byte_start: row.byte_start,
            member: row.member.clone(),
            kind: String::from_str(row.kind.as_str()),
        }
    }

    fn is(&self, row: &DispatchSite) -> (r: bool)
        ensures
            r == (self.site() == site_of(*row)),
    {
        str_eq(self.caller_name.as_str(), row.caller_name.as_str()) && str_eq(
            self.file_path.as_str(),
            row.file_path.as_str(),
        ) && self.line == row.line && self.byte_start == row.byte_start && str_eq(
            self.member.as_str(),
            row.member.as_str(),
        ) && str_eq(self.kind.as_str(), row.kind.as_str())
    }

    fn caller(self, evidence: Evidence) -> (r: IndirectCaller)
        ensures
            r.site() == self.site(),
            r.evidence == evidence,
    {
        IndirectCaller {
            caller_name: self.caller_name,
            site_file: self.file_path,
            site_line: self.line,
            site_byte_start: self.byte_start,
            member: self.member,
            site_kind: self.kind,
            evidence,
        }
    }
}

impl Group {
    spec fn key(self) -> AnswerKey {
        AnswerKey {
            site: self.site.site(),
            container: self.container_type@,
            type_matched: self.type_matched,
        }
    }
}

/// What holds of the groups once some pairs have been taken in.
spec fn groups_hold(groups: Seq<Group>, seen: Seq<Pair>) -> bool {
    &&& forall|i: int|
        0 <= i < groups.len() ==> (#[trigger] groups[i]).count == pairs_under(seen, groups[i].key())
            && first_place(seen, groups[i].key(), (groups[i].file@, groups[i].line))
    &&& forall|i: int, j: int|
        0 <= i < j < groups.len() ==> (#[trigger] groups[i]).key() != (#[trigger] groups[j]).key()
    &&& forall|p: int|
        0 <= p < seen.len() ==> has_key(groups, key_of(#[trigger] seen[p]))
}

spec fn has_key(groups: Seq<Group>, key: AnswerKey) -> bool {
    exists|i: int| 0 <= i < groups.len() && (#[trigger] groups[i]).key() == key
}

proof fn lemma_pairs_under_is_zero(seen: Seq<Pair>, key: AnswerKey)
    requires
        forall|p: int| 0 <= p < seen.len() ==> key_of(#[trigger] seen[p]) != key,
    ensures
        pairs_under(seen, key) == 0,
    decreases seen.len(),
{
    if seen.len() > 0 {
        lemma_pairs_under_is_zero(seen.drop_last(), key);
    }
}

proof fn lemma_pairs_under_bound(seen: Seq<Pair>, key: AnswerKey)
    ensures
        pairs_under(seen, key) <= seen.len(),
    decreases seen.len(),
{
    if seen.len() > 0 {
        lemma_pairs_under_bound(seen.drop_last(), key);
    }
}

/// A further pair leaves the first place of every other key alone, and moves
/// that of its own key only to its own place, when that is before it.
proof fn lemma_first_place_step(
    seen: Seq<Pair>,
    pair: Pair,
    key: AnswerKey,
    place: (Seq<char>, u32),
)
    requires
        first_place(seen, key, place),
    ensures
        key_of(pair) != key ==> first_place(seen.push(pair), key, place),
        key_of(pair) == key && !place_before(place_of(pair), place) ==> first_place(
            seen.push(pair),
            key,
            place,
        ),
        key_of(pair) == key && place_before(place_of(pair), place) ==> first_place(
            seen.push(pair),
            key,
            place_of(pair),
        ),
{
    let more = seen.push(pair);
    let i = choose|i: int|
        0 <= i < seen.len() && key_of(#[trigger] seen[i]) == key && place_of(seen[i]) == place;
    assert(more[i] == seen[i]);
    assert(more[seen.len() as int] == pair);
    if key_of(pair) == key && place_before(place_of(pair), place) {
        assert forall|p: int|
            0 <= p < more.len() && key_of(#[trigger] more[p]) == key implies !place_before(
            place_of(more[p]),
            place_of(pair),
        ) by {
            if p < seen.len() {
                assert(more[p] == seen[p]);
                if place_before(place_of(more[p]), place_of(pair)) {
                    lemma_place_before_steps(place_of(more[p]), place_of(pair), place);
                }
            } else {
                lemma_place_before_steps(place_of(pair), place, place);
            }
        }
    }
}

proof fn lemma_first_place_alone(seen: Seq<Pair>, pair: Pair)
    requires
        forall|p: int| 0 <= p < seen.len() ==> key_of(#[trigger] seen[p]) != key_of(pair),
    ensures
        first_place(seen.push(pair), key_of(pair), place_of(pair)),
{
    let more = seen.push(pair);
    assert(more[seen.len() as int] == pair);
    assert forall|p: int|
        0 <= p < more.len() && key_of(#[trigger] more[p]) == key_of(pair) implies !place_before(
        place_of(more[p]),
        place_of(pair),
    ) by {
        if p < seen.len() {
            assert(more[p] == seen[p]);
        } else {
            lemma_place_before_steps(place_of(pair), place_of(pair), place_of(pair));
        }
    }
}

/// Takes one more pair into the groups.
fn take_pair(groups: Vec<Group>, registration: &Registration, site: &DispatchSite, seen: Ghost<Seq<Pair>>) -> (r: Vec<Group>)
    requires
        groups_hold(groups@, seen@),
        seen@.len() < usize::MAX,
    ensures
        groups_hold(r@, seen@.push((*registration, *site))),
{
    let mut groups = groups;
    let type_matched = site.receiver_type.is_some();
    let ghost pair: Pair = (*registration, *site);
    let ghost more = seen@.push(pair);
    let mut i: usize = 0;
    proof {
        assert(more.drop_last() =~= seen@);
    }
    while i < groups.len()
        invariant
            i <= groups@.len(),
            groups_hold(groups@, seen@),
            seen@.len() < usize::MAX,
            pair == (*registration, *site),
            more == seen@.push(pair),
            more.drop_last() == seen@,
            type_matched == site.receiver_type is Some,
            forall|j: int| 0 <= j < i ==> (#[trigger] groups@[j]).key() != key_of(pair),
        decreases groups@.len() - i,
    {
        if groups[i].site.is(site) && str_eq(
            groups[i].container_type.as_str(),
            registration.container_type.as_str(),
        ) && groups[i].type_matched == type_matched {
            let ghost held = groups@;
            let g = &groups[i];
            let ghost key = g.key();
            proof {
                lemma_pairs_under_bound(seen@, key);
                lemma_first_place_step(seen@, pair, key, (g.file@, g.line));
            }
            let side: i8 = text_side(registration.file_path.as_str(), g.file.as_str());
            let moves = side < 0 || (side == 0 && registration.line < g.line);
            proof {
                before_is_irreflexive(registration.file_path@);
                if side == 1 && before(registration.file_path@, g.file@) {
                    before_is_transitive(registration.file_path@, g.file@, registration.file_path@);
                }
                assert(moves == place_before(place_of(pair), (g.file@, g.line)));
            }
            groups[i].count = groups[i].count + 1;
            if moves {
                groups[i].file = registration.file_path.clone();
                groups[i].line = registration.line;
            }
            proof {
                assert forall|j: int| 0 <= j < groups@.len() implies (#[trigger] groups@[j]).count
                    == pairs_under(more, groups@[j].key()) && first_place(
                    more,
                    groups@[j].key(),
                    (groups@[j].file@, groups@[j].line),
                ) by {
                    if j != i {
                        assert(groups@[j] == held[j]);
                        assert(held[j].key() != held[i as int].key());
                        lemma_first_place_step(
                            seen@,
                            pair,
                            held[j].key(),
                            (held[j].file@, held[j].line),
                        );
                    }
                }
                assert forall|p: int| 0 <= p < more.len() implies has_key(
                    groups@,
                    key_of(#[trigger] more[p]),
                ) by {
                    if p < seen@.len() {
                        assert(has_key(held, key_of(seen@[p])));
                        let j = choose|j: int|
                            0 <= j < held.len() && (#[trigger] held[j]).key() == key_of(seen@[p]);
                        assert(groups@[j].key() == key_of(more[p]));
                    } else {
                        assert(groups@[i as int].key() == key_of(pair));
                    }
                }
                assert forall|a: int, b: int| 0 <= a < b < groups@.len() implies (
                #[trigger] groups@[a]).key() != (#[trigger] groups@[b]).key() by {
                    assert(groups@[a].key() == held[a].key());
                    assert(groups@[b].key() == held[b].key());
                }
            }
            return groups;
        }
        i += 1;
    }
    let ghost held = groups@;
    proof {
        assert forall|p: int| 0 <= p < seen@.len() implies key_of(#[trigger] seen@[p]) != key_of(
            pair,
        ) by {
            assert(has_key(held, key_of(seen@[p])));
        }
        lemma_pairs_under_is_zero(seen@, key_of(pair));
        lemma_first_place_alone(seen@, pair);
    }
    groups.push(
        Group {
            site: DispatchSiteRef::of(site),
            container_type: registration.container_type.clone(),
            type_matched,
            file: registration.file_path.clone(),
            line: registration.line,
            count: 1,
        },
    );
    proof {
        let n = held.len() as int;
        assert(groups@[n].key() == key_of(pair));
        assert forall|j: int| 0 <= j < groups@.len() implies (#[trigger] groups@[j]).count
            == pairs_under(more, groups@[j].key()) && first_place(
            more,
            groups@[j].key(),
            (groups@[j].file@, groups@[j].line),
        ) by {
            if j < n {
                assert(groups@[j] == held[j]);
                lemma_first_place_step(seen@, pair, held[j].key(), (held[j].file@, held[j].line));
            }
        }
        assert forall|p: int| 0 <= p < more.len() implies has_key(
            groups@,
            key_of(#[trigger] more[p]),
        ) by {
            if p < seen@.len() {
                assert(has_key(held, key_of(seen@[p])));
                let j = choose|j: int|
                    0 <= j < held.len() && (#[trigger] held[j]).key() == key_of(seen@[p]);
                assert(groups@[j].key() == key_of(more[p]));
            }
        }
    }
    groups
}

/// Whether an answer is the one that the pairs of a key give.
pub open spec fn answers_key(answer: Answer, key: AnswerKey) -> bool {
    answer matches Answer::Registered { site, container, type_matched, .. } && AnswerKey {
        site,
        container,
        type_matched,
    } == key
}

/// The sites that name the target, each once.
fn stated_answers(stated: &[DispatchSite]) -> (found: Vec<IndirectCaller>)
    ensures
        forall|i: int|
            0 <= i < found@.len() ==> (#[trigger] found@[i]).answer() is Stated && follows(
                found@[i].answer(),
                stated@,
                Seq::empty(),
            ),
        forall|i: int, j: int|
            0 <= i < j < found@.len() ==> (#[trigger] found@[i]).site() != (
            #[trigger] found@[j]).site(),
        forall|i: int|
            0 <= i < stated@.len() ==> answers(found@).contains(
                Answer::Stated { site: site_of(#[trigger] stated@[i]) },
            ),
{
    let mut found: Vec<IndirectCaller> = Vec::new();
    let mut i: usize = 0;
    while i < stated.len()
        invariant
            i <= stated@.len(),
            forall|k: int|
                0 <= k < found@.len() ==> (#[trigger] found@[k]).answer() is Stated && follows(
                    found@[k].answer(),
                    stated@,
                    Seq::empty(),
                ),
            forall|k: int, j: int|
                0 <= k < j < found@.len() ==> (#[trigger] found@[k]).site() != (
                #[trigger] found@[j]).site(),
            forall|k: int|
                0 <= k < i ==> answers(found@).contains(
                    Answer::Stated { site: site_of(#[trigger] stated@[k]) },
                ),
        decreases stated@.len() - i,
    {
        let row = DispatchSiteRef::of(&stated[i]);
        let mut known = false;
        let mut j: usize = 0;
        while j < found.len()
            invariant
                j <= found@.len(),
                i < stated@.len(),
                row.site() == site_of(stated@[i as int]),
                known ==> exists|k: int| 0 <= k < found@.len() && (#[trigger] found@[k]).site() == row.site(),
                !known ==> forall|k: int| 0 <= k < j ==> (#[trigger] found@[k]).site() != row.site(),
            decreases found@.len() - j,
        {
            if str_eq(found[j].caller_name.as_str(), row.caller_name.as_str()) && str_eq(
                found[j].site_file.as_str(),
                row.file_path.as_str(),
            ) && found[j].site_line == row.line && found[j].site_byte_start == row.byte_start
                && str_eq(found[j].member.as_str(), row.member.as_str()) && str_eq(
                found[j].site_kind.as_str(),
                row.kind.as_str(),
            ) {
                assert(found@[j as int].site() == row.site());
                known = true;
            }
            j += 1;
        }
        let ghost held = found@;
        let ghost site = row.site();
        if !known {
            found.push(row.caller(Evidence::StatedAtSite));
            assert(site_of(stated@[i as int]) == found@[held.len() as int].site());
        }
        assert forall|k: int| 0 <= k < i + 1 implies answers(found@).contains(
            Answer::Stated { site: site_of(#[trigger] stated@[k]) },
        ) by {
            if k < i {
                let a = Answer::Stated { site: site_of(stated@[k]) };
                let at = choose|at: int| 0 <= at < answers(held).len() && answers(held)[at] == a;
                assert(answers(found@)[at] == a);
            } else if known {
                let at = choose|at: int| 0 <= at < held.len() && (#[trigger] held[at]).site() == site;
                assert(answers(found@)[at] == held[at].answer());
            } else {
                assert(answers(found@)[held.len() as int] == found@[held.len() as int].answer());
            }
        }
        i += 1;
    }
    found
}

/// The registrations joined with the sites, one group for each key.
fn joined_groups(
    registrations: &[Registration],
    sites_by_member: &NameMap<Vec<DispatchSite>>,
) -> (groups: Vec<Group>)
    requires
        sites_by_member.wf(),
        pairs(registrations@, sites_by_member@).len() <= usize::MAX,
    ensures
        groups_hold(groups@, pairs(registrations@, sites_by_member@)),
{
    let mut groups: Vec<Group> = Vec::new();
    let ghost all = pairs(registrations@, sites_by_member@);
    let ghost mut seen: Seq<Pair> = Seq::empty();
    let mut r: usize = 0;
    assert(registrations@.take(0) =~= Seq::empty());
    while r < registrations.len()
        invariant
            r <= registrations@.len(),
            sites_by_member.wf(),
            seen == pairs(registrations@.take(r as int), sites_by_member@),
            groups_hold(groups@, seen),
            pairs(registrations@, sites_by_member@).len() <= usize::MAX,
        decreases registrations@.len() - r,
    {
        let registration = &registrations[r];
        let ghost next = registrations@.take(r + 1);
        proof {
            assert(next.drop_last() =~= registrations@.take(r as int));
            lemma_pairs_grow(registrations@, sites_by_member@, r + 1);
        }
        match sites_by_member.get(registration.member.as_str()) {
            Some(sites) => {
                let ghost start = seen;
                let mut k: usize = 0;
                assert(sites@.take(0) =~= Seq::empty());
                assert(start + pairs_with(*registration, sites@.take(0)) =~= start);
                assert(sites@.take(sites@.len() as int) =~= sites@);
                while k < sites.len()
                    invariant
                        k <= sites@.len(),
                        seen == start + pairs_with(*registration, sites@.take(k as int)),
                        start.len() + pairs_with(*registration, sites@).len() <= usize::MAX,
                        groups_hold(groups@, seen),
                    decreases sites@.len() - k,
                {
                    let site = &sites[k];
                    let ghost more = sites@.take(k + 1);
                    proof {
                        assert(more.drop_last() =~= sites@.take(k as int));
                        lemma_pairs_with_grow(*registration, sites@, k + 1);
                    }
                    let can_reach = match &site.receiver_type {
                        Some(receiver) => str_eq(
                            receiver.as_str(),
                            registration.container_type.as_str(),
                        ),
                        None => true,
                    };
                    if can_reach {
                        groups = take_pair(groups, registration, site, Ghost(seen));
                        proof {
                            seen = seen.push((*registration, *site));
                        }
                    }
                    assert(seen =~= start + pairs_with(*registration, sites@.take(k + 1)));
                    k += 1;
                }
                assert(sites@.take(k as int) =~= sites@);
            },
            None => {},
        }
        r += 1;
    }
    assert(registrations@.take(r as int) =~= registrations@);
    groups
}

proof fn lemma_pairs_with_grow(registration: Registration, sites: Seq<DispatchSite>, k: int)
    requires
        0 <= k <= sites.len(),
    ensures
        pairs_with(registration, sites.take(k)).len() <= pairs_with(registration, sites).len(),
    decreases sites.len() - k,
{
    if k == sites.len() {
        assert(sites.take(k) =~= sites);
    } else {
        assert(sites.take(k + 1).drop_last() =~= sites.take(k));
        lemma_pairs_with_grow(registration, sites, k + 1);
    }
}

proof fn lemma_pairs_grow(
    registrations: Seq<Registration>,
    sites_by_member: Map<Seq<char>, Vec<DispatchSite>>,
    k: int,
)
    requires
        0 <= k <= registrations.len(),
    ensures
        pairs(registrations.take(k), sites_by_member).len() <= pairs(
            registrations,
            sites_by_member,
        ).len(),
    decreases registrations.len() - k,
{
    if k == registrations.len() {
        assert(registrations.take(k) =~= registrations);
    } else {
        assert(registrations.take(k + 1).drop_last() =~= registrations.take(k));
        lemma_pairs_grow(registrations, sites_by_member, k + 1);
    }
}

/// Whether a list of callers is what the rows say: in the order of the sites, each
/// answer once and following from the rows, with one for each site that names the
/// target and one for each key of the pairs. Of the answers about one site, the one
/// that the site states comes first.
pub open spec fn answer_the_rows(
    found: Seq<IndirectCaller>,
    registrations: Seq<Registration>,
    sites_by_member: Map<Seq<char>, Vec<DispatchSite>>,
    stated: Seq<DispatchSite>,
) -> bool {
    &&& in_rank_order(found)
    &&& answers(found).no_duplicates()
    &&& forall|i: int|
        0 <= i < found.len() ==> follows(
            (#[trigger] found[i]).answer(),
            stated,
            pairs(registrations, sites_by_member),
        )
    &&& forall|i: int|
        0 <= i < stated.len() ==> answers(found).contains(
            Answer::Stated { site: site_of(#[trigger] stated[i]) },
        )
    &&& forall|p: int|
        0 <= p < pairs(registrations, sites_by_member).len() ==> answered(
            found,
            key_of(#[trigger] pairs(registrations, sites_by_member)[p]),
        )
    &&& forall|i: int, j: int|
        0 <= i < j < found.len() && (#[trigger] found[i]).site() == (
        #[trigger] found[j]).site() ==> !(found[j].answer() is Stated)
}

/// Matches dispatch sites against the places a function is installed.
///
/// Both inputs are expected to be filtered to the revision being queried
/// already: this decides what reaches what, not what exists. A site reached
/// through registrations is one answer, however many places install the
/// function there; its evidence counts them and shows the first in the tree.
pub fn indirect_callers(
    registrations: &[Registration],
    sites_by_member: &NameMap<Vec<DispatchSite>>,
    sites_naming_target: &[DispatchSite],
) -> (found: Vec<IndirectCaller>)
    requires
        sites_by_member.wf(),
        pairs(registrations@, sites_by_member@).len() <= usize::MAX,
    ensures
        answer_the_rows(found@, registrations@, sites_by_member@, sites_naming_target@),
{
    let ghost all = pairs(registrations@, sites_by_member@);
    let mut found = stated_answers(sites_naming_target);
    let ghost stated = found@;
    let groups = joined_groups(registrations, sites_by_member);
    let ghost gs = groups@;
    for group in it: groups
        invariant
            it.seq() == gs,
            groups_hold(gs, all),
            found@.len() == stated.len() + it.index(),
            found@.take(stated.len() as int) == stated,
            forall|k: int|
                0 <= k < it.index() ==> (#[trigger] found@[stated.len() + k]).answer() == (
                Answer::Registered {
                    site: gs[k].key().site,
                    container: gs[k].key().container,
                    type_matched: gs[k].key().type_matched,
                    file: gs[k].file@,
                    line: gs[k].line,
                    count: gs[k].count as nat,
                }),
    {
        let evidence = Evidence::Registered {
            container_type: group.container_type,
            registration_file: group.file,
            registration_line: group.line,
            registration_count: group.count,
            type_matched: group.type_matched,
        };
        let ghost held = found@;
        let ghost g = group;
        found.push(group.site.caller(evidence));
        assert(found@.take(stated.len() as int) =~= stated);
        assert forall|k: int| 0 <= k < it.index() + 1 implies (#[trigger] found@[stated.len()
            + k]).answer() == (Answer::Registered {
            site: gs[k].key().site,
            container: gs[k].key().container,
            type_matched: gs[k].key().type_matched,
            file: gs[k].file@,
            line: gs[k].line,
            count: gs[k].count as nat,
        }) by {
            if k < it.index() {
                assert(found@[stated.len() + k] == held[stated.len() + k]);
            } else {
                assert(g == gs[k]);
            }
        }
    }
    let ghost listed = found@;
    let ghost n = stated.len() as int;
    assert forall|i: int| 0 <= i < n implies listed[i] == stated[i] by {
        assert(listed.take(n)[i] == stated[i]);
    }
    assert forall|i: int| 0 <= i < listed.len() implies follows(
        (#[trigger] listed[i]).answer(),
        sites_naming_target@,
        all,
    ) by {
        if i >= n {
            let k = i - n;
            assert(listed[n + k].answer() is Registered);
            assert(gs[k].count == pairs_under(all, gs[k].key()));
        } else {
            assert(stated[i].answer() is Stated);
            assert(follows(stated[i].answer(), sites_naming_target@, Seq::empty()));
        }
    }
    assert forall|i: int, j: int| 0 <= i < j < listed.len() implies (#[trigger] listed[i]).answer()
        != (#[trigger] listed[j]).answer() by {
        if j < n {
            assert(stated[i].site() != stated[j].site());
            assert(stated[i].answer() is Stated && stated[j].answer() is Stated);
        } else {
            let b = j - n;
            assert(listed[n + b].answer() is Registered);
            if i < n {
                assert(stated[i].answer() is Stated);
            } else {
                let a = i - n;
                assert(gs[a].key() != gs[b].key());
                assert(listed[n + a].answer() is Registered);
            }
        }
    }
    let sorted = sort_by_rank(found);
    proof {
        ranked_is_an_ordered_rearrangement(listed);
        let places = ranked_places(listed);
        assert forall|i: int| 0 <= i < sorted@.len() implies follows(
            (#[trigger] sorted@[i]).answer(),
            sites_naming_target@,
            all,
        ) by {
            assert(sorted@[i] == listed[places[i]]);
        }
        assert forall|i: int, j: int|
            0 <= i < answers(sorted@).len() && 0 <= j < answers(sorted@).len() && i != j implies answers(
            sorted@,
        )[i] != answers(sorted@)[j] by {
            if i < j {
                assert(places[i] != places[j]);
            } else {
                assert(places[j] != places[i]);
            }
            assert(sorted@[i] == listed[places[i]] && sorted@[j] == listed[places[j]]);
            if places[i] < places[j] {
                assert(listed[places[i]].answer() != listed[places[j]].answer());
            } else {
                assert(listed[places[j]].answer() != listed[places[i]].answer());
            }
        }
        assert forall|i: int| 0 <= i < sites_naming_target@.len() implies answers(sorted@).contains(
            Answer::Stated { site: site_of(#[trigger] sites_naming_target@[i]) },
        ) by {
            let a = Answer::Stated { site: site_of(sites_naming_target@[i]) };
            assert(answers(stated).contains(a));
            let k = choose|k: int| 0 <= k < answers(stated).len() && answers(stated)[k] == a;
            assert(listed[k] == stated[k]);
            assert(places.contains(k));
            let at = choose|at: int| 0 <= at < places.len() && places[at] == k;
            assert(answers(sorted@)[at] == a);
        }
        assert forall|p: int| 0 <= p < all.len() implies answered(
            sorted@,
            key_of(#[trigger] all[p]),
        ) by {
            let key = key_of(all[p]);
            assert(has_key(gs, key));
            let k = choose|k: int| 0 <= k < gs.len() && (#[trigger] gs[k]).key() == key;
            assert(answers_key(listed[n + k].answer(), key));
            assert(places.contains(n + k));
            let at = choose|at: int| 0 <= at < places.len() && places[at] == n + k;
            assert(answers_key(sorted@[at].answer(), key));
        }
        assert forall|i: int, j: int|
            0 <= i < j < sorted@.len() && (#[trigger] sorted@[i]).site() == (
            #[trigger] sorted@[j]).site() implies !(sorted@[j].answer() is Stated) by {
            assert(sorted@[j].at_most(&sorted@[i]));
            let a = places[i];
            let b = places[j];
            assert(a < b);
            assert(sorted@[i] == listed[a] && sorted@[j] == listed[b]);
            if b < n {
                assert(stated[a].site() != stated[b].site());
            } else {
                assert(listed[n + (b - n)].answer() is Registered);
            }
        }
    }
    sorted
}

/// Whether a list holds the answer of a key.
pub open spec fn answered(found: Seq<IndirectCaller>, key: AnswerKey) -> bool {
    exists|i: int| 0 <= i < found.len() && answers_key((#[trigger] found[i]).answer(), key)
}

/// The sites that dispatch through one member, in the order they came in.
pub open spec fn sites_through(sites: Seq<DispatchSite>, member: Seq<char>) -> Seq<DispatchSite> {
    sites.filter(|s: DispatchSite| s.member@ == member)
}

/// Whether a grouping holds, under each member that some site names, the sites that
/// dispatch through it, and nothing else.
pub open spec fn grouped_by_member(
    grouped: Map<Seq<char>, Vec<DispatchSite>>,
    sites: Seq<DispatchSite>,
) -> bool {
    &&& forall|member: Seq<char>| #[trigger]
        grouped.contains_key(member) <==> member.len() > 0 && sites_through(sites, member).len() > 0
    &&& forall|member: Seq<char>| #[trigger]
        grouped.contains_key(member) ==> grouped[member]@ == sites_through(sites, member)
}

/// Sites are grouped by the member they dispatch through, which is the key a
/// registration joins on. A site that names no member joins with nothing.
pub fn group_by_member(sites: Vec<DispatchSite>) -> (grouped: NameMap<Vec<DispatchSite>>)
    ensures
        grouped.wf(),
        grouped_by_member(grouped@, sites@),
{
    let ghost all = sites@;
    let mut grouped: NameMap<Vec<DispatchSite>> = NameMap::new();
    proof {
        reveal(Seq::filter);
    }
    for site in it: sites
        invariant
            it.seq() == all,
            grouped.wf(),
            grouped_by_member(grouped@, all.take(it.index())),
    {
        let ghost next = all.take(it.index() + 1);
        let ghost held = grouped@;
        let ghost s = site;
        proof {
            reveal(Seq::filter);
            assert(next.drop_last() =~= all.take(it.index()));
            assert(next.last() == site);
        }
        if !site.member.as_str().is_empty() {
            let member = site.member.clone();
            push_under(&mut grouped, member.as_str(), site);
        }
        proof {
            assert forall|member: Seq<char>| #[trigger] grouped@.contains_key(member) implies grouped@[member]@
                == sites_through(next, member) by {
                if member == s.member@ && s.member@.len() > 0 {
                    if !held.contains_key(member) {
                        assert(sites_through(next.drop_last(), member).len() == 0);
                        assert(sites_through(next, member) =~= seq![s]);
                    }
                } else {
                    assert(held.contains_key(member));
                }
            }
        }
    }
    assert(all.take(all.len() as int) =~= all);
    grouped
}

proof fn lemma_pairs_with(registration: Registration, sites: Seq<DispatchSite>, p: int)
    requires
        0 <= p < pairs_with(registration, sites).len(),
    ensures
        pairs_with(registration, sites)[p].0 == registration,
        sites.contains(pairs_with(registration, sites)[p].1),
        reaches(pairs_with(registration, sites)[p].1, registration),
    decreases sites.len(),
{
    let init = sites.drop_last();
    let before = pairs_with(registration, init);
    if p < before.len() {
        lemma_pairs_with(registration, init, p);
        let k = choose|k: int| 0 <= k < init.len() && init[k] == before[p].1;
        assert(sites[k] == before[p].1);
    } else {
        assert(sites[sites.len() - 1] == sites.last());
    }
}

/// Whether a registration and a site are among the rows, dispatch through the same
/// member, and do not contradict each other on the type.
pub open spec fn is_cause(
    registrations: Seq<Registration>,
    sites_by_member: Map<Seq<char>, Vec<DispatchSite>>,
    pair: Pair,
) -> bool {
    &&& registrations.contains(pair.0)
    &&& sites_by_member.contains_key(pair.0.member@)
    &&& sites_by_member[pair.0.member@]@.contains(pair.1)
    &&& reaches(pair.1, pair.0)
}

/// Every pair that is joined has a cause: its registration is one of those given,
/// and its site dispatches through the member the function is installed in.
pub proof fn pairs_have_causes(
    registrations: Seq<Registration>,
    sites_by_member: Map<Seq<char>, Vec<DispatchSite>>,
    p: int,
)
    requires
        0 <= p < pairs(registrations, sites_by_member).len(),
    ensures
        is_cause(registrations, sites_by_member, pairs(registrations, sites_by_member)[p]),
    decreases registrations.len(),
{
    let init = registrations.drop_last();
    let before = pairs(init, sites_by_member);
    let last = registrations.last();
    if p < before.len() {
        pairs_have_causes(init, sites_by_member, p);
        let k = choose|k: int| 0 <= k < init.len() && init[k] == before[p].0;
        assert(registrations[k] == before[p].0);
        assert(pairs(registrations, sites_by_member)[p] == before[p]);
    } else {
        let sites = sites_by_member[last.member@]@;
        lemma_pairs_with(last, sites, p - before.len());
        assert(registrations[registrations.len() - 1] == last);
    }
}

/// Whether a pair stands behind an answer.
pub open spec fn stands_behind(pair: Pair, answer: Answer) -> bool {
    match answer {
        Answer::Registered { site, container, type_matched, file, line, count } => {
            &&& site_of(pair.1) == site
            &&& pair.0.container_type@ == container
            &&& type_matched == (pair.1.receiver_type is Some)
            &&& type_matched ==> (pair.1.receiver_type->0)@ == container
            &&& pair.0.file_path@ == file
            &&& pair.0.line == line
        },
        Answer::Stated { site } => false,
    }
}

/// An answer by way of a registration has a cause: the function is installed at
/// the place the answer shows, in a member the site dispatches through, and the
/// site does not say that its receiver has another type.
pub proof fn registered_answers_have_a_cause(
    answer: Answer,
    stated: Seq<DispatchSite>,
    registrations: Seq<Registration>,
    sites_by_member: Map<Seq<char>, Vec<DispatchSite>>,
)
    requires
        answer is Registered,
        follows(answer, stated, pairs(registrations, sites_by_member)),
    ensures
        exists|pair: Pair| #[trigger]
            is_cause(registrations, sites_by_member, pair) && stands_behind(pair, answer),
{
    let all = pairs(registrations, sites_by_member);
    match answer {
        Answer::Registered { site, container, type_matched, file, line, count } => {
            let key = AnswerKey { site, container, type_matched };
            assert(first_place(all, key, (file, line)));
            let i = choose|i: int|
                0 <= i < all.len() && key_of(#[trigger] all[i]) == key && place_of(all[i]) == (
                    file,
                    line,
                );
            pairs_have_causes(registrations, sites_by_member, i);
            assert(is_cause(registrations, sites_by_member, all[i]) && stands_behind(
                all[i],
                answer,
            ));
        },
        Answer::Stated { site } => {},
    }
}

/// The part of an answer that tells it from others.
pub open spec fn answer_key(answer: Answer) -> Option<AnswerKey> {
    match answer {
        Answer::Registered { site, container, type_matched, .. } => Some(
            AnswerKey { site, container, type_matched },
        ),
        Answer::Stated { site } => None,
    }
}

/// A site is one answer for each type the function is installed in, however many
/// places install it there: two answers about one site and one type are the same.
pub proof fn a_site_is_one_answer(
    a: Answer,
    b: Answer,
    stated: Seq<DispatchSite>,
    pairs: Seq<Pair>,
)
    requires
        a is Registered,
        b is Registered,
        follows(a, stated, pairs),
        follows(b, stated, pairs),
        answer_key(a) == answer_key(b),
    ensures
        a == b,
{
    match (a, b) {
        (
            Answer::Registered { site, container, type_matched, file, line, count },
            Answer::Registered { file: other_file, line: other_line, .. },
        ) => {
            let key = AnswerKey { site, container, type_matched };
            assert(first_place(pairs, key, (file, line)));
            assert(first_place(pairs, key, (other_file, other_line)));
            let i = choose|i: int|
                0 <= i < pairs.len() && key_of(#[trigger] pairs[i]) == key && place_of(pairs[i]) == (
                    file,
                    line,
                );
            let j = choose|j: int|
                0 <= j < pairs.len() && key_of(#[trigger] pairs[j]) == key && place_of(pairs[j]) == (
                    other_file,
                    other_line,
                );
            assert(!place_before(place_of(pairs[i]), (other_file, other_line)));
            assert(!place_before(place_of(pairs[j]), (file, line)));
            lemma_place_before_steps((file, line), (other_file, other_line), (file, line));
        },
        _ => {},
    }
}

} // verus!
