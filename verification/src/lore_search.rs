//! Searching the emails: full text first, then regular expressions.
use vstd::prelude::*;
use crate::dates::{given_instant, given_text, in_range, instant_given, is_in_range};
use crate::dates::{signed_decimal, signed_decimal_of, Instant};
use crate::grep::limited;
use crate::lore::{all_read_as, read_emails, LoreEmailInfo, LoreRow};
use crate::names::NameSet;
use crate::patterns::{find_complaint, is_found, pattern_complaint, pattern_found};
use crate::sql::{escape, escaped};
use crate::text::{alphanumeric, chars_of, is_alphanumeric, join, joined, lemma_contains_push};
use crate::text::{lemma_texts_push, str_eq, texts};

verus! {

/// Whether full-text search keeps a character: a letter, a digit or a space.
pub open spec fn searchable(c: char) -> bool {
    alphanumeric(c) || c == ' '
}

/// The runs of characters that full-text search keeps.
pub open spec fn searchable_runs(s: Seq<char>) -> Seq<Seq<char>>
    decreases s.len(),
{
    if s.len() == 0 {
        Seq::empty()
    } else {
        let before = searchable_runs(s.drop_last());
        let c = s.last();
        if !searchable(c) {
            before
        } else if s.len() == 1 || !searchable(s[s.len() - 2]) {
            before.push(seq![c])
        } else {
            before.update(before.len() - 1, before.last().push(c))
        }
    }
}

/// What a pattern is for full-text search: its runs with a space between.
pub open spec fn full_text(pattern: Seq<char>) -> Seq<char> {
    joined(searchable_runs(pattern), " "@)
}

/// What a pattern is for full-text search, whose tokenizer takes no special
/// characters. Nothing may be left: then the whole table is searched.
pub fn full_text_pattern(pattern: &str) -> (r: String)
    ensures
        r@ == full_text(pattern@),
{
    let chars = chars_of(pattern);
    let mut out: Vec<String> = Vec::new();
    let mut current = String::new();
    let mut i: usize = 0;
    assert(texts(out@) =~= searchable_runs(chars@.take(0)));
    while i < chars.len()
        invariant
            i <= chars@.len(),
            chars@ == pattern@,
            current@.len() > 0 <==> (i > 0 && searchable(chars@[i - 1])),
            searchable_runs(chars@.take(i as int)) == (if current@.len() > 0 {
                texts(out@).push(current@)
            } else {
                texts(out@)
            }),
        decreases chars@.len() - i,
    {
        let c = chars[i];
        let ghost next = chars@.take(i + 1);
        assert(next.drop_last() =~= chars@.take(i as int));
        assert(next.last() == c);
        if is_alphanumeric(c) || c == ' ' {
            proof {
                if current@.len() > 0 {
                    assert(texts(out@).push(current@).update(
                        texts(out@).len() as int,
                        current@.push(c),
                    ) =~= texts(out@).push(current@.push(c)));
                } else {
                    assert(current@.push(c) =~= seq![c]);
                }
            }
            current.push(c);
        } else {
            if !current.as_str().is_empty() {
                proof {
                    lemma_texts_push(out@, current);
                }
                out.push(current);
                current = String::new();
            }
        }
        i += 1;
    }
    assert(chars@.take(i as int) =~= pattern@);
    if !current.as_str().is_empty() {
        proof {
            lemma_texts_push(out@, current);
        }
        out.push(current);
    }
    join(&out, " ")
}

/// The part of an email that a field names; nothing for an unknown field.
pub open spec fn field_value(row: LoreRow, field: Seq<char>) -> Option<Seq<char>> {
    if field == "from"@ {
        Some(row.from@)
    } else if field == "subject"@ {
        Some(row.subject@)
    } else if field == "body"@ {
        Some(row.body@)
    } else if field == "recipients"@ {
        Some(row.recipients@)
    } else if field == "symbols"@ {
        Some(row.symbols@)
    } else {
        None
    }
}

fn value_of_field<'a>(row: &'a LoreRow, field: &str) -> (r: Option<&'a str>)
    ensures
        match r {
            Some(value) => field_value(*row, field@) == Some(value@),
            None => field_value(*row, field@) is None,
        },
{
    if str_eq(field, "from") {
        Some(row.from.as_str())
    } else if str_eq(field, "subject") {
        Some(row.subject.as_str())
    } else if str_eq(field, "body") {
        Some(row.body.as_str())
    } else if str_eq(field, "recipients") {
        Some(row.recipients.as_str())
    } else if str_eq(field, "symbols") {
        Some(row.symbols.as_str())
    } else {
        None
    }
}

/// Whether a pattern is found in a field of an email.
pub open spec fn matches_field(row: LoreRow, field: Seq<char>, pattern: Seq<char>) -> bool {
    match field_value(row, field) {
        Some(value) => pattern_found(pattern, value),
        None => false,
    }
}

/// The emails in whose field a pattern is found.
pub open spec fn matching(rows: Seq<LoreRow>, field: Seq<char>, pattern: Seq<char>) -> Seq<LoreRow> {
    rows.filter(|row: LoreRow| matches_field(row, field, pattern))
}

/// Reads the candidates of a full-text search in whose field the pattern is
/// found, as many as the limit allows; a limit of 0 allows any number.
pub fn matching_emails(rows: Vec<LoreRow>, field: &str, pattern: &str, limit: usize) -> (r: Result<
    Vec<LoreEmailInfo>,
    String,
>)
    ensures
        match r {
            Ok(emails) => pattern_complaint(pattern@) is None && all_read_as(
                limited(matching(rows@, field@, pattern@), limit),
                emails@,
            ),
            Err(complaint) => pattern_complaint(pattern@) == Some(complaint@),
        },
{
    if let Some(complaint) = find_complaint(pattern) {
        return Err(complaint);
    }
    let ghost all = rows@;
    let ghost wanted = |row: LoreRow| matches_field(row, field@, pattern@);
    let mut found: Vec<LoreRow> = Vec::new();
    proof {
        reveal(Seq::filter);
        assert(all.take(0) =~= Seq::empty());
    }
    for row in it: rows
        invariant
            it.seq() == all,
            wanted == (|row: LoreRow| matches_field(row, field@, pattern@)),
            found@ == limited(all.take(it.index()).filter(wanted), limit),
    {
        proof {
            reveal(Seq::filter);
            assert(all.take(it.index() + 1).drop_last() =~= all.take(it.index()));
            assert(all.take(it.index() + 1).last() == row);
            let some = all.take(it.index()).filter(wanted);
            assert(some.push(row).take(limit as int) =~= if some.len() >= limit {
                some.take(limit as int)
            } else {
                some.push(row).take(limit as int)
            });
            if some.len() == limit {
                assert(some.take(limit as int) =~= some);
            }
        }
        let value = value_of_field(&row, field);
        let matched = match value {
            Some(value) => is_found(pattern, value),
            None => false,
        };
        if matched && !(limit > 0 && found.len() >= limit) {
            found.push(row);
        }
    }
    assert(all.take(all.len() as int) =~= all);
    Ok(read_emails(found))
}

/// A search that asks for more and more candidates until it has enough.
pub struct LoreSearch {
    /// How many emails are enough.
    pub target: usize,
    /// How many candidates the next round asks for.
    pub candidates: usize,
    /// How many emails the last round found.
    pub previous: usize,
    pub first_round: bool,
}

/// How many emails are enough where no limit is given.
pub const DEFAULT_SEARCH_LIMIT: usize = 10000;

/// The number of candidates from which no more are asked for.
pub const MAX_CANDIDATES: usize = 1000000;

impl LoreSearch {
    /// Begins a search: ten candidates for each email that is wanted.
    pub fn begin(limit: usize) -> (r: Self)
        requires
            limit * 10 <= usize::MAX,
        ensures
            r.first_round,
            r.previous == 0,
            r.target == (if limit > 0 {
                limit
            } else {
                DEFAULT_SEARCH_LIMIT
            }),
            r.candidates == (if limit > 0 {
                limit * 10
            } else {
                DEFAULT_SEARCH_LIMIT as int
            }),
    {
        LoreSearch {
            target: if limit > 0 {
                limit
            } else {
                DEFAULT_SEARCH_LIMIT
            },
            candidates: if limit > 0 {
                limit * 10
            } else {
                DEFAULT_SEARCH_LIMIT
            },
            previous: 0,
            first_round: true,
        }
    }

    /// Whether a round that found so many emails is the last: it has enough, or
    /// found no more than the round before, or asked for very many candidates.
    pub open spec fn is_last(&self, found: usize) -> bool {
        found >= self.target || (!self.first_round && found == self.previous) || self.candidates
            >= MAX_CANDIDATES
    }

    /// Takes in how many emails a round found; says whether it was the last. The
    /// next round asks for five times as many candidates.
    pub fn round(&mut self, found: usize) -> (done: bool)
        ensures
            done == old(self).is_last(found),
            !done ==> *final(self) == (LoreSearch {
                target: old(self).target,
                candidates: (old(self).candidates * 5) as usize,
                previous: found,
                first_round: false,
            }) && final(self).candidates == old(self).candidates * 5,
            done ==> final(self).target == old(self).target && final(self).candidates == old(
                self,
            ).candidates && final(self).previous == old(self).previous,
    {
        if found >= self.target {
            return true;
        }
        if !self.first_round && found == self.previous {
            return true;
        }
        self.first_round = false;
        if self.candidates >= MAX_CANDIDATES {
            return true;
        }
        self.previous = found;
        self.candidates = self.candidates * 5;
        false
    }
}

/// The state of a search after rounds that found so many emails each.
pub open spec fn after_rounds(start: LoreSearch, found: Seq<usize>) -> LoreSearch
    decreases found.len(),
{
    if found.len() == 0 {
        start
    } else {
        let before = after_rounds(start, found.drop_last());
        LoreSearch {
            target: before.target,
            candidates: (before.candidates * 5) as usize,
            previous: found.last(),
            first_round: false,
        }
    }
}

/// Whether none of some rounds was the last.
pub open spec fn went_on(start: LoreSearch, found: Seq<usize>) -> bool
    decreases found.len(),
{
    if found.len() == 0 {
        true
    } else {
        went_on(start, found.drop_last()) && !after_rounds(start, found.drop_last()).is_last(
            found.last(),
        )
    }
}

proof fn lemma_candidates_grow(start: LoreSearch, found: Seq<usize>)
    requires
        start.candidates >= 10,
        went_on(start, found),
    ensures
        found.len() > 0 ==> after_rounds(start, found).candidates == after_rounds(
            start,
            found.drop_last(),
        ).candidates * 5 && after_rounds(start, found.drop_last()).candidates < MAX_CANDIDATES,
    decreases found.len(),
{
    if found.len() > 0 {
        lemma_candidates_grow(start, found.drop_last());
    }
}

/// A search ends: however many emails each round finds, the ninth round at the
/// latest is the last.
pub proof fn searches_end(start: LoreSearch, found: Seq<usize>)
    requires
        start.candidates >= 10,
        went_on(start, found),
    ensures
        found.len() <= 8,
{
    if found.len() > 8 {
        let nine = found.take(9);
        lemma_went_on_before(start, found, 9);
        lemma_growth(start, nine, 0);
        lemma_growth(start, nine, 1);
        lemma_growth(start, nine, 2);
        lemma_growth(start, nine, 3);
        lemma_growth(start, nine, 4);
        lemma_growth(start, nine, 5);
        lemma_growth(start, nine, 6);
        lemma_growth(start, nine, 7);
        lemma_growth(start, nine, 8);
        assert(nine.take(0) =~= Seq::empty());
    }
}

proof fn lemma_went_on_before(start: LoreSearch, found: Seq<usize>, k: int)
    requires
        0 <= k <= found.len(),
        went_on(start, found),
    ensures
        went_on(start, found.take(k)),
    decreases found.len(),
{
    if k == found.len() {
        assert(found.take(k) =~= found);
    } else {
        lemma_went_on_before(start, found.drop_last(), k);
        assert(found.drop_last().take(k) =~= found.take(k));
    }
}

proof fn lemma_growth(start: LoreSearch, found: Seq<usize>, k: int)
    requires
        0 <= k < found.len(),
        start.candidates >= 10,
        went_on(start, found),
    ensures
        after_rounds(start, found.take(k + 1)).candidates == after_rounds(
            start,
            found.take(k),
        ).candidates * 5,
        after_rounds(start, found.take(k)).candidates < MAX_CANDIDATES,
{
    lemma_went_on_before(start, found, k + 1);
    assert(found.take(k + 1).drop_last() =~= found.take(k));
    lemma_candidates_grow(start, found.take(k + 1));
}

/// A candidate of a search in one field.
#[derive(Debug, Clone)]
pub struct LoreHit {
    pub message_id: String,
    /// The field that was searched.
    pub text: String,
    pub date: String,
}

/// A pattern, and the candidates that full-text search has for it.
pub struct PatternHits {
    pub pattern: String,
    pub hits: Vec<LoreHit>,
}

/// How many candidates a search in one field asks for.
pub fn effective_limit(search_limit: usize) -> (r: usize)
    ensures
        r == (if search_limit > 0 {
            search_limit
        } else {
            100000
        }),
{
    if search_limit > 0 {
        search_limit
    } else {
        100000
    }
}

/// Whether a candidate is a match: the pattern is found in it, and its date is in
/// the range.
pub open spec fn is_match(
    hit: LoreHit,
    pattern: Seq<char>,
    since: Option<Instant>,
    until: Option<Instant>,
) -> bool {
    pattern_found(pattern, hit.text@) && in_range(hit.date@, since, until)
}

/// Whether a message matches a pattern.
pub open spec fn matches_pattern(
    hits: PatternHits,
    since: Option<Instant>,
    until: Option<Instant>,
    id: Seq<char>,
) -> bool {
    exists|i: int|
        0 <= i < hits.hits@.len() && is_match(
            #[trigger] hits.hits@[i],
            hits.pattern@,
            since,
            until,
        ) && hits.hits@[i].message_id@ == id
}

/// Whether a message matches one of the patterns for a field.
pub open spec fn matches_some_pattern(
    field: Seq<PatternHits>,
    since: Option<Instant>,
    until: Option<Instant>,
    id: Seq<char>,
) -> bool {
    exists|k: int| 0 <= k < field.len() && matches_pattern(#[trigger] field[k], since, until, id)
}

/// Whether a message is an answer: there is a field with patterns, and in every
/// such field the message matches one of them.
pub open spec fn matches_every_field(
    fields: Seq<Vec<PatternHits>>,
    since: Option<Instant>,
    until: Option<Instant>,
    id: Seq<char>,
) -> bool {
    &&& exists|f: int| 0 <= f < fields.len() && (#[trigger] fields[f])@.len() > 0
    &&& forall|f: int|
        0 <= f < fields.len() && (#[trigger] fields[f])@.len() > 0 ==> matches_some_pattern(
            fields[f]@,
            since,
            until,
            id,
        )
}

/// What is wrong with the first of the patterns of a field that is no regular
/// expression.
pub open spec fn field_complaint(field: Seq<PatternHits>) -> Option<Seq<char>>
    decreases field.len(),
{
    if field.len() == 0 {
        None
    } else {
        let before = field_complaint(field.drop_last());
        if before is Some {
            before
        } else {
            pattern_complaint(field.last().pattern@)
        }
    }
}

/// What is wrong with the first of the patterns of some fields that is no regular
/// expression.
pub open spec fn fields_complaint(fields: Seq<Vec<PatternHits>>) -> Option<Seq<char>>
    decreases fields.len(),
{
    if fields.len() == 0 {
        None
    } else {
        let before = fields_complaint(fields.drop_last());
        if before is Some {
            before
        } else {
            field_complaint(fields.last()@)
        }
    }
}

proof fn lemma_field_complaint_stays(field: Seq<PatternHits>, i: int)
    requires
        0 <= i <= field.len(),
        field_complaint(field.take(i)) is Some,
    ensures
        field_complaint(field) == field_complaint(field.take(i)),
    decreases field.len(),
{
    if i == field.len() {
        assert(field.take(i) =~= field);
    } else {
        assert(field.drop_last().take(i) =~= field.take(i));
        lemma_field_complaint_stays(field.drop_last(), i);
    }
}

proof fn lemma_fields_complaint_stays(fields: Seq<Vec<PatternHits>>, i: int)
    requires
        0 <= i <= fields.len(),
        fields_complaint(fields.take(i)) is Some,
    ensures
        fields_complaint(fields) == fields_complaint(fields.take(i)),
    decreases fields.len(),
{
    if i == fields.len() {
        assert(fields.take(i) =~= fields);
    } else {
        assert(fields.drop_last().take(i) =~= fields.take(i));
        lemma_fields_complaint_stays(fields.drop_last(), i);
    }
}

/// Adds the messages that match a pattern.
fn add_matches(
    ids: &mut NameSet,
    hits: &PatternHits,
    since: Option<Instant>,
    until: Option<Instant>,
)
    requires
        old(ids).wf(),
    ensures
        final(ids).wf(),
        forall|id: Seq<char>| #[trigger]
            final(ids)@.contains(id) <==> old(ids)@.contains(id) || matches_pattern(
                *hits,
                since,
                until,
                id,
            ),
{
    let ghost given = ids@;
    let mut i: usize = 0;
    while i < hits.hits.len()
        invariant
            i <= hits.hits@.len(),
            ids.wf(),
            forall|id: Seq<char>| #[trigger]
                ids@.contains(id) ==> given.contains(id) || matches_pattern(
                    *hits,
                    since,
                    until,
                    id,
                ),
            forall|id: Seq<char>| #[trigger] given.contains(id) ==> ids@.contains(id),
            forall|k: int|
                0 <= k < i && is_match(#[trigger] hits.hits@[k], hits.pattern@, since, until)
                    ==> ids@.contains(hits.hits@[k].message_id@),
        decreases hits.hits@.len() - i,
    {
        let hit = &hits.hits[i];
        if is_found(hits.pattern.as_str(), hit.text.as_str()) && is_in_range(
            hit.date.as_str(),
            since,
            until,
        ) {
            assert(is_match(hits.hits@[i as int], hits.pattern@, since, until));
            ids.insert(hit.message_id.as_str());
        }
        i += 1;
    }
    assert forall|id: Seq<char>| #[trigger]
        ids@.contains(id) <==> given.contains(id) || matches_pattern(*hits, since, until, id) by {
        if matches_pattern(*hits, since, until, id) {
            let k = choose|k: int|
                0 <= k < hits.hits@.len() && is_match(
                    #[trigger] hits.hits@[k],
                    hits.pattern@,
                    since,
                    until,
                ) && hits.hits@[k].message_id@ == id;
            assert(ids@.contains(hits.hits@[k].message_id@));
        }
    }
}

/// The messages that match one of the patterns for a field.
fn field_matches(field: &Vec<PatternHits>, since: Option<Instant>, until: Option<Instant>) -> (r:
    Result<NameSet, String>)
    ensures
        match r {
            Ok(ids) => field_complaint(field@) is None && ids.wf() && forall|id: Seq<char>|
                #[trigger]
                ids@.contains(id) <==> matches_some_pattern(field@, since, until, id),
            Err(complaint) => field_complaint(field@) == Some(complaint@),
        },
{
    let mut ids = NameSet::new();
    let mut i: usize = 0;
    assert(field@.take(0) =~= Seq::empty());
    while i < field.len()
        invariant
            i <= field@.len(),
            ids.wf(),
            field_complaint(field@.take(i as int)) is None,
            forall|id: Seq<char>| #[trigger]
                ids@.contains(id) <==> matches_some_pattern(
                    field@.take(i as int),
                    since,
                    until,
                    id,
                ),
        decreases field@.len() - i,
    {
        let ghost some = field@.take(i as int);
        let ghost more = field@.take(i + 1);
        assert(more.drop_last() =~= some);
        assert(more.last() == field@[i as int]);
        if let Some(complaint) = find_complaint(field[i].pattern.as_str()) {
            proof {
                lemma_field_complaint_stays(field@, i + 1);
            }
            return Err(complaint);
        }
        let ghost had = ids@;
        add_matches(&mut ids, &field[i], since, until);
        proof {
            assert forall|id: Seq<char>| #[trigger]
                ids@.contains(id) <==> matches_some_pattern(more, since, until, id) by {
                assert(had.contains(id) <==> matches_some_pattern(some, since, until, id));
                if matches_some_pattern(some, since, until, id) {
                    let k = choose|k: int|
                        0 <= k < some.len() && matches_pattern(
                            #[trigger] some[k],
                            since,
                            until,
                            id,
                        );
                    assert(more[k] == some[k]);
                }
                if matches_some_pattern(more, since, until, id) {
                    let k = choose|k: int|
                        0 <= k < more.len() && matches_pattern(
                            #[trigger] more[k],
                            since,
                            until,
                            id,
                        );
                    if k < i {
                        assert(some[k] == more[k]);
                    }
                }
                assert(more[i as int] == field@[i as int]);
            }
        }
        i += 1;
    }
    assert(field@.take(i as int) =~= field@);
    Ok(ids)
}

/// The names that two sets have in common.
fn common(a: &NameSet, b: &NameSet) -> (r: NameSet)
    requires
        a.wf(),
        b.wf(),
    ensures
        r.wf(),
        r@ == a@.intersect(b@),
{
    let mut out = NameSet::new();
    let mut i: usize = 0;
    let count: usize = a.len();
    while i < count
        invariant
            i <= count == a.names().len(),
            a.wf(),
            b.wf(),
            out.wf(),
            forall|name: Seq<char>| #[trigger]
                out@.contains(name) <==> a.names().take(i as int).contains(name) && b@.contains(
                    name,
                ),
        decreases count - i,
    {
        let ghost had = out@;
        let name = a.name_at(i);
        if b.contains(name) {
            out.insert(name);
        }
        proof {
            assert(a.names().take(i + 1) =~= a.names().take(i as int).push(name@));
            assert forall|other: Seq<char>| #[trigger]
                out@.contains(other) <==> a.names().take(i + 1).contains(other) && b@.contains(
                    other,
                ) by {
                lemma_contains_push(a.names().take(i as int), name@, other);
                assert(had.contains(other) <==> a.names().take(i as int).contains(other)
                    && b@.contains(other));
            }
        }
        i += 1;
    }
    proof {
        assert(a.names().take(i as int) =~= a.names());
        a.names_are_the_members();
        assert(out@ =~= a@.intersect(b@)) by {
            assert forall|name: Seq<char>| #[trigger]
                out@.contains(name) <==> a@.intersect(b@).contains(name) by {
                assert(a@.contains(name) <==> a.names().contains(name));
            }
        }
    }
    out
}

spec fn answers_so_far(
    ids: Option<NameSet>,
    fields: Seq<Vec<PatternHits>>,
    since: Option<Instant>,
    until: Option<Instant>,
) -> bool {
    match ids {
        Some(ids) => ids.wf() && (exists|f: int|
            0 <= f < fields.len() && (#[trigger] fields[f])@.len() > 0) && forall|id: Seq<char>|
            #[trigger]
            ids@.contains(id) <==> matches_every_field(fields, since, until, id),
        None => forall|f: int| 0 <= f < fields.len() ==> (#[trigger] fields[f])@.len() == 0,
    }
}

proof fn lemma_one_more_field(
    fields: Seq<Vec<PatternHits>>,
    field: Vec<PatternHits>,
    since: Option<Instant>,
    until: Option<Instant>,
    id: Seq<char>,
)
    ensures
        field@.len() == 0 ==> (matches_every_field(fields.push(field), since, until, id)
            <==> matches_every_field(fields, since, until, id)),
        field@.len() > 0 && (exists|f: int|
            0 <= f < fields.len() && (#[trigger] fields[f])@.len() > 0) ==> (matches_every_field(
            fields.push(field),
            since,
            until,
            id,
        ) <==> matches_every_field(fields, since, until, id) && matches_some_pattern(
            field@,
            since,
            until,
            id,
        )),
        field@.len() > 0 && (forall|f: int|
            0 <= f < fields.len() ==> (#[trigger] fields[f])@.len() == 0) ==> (
        matches_every_field(fields.push(field), since, until, id) <==> matches_some_pattern(
            field@,
            since,
            until,
            id,
        )),
{
    let more = fields.push(field);
    assert(more[fields.len() as int] == field);
    assert forall|f: int| 0 <= f < fields.len() implies #[trigger] more[f] == fields[f] by {}
    if exists|f: int| 0 <= f < fields.len() && (#[trigger] fields[f])@.len() > 0 {
        let f = choose|f: int| 0 <= f < fields.len() && (#[trigger] fields[f])@.len() > 0;
        assert(more[f]@.len() > 0);
    }
    if matches_every_field(more, since, until, id) {
        assert forall|f: int| 0 <= f < fields.len() && (#[trigger] fields[f])@.len() > 0 implies
            matches_some_pattern(fields[f]@, since, until, id) by {
            assert(more[f] == fields[f]);
        }
        if field@.len() == 0 {
            let f = choose|f: int| 0 <= f < more.len() && (#[trigger] more[f])@.len() > 0;
            assert(fields[f]@.len() > 0);
        }
    }
}

/// Finds the messages that match in every field that has patterns: one pattern of
/// each field is enough, but no field may be without a match. A message whose date
/// is not in the range does not match.
pub fn query_lore_by_fields_intersection(
    fields: &Vec<Vec<PatternHits>>,
    since_date: Option<&str>,
    until_date: Option<&str>,
) -> (r: Result<NameSet, String>)
    ensures
        match r {
            Ok(ids) => fields_complaint(fields@) is None && ids.wf() && forall|id: Seq<char>|
                #[trigger]
                ids@.contains(id) <==> matches_every_field(
                    fields@,
                    given_instant(given_text(since_date)),
                    given_instant(given_text(until_date)),
                    id,
                ),
            Err(complaint) => fields_complaint(fields@) == Some(complaint@),
        },
{
    let since = instant_given(since_date);
    let until = instant_given(until_date);
    let mut answers: Option<NameSet> = None;
    let mut i: usize = 0;
    assert(fields@.take(0) =~= Seq::empty());
    while i < fields.len()
        invariant
            i <= fields@.len(),
            fields_complaint(fields@.take(i as int)) is None,
            answers_so_far(answers, fields@.take(i as int), since, until),
        decreases fields@.len() - i,
    {
        let ghost some = fields@.take(i as int);
        let ghost more = fields@.take(i + 1);
        let ghost field = fields@[i as int];
        assert(more =~= some.push(field));
        assert(more.drop_last() =~= some);
        let found = match field_matches(&fields[i], since, until) {
            Ok(found) => found,
            Err(complaint) => {
                proof {
                    lemma_fields_complaint_stays(fields@, i + 1);
                }
                return Err(complaint);
            },
        };
        if fields[i].len() > 0 {
            assert(more[i as int]@.len() > 0);
            let next = match &answers {
                Some(ids) => common(ids, &found),
                None => found,
            };
            proof {
                assert forall|id: Seq<char>| #[trigger]
                    next@.contains(id) <==> matches_every_field(more, since, until, id) by {
                    lemma_one_more_field(some, field, since, until, id);
                    assert(found@.contains(id) <==> matches_some_pattern(field@, since, until, id));
                    if answers is Some {
                        assert(answers->0@.contains(id) <==> matches_every_field(
                            some,
                            since,
                            until,
                            id,
                        ));
                    }
                }
            }
            answers = Some(next);
        } else {
            proof {
                if answers is Some {
                    let f = choose|f: int| 0 <= f < some.len() && (#[trigger] some[f])@.len() > 0;
                    assert(more[f]@.len() > 0);
                    assert forall|id: Seq<char>| #[trigger]
                        answers->0@.contains(id) <==> matches_every_field(
                            more,
                            since,
                            until,
                            id,
                        ) by {
                        lemma_one_more_field(some, field, since, until, id);
                    }
                } else {
                    assert forall|f: int| 0 <= f < more.len() implies (#[trigger] more[f])@.len()
                        == 0 by {
                        if f < i {
                            assert(more[f] == some[f]);
                        }
                    }
                }
            }
        }
        i += 1;
    }
    assert(fields@.take(i as int) =~= fields@);
    match answers {
        Some(ids) => Ok(ids),
        None => Ok(NameSet::new()),
    }
}

/// The patterns given for a field, in order.
pub open spec fn patterns_for(conditions: Seq<(String, String)>, field: Seq<char>) -> Seq<Seq<char>>
    decreases conditions.len(),
{
    if conditions.len() == 0 {
        Seq::empty()
    } else {
        let before = patterns_for(conditions.drop_last(), field);
        if conditions.last().0@ == field {
            before.push(conditions.last().1@)
        } else {
            before
        }
    }
}

fn patterns_of_field(conditions: &Vec<(String, String)>, field: &str) -> (r: Vec<String>)
    ensures
        texts(r@) == patterns_for(conditions@, field@),
{
    let mut out: Vec<String> = Vec::new();
    let mut i: usize = 0;
    assert(conditions@.take(0) =~= Seq::empty());
    assert(texts(out@) =~= Seq::empty());
    while i < conditions.len()
        invariant
            i <= conditions@.len(),
            texts(out@) == patterns_for(conditions@.take(i as int), field@),
        decreases conditions@.len() - i,
    {
        proof {
            assert(conditions@.take(i + 1).drop_last() =~= conditions@.take(i as int));
            assert(conditions@.take(i + 1).last() == conditions@[i as int]);
        }
        if str_eq(conditions[i].0.as_str(), field) {
            let copy = conditions[i].1.clone();
            proof {
                lemma_texts_push(out@, copy);
            }
            out.push(copy);
        }
        i += 1;
    }
    assert(conditions@.take(i as int) =~= conditions@);
    out
}

/// The patterns for each field that emails are searched by.
pub struct FieldPatterns {
    pub from: Vec<String>,
    pub subject: Vec<String>,
    pub body: Vec<String>,
    pub recipients: Vec<String>,
}

/// Puts the patterns of a search under their fields. Patterns for the same field
/// are combined with OR, different fields are combined with AND; a pattern for
/// any other field has no effect.
pub fn patterns_by_field(conditions: &Vec<(String, String)>) -> (r: FieldPatterns)
    ensures
        texts(r.from@) == patterns_for(conditions@, "from"@),
        texts(r.subject@) == patterns_for(conditions@, "subject"@),
        texts(r.body@) == patterns_for(conditions@, "body"@),
        texts(r.recipients@) == patterns_for(conditions@, "recipients"@),
{
    FieldPatterns {
        from: patterns_of_field(conditions, "from"),
        subject: patterns_of_field(conditions, "subject"),
        body: patterns_of_field(conditions, "body"),
        recipients: patterns_of_field(conditions, "recipients"),
    }
}

/// The messages to fetch, as many as a limit allows; a limit of 0 allows all.
pub fn messages_to_fetch(ids: &NameSet, limit: usize) -> (r: Vec<String>)
    requires
        ids.wf(),
    ensures
        texts(r@) == limited(ids.names(), limit),
{
    let mut out: Vec<String> = Vec::new();
    let count: usize = if limit > 0 && ids.len() > limit {
        limit
    } else {
        ids.len()
    };
    let mut i: usize = 0;
    assert(texts(out@) =~= ids.names().take(0));
    while i < count
        invariant
            i <= count <= ids.names().len(),
            ids.wf(),
            texts(out@) == ids.names().take(i as int),
        decreases count - i,
    {
        let name = String::from_str(ids.name_at(i));
        proof {
            lemma_texts_push(out@, name);
            assert(ids.names().take(i + 1) =~= ids.names().take(i as int).push(name@));
        }
        out.push(name);
        i += 1;
    }
    assert(ids.names().take(ids.names().len() as int) =~= ids.names());
    out
}

/// Selects the emails with a subject, in a range of dates where the table has
/// timestamps.
pub open spec fn subject_range(
    subject: Seq<char>,
    has_timestamps: bool,
    since: Option<Instant>,
    until: Option<Instant>,
) -> Seq<char> {
    "subject LIKE '%"@ + escaped(subject) + "%'"@ + (if has_timestamps && since is Some {
        " AND date_timestamp >= "@ + signed_decimal((since->0).0 as int)
    } else {
        Seq::empty()
    }) + (if has_timestamps && until is Some {
        " AND date_timestamp <= "@ + signed_decimal((until->0).0 as int)
    } else {
        Seq::empty()
    })
}

/// Selects the emails whose subject has a text in it, and whose date is in a
/// range where the table has timestamps.
pub fn subject_filter(
    subject: &str,
    has_timestamps: bool,
    since_date: Option<&str>,
    until_date: Option<&str>,
) -> (r: String)
    ensures
        r@ == subject_range(
            subject@,
            has_timestamps,
            given_instant(given_text(since_date)),
            given_instant(given_text(until_date)),
        ),
{
    let since = instant_given(since_date);
    let until = instant_given(until_date);
    let mut out = String::from_str("subject LIKE '%");
    out.append(escape(subject).as_str());
    out.append("%'");
    let mut first = String::new();
    let mut second = String::new();
    if has_timestamps {
        if let Some(at) = since {
            first = String::from_str(" AND date_timestamp >= ");
            first.append(signed_decimal_of(at.0).as_str());
        }
        if let Some(at) = until {
            second = String::from_str(" AND date_timestamp <= ");
            second.append(signed_decimal_of(at.0).as_str());
        }
    }
    out.append(first.as_str());
    out.append(second.as_str());
    out
}

} // verus!
