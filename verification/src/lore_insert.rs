//! Storing emails: each message once, and in pieces where a batch is refused.
use vstd::prelude::*;
use crate::keyed::{every_key_keeps_one_row, last_flags, last_of_key};
use crate::lore::{write_email, writes_as, LoreEmailInfo, LoreRow};
use crate::names::NameSet;
use crate::sql::{one_of, one_of_filter};
use crate::text::{lemma_texts_push, texts};

verus! {

/// The message ids of some emails.
pub open spec fn message_ids(emails: Seq<LoreEmailInfo>) -> Seq<Seq<char>> {
    emails.map_values(|email: LoreEmailInfo| email.message_id@)
}

/// The places of a list whose flag is set, in order.
pub open spec fn flagged_places(flags: Seq<bool>) -> Seq<int>
    decreases flags.len(),
{
    if flags.len() == 0 {
        Seq::empty()
    } else if flags.last() {
        flagged_places(flags.drop_last()).push(flags.len() - 1)
    } else {
        flagged_places(flags.drop_last())
    }
}

/// Places as numbers.
pub open spec fn places(list: Seq<usize>) -> Seq<int> {
    list.map_values(|i: usize| i as int)
}

/// The places of the emails to store: of each message the last email. An archive
/// can contain the same email in several commits.
pub fn places_to_store(emails: &Vec<LoreEmailInfo>) -> (r: Vec<usize>)
    ensures
        places(r@) == flagged_places(last_of_key(message_ids(emails@))),
{
    let ghost ids = message_ids(emails@);
    let mut codes: Vec<String> = Vec::new();
    let mut i: usize = 0;
    assert(texts(codes@) =~= ids.take(0));
    while i < emails.len()
        invariant
            i <= emails@.len(),
            ids == message_ids(emails@),
            texts(codes@) == ids.take(i as int),
        decreases emails@.len() - i,
    {
        let id = emails[i].message_id.clone();
        proof {
            lemma_texts_push(codes@, id);
            assert(ids.take(i + 1) =~= ids.take(i as int).push(id@));
        }
        codes.push(id);
        i += 1;
    }
    assert(ids.take(i as int) =~= ids);
    let flags = last_flags(&codes);
    let mut out: Vec<usize> = Vec::new();
    let mut k: usize = 0;
    assert(flags@.take(0) =~= Seq::empty());
    assert(places(out@) =~= Seq::empty());
    while k < flags.len()
        invariant
            k <= flags@.len(),
            places(out@) == flagged_places(flags@.take(k as int)),
        decreases flags@.len() - k,
    {
        proof {
            assert(flags@.take(k + 1).drop_last() =~= flags@.take(k as int));
            assert(flags@.take(k + 1).last() == flags@[k as int]);
        }
        if flags[k] {
            assert(places(out@.push(k)) =~= places(out@).push(k as int));
            out.push(k);
        }
        k += 1;
    }
    assert(flags@.take(k as int) =~= flags@);
    out
}

/// The emails at the places to store have each message once.
pub proof fn each_message_is_stored_once(emails: Seq<LoreEmailInfo>, i: int)
    requires
        0 <= i < emails.len(),
    ensures
        exists|j: int|
            i <= j < emails.len() && emails[j].message_id@ == emails[i].message_id@
                && #[trigger] last_of_key(message_ids(emails))[j],
        forall|j: int, k: int|
            0 <= j < emails.len() && 0 <= k < emails.len() && #[trigger] last_of_key(
                message_ids(emails),
            )[j] && #[trigger] last_of_key(message_ids(emails))[k] && emails[j].message_id@
                == emails[k].message_id@ ==> j == k,
{
    let ids = message_ids(emails);
    every_key_keeps_one_row(ids, i);
    let j = choose|j: int| i <= j < ids.len() && ids[j] == ids[i] && #[trigger] last_of_key(ids)[j];
    assert(emails[j].message_id@ == ids[j]);
    assert forall|j: int, k: int|
        0 <= j < emails.len() && 0 <= k < emails.len() && #[trigger] last_of_key(ids)[j]
            && #[trigger] last_of_key(ids)[k] && emails[j].message_id@
            == emails[k].message_id@ implies j == k by {
        assert(ids[j] == ids[k]);
    }
}

/// Selects the stored emails among some.
pub fn stored_ids_filter(emails: &Vec<LoreEmailInfo>, indices: &Vec<usize>) -> (r: String)
    requires
        forall|k: int| 0 <= k < indices@.len() ==> #[trigger] indices@[k] < emails@.len(),
    ensures
        r@ == one_of(
            "message_id"@,
            indices@.map_values(|i: usize| emails@[i as int].message_id@),
            ", "@,
        ),
{
    let ghost wanted = indices@.map_values(|i: usize| emails@[i as int].message_id@);
    let mut ids: Vec<String> = Vec::new();
    let mut k: usize = 0;
    assert(texts(ids@) =~= wanted.take(0));
    while k < indices.len()
        invariant
            k <= indices@.len(),
            wanted == indices@.map_values(|i: usize| emails@[i as int].message_id@),
            forall|k: int| 0 <= k < indices@.len() ==> #[trigger] indices@[k] < emails@.len(),
            texts(ids@) == wanted.take(k as int),
        decreases indices@.len() - k,
    {
        let id = emails[indices[k]].message_id.clone();
        proof {
            lemma_texts_push(ids@, id);
            assert(wanted.take(k + 1) =~= wanted.take(k as int).push(id@));
        }
        ids.push(id);
        k += 1;
    }
    assert(wanted.take(k as int) =~= wanted);
    one_of_filter("message_id", ids.as_slice(), ", ")
}

/// Return the subset of `indices` whose message_id does not
/// already exist in the lore table.
pub fn filter_existing_lore_ids(
    emails: &Vec<LoreEmailInfo>,
    indices: &Vec<usize>,
    existing: &NameSet,
) -> (r: Vec<usize>)
    requires
        existing.wf(),
        forall|k: int| 0 <= k < indices@.len() ==> #[trigger] indices@[k] < emails@.len(),
    ensures
        r@ == indices@.filter(|i: usize| !existing@.contains(emails@[i as int].message_id@)),
{
    let ghost wanted = |i: usize| !existing@.contains(emails@[i as int].message_id@);
    let mut out: Vec<usize> = Vec::new();
    let mut k: usize = 0;
    proof {
        reveal(Seq::filter);
        assert(indices@.take(0) =~= Seq::empty());
    }
    while k < indices.len()
        invariant
            k <= indices@.len(),
            existing.wf(),
            wanted == (|i: usize| !existing@.contains(emails@[i as int].message_id@)),
            forall|k: int| 0 <= k < indices@.len() ==> #[trigger] indices@[k] < emails@.len(),
            out@ == indices@.take(k as int).filter(wanted),
        decreases indices@.len() - k,
    {
        proof {
            reveal(Seq::filter);
            assert(indices@.take(k + 1).drop_last() =~= indices@.take(k as int));
            assert(indices@.take(k + 1).last() == indices@[k as int]);
        }
        if !existing.contains(emails[indices[k]].message_id.as_str()) {
            out.push(indices[k]);
        }
        k += 1;
    }
    assert(indices@.take(k as int) =~= indices@);
    out
}

/// The rows that store the emails at some places.
pub fn rows_to_add(emails: &Vec<LoreEmailInfo>, indices: &Vec<usize>) -> (r: Result<
    Vec<LoreRow>,
    String,
>)
    requires
        forall|k: int| 0 <= k < indices@.len() ==> #[trigger] indices@[k] < emails@.len(),
    ensures
        match r {
            Ok(rows) => rows@.len() == indices@.len() && forall|k: int|
                0 <= k < indices@.len() ==> writes_as(
                    emails@[indices@[k] as int],
                    #[trigger] rows@[k],
                ),
            Err(_) => false,
        },
{
    let mut out: Vec<LoreRow> = Vec::new();
    let mut k: usize = 0;
    while k < indices.len()
        invariant
            k <= indices@.len(),
            forall|k: int| 0 <= k < indices@.len() ==> #[trigger] indices@[k] < emails@.len(),
            out@.len() == k,
            forall|j: int|
                0 <= j < k ==> writes_as(emails@[indices@[j] as int], #[trigger] out@[j]),
        decreases indices@.len() - k,
    {
        match write_email(&emails[indices[k]]) {
            Ok(row) => {
                out.push(row);
            },
            Err(message) => {
                return Err(message);
            },
        }
        k += 1;
    }
    Ok(out)
}

/// The largest chunk that is tried once the whole batch was refused.
pub const MAX_CHUNK: usize = 128;

/// How much is tried at once.
#[derive(Debug, Clone, Copy, PartialEq, Eq, Structural)]
pub enum InsertStep {
    /// Everything.
    Whole,
    /// A chunk, from the first place that is not settled.
    Chunk,
    /// One email of a chunk that ends before a place.
    Single { end: usize },
}

/// Adding emails to the table: all at once, and where that is refused in chunks,
/// and where a chunk is refused one by one. What is refused on its own has
/// failed.
pub struct LoreInsertion {
    /// The places of the emails to add.
    pub indices: Vec<usize>,
    /// How many of them are settled: added, or failed.
    pub settled: usize,
    pub step: InsertStep,
    /// The places of the emails that could not be added.
    pub failed: Vec<usize>,
}

impl LoreInsertion {
    pub open spec fn wf(&self) -> bool {
        &&& self.settled <= self.indices@.len()
        &&& match self.step {
            InsertStep::Whole => self.settled == 0,
            InsertStep::Chunk => true,
            InsertStep::Single { end } => self.settled < end <= self.indices@.len() && end
                - self.settled <= MAX_CHUNK,
        }
    }

    /// Whether everything is settled.
    pub open spec fn is_done(&self) -> bool {
        self.settled == self.indices@.len()
    }

    /// Where the next batch ends.
    pub open spec fn batch_end(&self) -> int {
        match self.step {
            InsertStep::Whole => self.indices@.len() as int,
            InsertStep::Chunk => if self.indices@.len() - self.settled <= MAX_CHUNK {
                self.indices@.len() as int
            } else {
                self.settled + MAX_CHUNK
            },
            InsertStep::Single { end } => self.settled + 1,
        }
    }

    /// The places of the emails that are tried next.
    pub open spec fn batch(&self) -> Seq<usize> {
        self.indices@.subrange(self.settled as int, self.batch_end())
    }

    /// Begins adding the emails at some places.
    pub fn begin(indices: Vec<usize>) -> (r: Self)
        ensures
            r.wf(),
            r.indices == indices,
            r.settled == 0,
            r.step == InsertStep::Whole,
            r.failed@ == Seq::<usize>::empty(),
    {
        LoreInsertion { indices, settled: 0, step: InsertStep::Whole, failed: Vec::new() }
    }

    fn end_of_batch(&self) -> (r: usize)
        requires
            self.wf(),
            !self.is_done(),
        ensures
            r == self.batch_end(),
            self.settled < r <= self.indices@.len(),
    {
        let count: usize = self.indices.len();
        match self.step {
            InsertStep::Whole => count,
            InsertStep::Chunk => if count - self.settled <= MAX_CHUNK {
                count
            } else {
                self.settled + MAX_CHUNK
            },
            InsertStep::Single { end: _ } => self.settled + 1,
        }
    }

    /// The places of the emails to try next; nothing once everything is settled.
    pub fn next_batch(&self) -> (r: Option<Vec<usize>>)
        requires
            self.wf(),
        ensures
            match r {
                Some(batch) => !self.is_done() && batch@ == self.batch() && batch@.len() > 0,
                None => self.is_done(),
            },
    {
        if self.settled >= self.indices.len() {
            return None;
        }
        let end: usize = self.end_of_batch();
        let mut out: Vec<usize> = Vec::new();
        let mut i: usize = self.settled;
        while i < end
            invariant
                self.settled <= i <= end <= self.indices@.len(),
                out@ == self.indices@.subrange(self.settled as int, i as int),
            decreases end - i,
        {
            assert(self.indices@.subrange(self.settled as int, i + 1) =~= self.indices@.subrange(
                self.settled as int,
                i as int,
            ).push(self.indices@[i as int]));
            out.push(self.indices[i]);
            i += 1;
        }
        Some(out)
    }

    /// What follows a batch: how many emails are settled then, what is tried next,
    /// and which emails have failed. An added batch is settled; a refused one is
    /// tried again in smaller pieces, and a refused email has failed.
    pub open spec fn following(&self, added: bool) -> (int, InsertStep, Seq<usize>) {
        let end = self.batch_end();
        match self.step {
            InsertStep::Whole => (
                if added {
                    end
                } else {
                    self.settled as int
                },
                InsertStep::Chunk,
                self.failed@,
            ),
            InsertStep::Chunk => if added {
                (end, InsertStep::Chunk, self.failed@)
            } else {
                (self.settled as int, InsertStep::Single { end: end as usize }, self.failed@)
            },
            InsertStep::Single { end: chunk_end } => (
                end,
                if end < chunk_end {
                    InsertStep::Single { end: chunk_end }
                } else {
                    InsertStep::Chunk
                },
                if added {
                    self.failed@
                } else {
                    self.failed@.push(self.indices@[self.settled as int])
                },
            ),
        }
    }

    /// Takes in whether the batch was added.
    pub fn record(&mut self, added: bool)
        requires
            old(self).wf(),
            !old(self).is_done(),
        ensures
            final(self).wf(),
            final(self).indices == old(self).indices,
            (final(self).settled as int, final(self).step, final(self).failed@) == old(
                self,
            ).following(added),
    {
        let end: usize = self.end_of_batch();
        match self.step {
            InsertStep::Whole => {
                self.step = InsertStep::Chunk;
                if added {
                    self.settled = end;
                }
            },
            InsertStep::Chunk => {
                if added {
                    self.settled = end;
                } else {
                    self.step = InsertStep::Single { end };
                }
            },
            InsertStep::Single { end: chunk_end } => {
                if !added {
                    self.failed.push(self.indices[self.settled]);
                }
                self.settled = end;
                if end >= chunk_end {
                    self.step = InsertStep::Chunk;
                }
            },
        }
    }

    /// The places of the emails that could not be added.
    pub fn into_failed(self) -> (r: Vec<usize>)
        ensures
            r == self.failed,
    {
        self.failed
    }
}

/// The places that were in a batch that was added.
pub open spec fn added_so_far(before: LoreInsertion, added: bool, so_far: Set<int>) -> Set<int> {
    if added {
        so_far.union(Set::new(|k: int| before.settled <= k < before.batch_end()))
    } else {
        so_far
    }
}

/// Whether every settled email was added or is reported as failed.
pub open spec fn accounts_for(state: LoreInsertion, added: Set<int>) -> bool {
    forall|k: int|
        0 <= k < state.settled ==> added.contains(k) || #[trigger] state.failed@.contains(
            state.indices@[k],
        )
}

/// No email is lost: whatever becomes of each batch, an email that is settled was
/// in a batch that was added, or is among those reported as failed.
pub proof fn no_email_is_lost(
    before: LoreInsertion,
    added: bool,
    after: LoreInsertion,
    so_far: Set<int>,
)
    requires
        before.wf(),
        !before.is_done(),
        accounts_for(before, so_far),
        after.indices == before.indices,
        (after.settled as int, after.step, after.failed@) == before.following(added),
    ensures
        accounts_for(after, added_so_far(before, added, so_far)),
{
    assert forall|k: int| 0 <= k < after.settled implies added_so_far(
        before,
        added,
        so_far,
    ).contains(k) || #[trigger] after.failed@.contains(after.indices@[k]) by {
        if k < before.settled {
            if !so_far.contains(k) {
                assert(before.failed@.contains(before.indices@[k]));
                let j = choose|j: int|
                    0 <= j < before.failed@.len() && before.failed@[j] == before.indices@[k];
                assert(after.failed@[j] == before.indices@[k]);
            }
        } else if !added {
            assert(after.failed@[before.failed@.len() as int] == after.indices@[k]);
        }
    }
}

/// Adding emails ends: with every batch more of them are settled, or less is tried
/// at once.
pub proof fn insertions_end(before: LoreInsertion, added: bool, after: LoreInsertion)
    requires
        before.wf(),
        !before.is_done(),
        after.indices == before.indices,
        (after.settled as int, after.step, after.failed@) == before.following(added),
    ensures
        after.settled > before.settled || (after.settled == before.settled && match before.step {
            InsertStep::Whole => after.step is Chunk,
            InsertStep::Chunk => after.step is Single,
            InsertStep::Single { end } => false,
        }),
{
}

} // verus!
