//! Cutting long lists into chunks.
use vstd::prelude::*;
use crate::text::{lemma_texts_push, texts};

verus! {

/// A list cut into chunks of a size, the last of which may be shorter.
pub open spec fn chunked<T>(list: Seq<T>, size: nat) -> Seq<Seq<T>>
    decreases list.len(),
{
    if list.len() == 0 || size == 0 {
        Seq::empty()
    } else if list.len() <= size {
        seq![list]
    } else {
        seq![list.take(size as int)] + chunked(list.skip(size as int), size)
    }
}

/// Lists put one after the other.
pub open spec fn concatenated<T>(lists: Seq<Seq<T>>) -> Seq<T>
    decreases lists.len(),
{
    if lists.len() == 0 {
        Seq::empty()
    } else {
        lists[0] + concatenated(lists.skip(1))
    }
}

/// Chunks put one after the other are the list, and none is empty or too long.
pub proof fn chunks_are_the_list<T>(list: Seq<T>, size: nat)
    requires
        size > 0,
    ensures
        concatenated(chunked(list, size)) == list,
        forall|i: int|
            0 <= i < chunked(list, size).len() ==> 0 < (#[trigger] chunked(list, size)[i]).len()
                <= size,
    decreases list.len(),
{
    let chunks = chunked(list, size);
    if list.len() == 0 {
    } else if list.len() <= size {
        assert(chunks.skip(1).len() == 0);
        assert(concatenated(chunks.skip(1)) =~= Seq::empty());
        assert(concatenated(chunks) =~= list);
    } else {
        let rest = list.skip(size as int);
        chunks_are_the_list(rest, size);
        assert(chunks.skip(1) =~= chunked(rest, size));
        assert(list.take(size as int) + rest =~= list);
        assert forall|i: int| 0 <= i < chunks.len() implies 0 < (#[trigger] chunks[i]).len()
            <= size by {
            if i > 0 {
                assert(chunks[i] == chunked(rest, size)[i - 1]);
            }
        }
    }
}

/// The texts of some lists.
pub open spec fn texts_of(lists: Seq<Vec<String>>) -> Seq<Seq<Seq<char>>> {
    lists.map_values(|list: Vec<String>| texts(list@))
}

proof fn lemma_take_chunk<T>(list: Seq<T>, at: int, end: int)
    requires
        0 <= at <= end <= list.len(),
    ensures
        list.skip(at).take(end - at) == list.subrange(at, end),
        list.skip(at).skip(end - at) == list.skip(end),
{
    assert(list.skip(at).take(end - at) =~= list.subrange(at, end));
    assert(list.skip(at).skip(end - at) =~= list.skip(end));
}

/// Cuts a list into chunks.
pub fn chunk_texts(list: &[String], size: usize) -> (r: Vec<Vec<String>>)
    requires
        size > 0,
    ensures
        texts_of(r@) == chunked(texts(list@), size as nat),
{
    let ghost all = texts(list@);
    let mut out: Vec<Vec<String>> = Vec::new();
    let mut at: usize = 0;
    let count: usize = list.len();
    assert(all.skip(0) =~= all);
    assert(texts_of(out@) =~= Seq::empty());
    assert(texts_of(out@) + chunked(all, size as nat) =~= chunked(all, size as nat));
    while at < count
        invariant
            size > 0,
            at <= count,
            count == list@.len(),
            all == texts(list@),
            texts_of(out@) + chunked(all.skip(at as int), size as nat) == chunked(
                all,
                size as nat,
            ),
        decreases count - at,
    {
        let ghost rest = all.skip(at as int);
        let end: usize = if count - at <= size {
            count
        } else {
            at + size
        };
        let mut chunk: Vec<String> = Vec::new();
        let mut i: usize = at;
        assert(texts(chunk@) =~= all.subrange(at as int, at as int));
        while i < end
            invariant
                at <= i <= end <= list@.len(),
                all == texts(list@),
                texts(chunk@) == all.subrange(at as int, i as int),
            decreases end - i,
        {
            let copy = list[i].clone();
            proof {
                lemma_texts_push(chunk@, copy);
                assert(all.subrange(at as int, i + 1) =~= all.subrange(at as int, i as int).push(
                    copy@,
                ));
            }
            chunk.push(copy);
            i += 1;
        }
        let ghost had = texts_of(out@);
        proof {
            lemma_take_chunk(all, at as int, end as int);
            assert(texts_of(out@.push(chunk)) =~= had.push(texts(chunk@)));
            let after = all.skip(end as int);
            if rest.len() <= size {
                assert(rest.take(end - at) =~= rest);
                assert(after =~= Seq::empty());
                assert(had.push(rest) + chunked(after, size as nat) =~= had + seq![rest]);
            } else {
                assert(had.push(rest.take(size as int)) + chunked(after, size as nat) =~= had + (
                seq![rest.take(size as int)] + chunked(after, size as nat)));
            }
        }
        out.push(chunk);
        at = end;
    }
    assert(all.skip(at as int) =~= Seq::empty());
    assert(texts_of(out@) + Seq::<Seq<Seq<char>>>::empty() =~= texts_of(out@));
    out
}

} // verus!
