//! Keeping some rows of a list: by a flag for each, or one for each key.
use vstd::prelude::*;
use crate::names::{NameMap, NameSet};
use crate::text::{decimal, decimal_of, frame, framed, lemma_contains_push, lemma_decimals_differ};
use crate::text::{lemma_framed, texts};

verus! {

/// The rows whose flag is set, in the order they came in.
pub open spec fn kept<T>(rows: Seq<T>, flags: Seq<bool>) -> Seq<T>
    decreases rows.len(),
{
    if rows.len() == 0 || flags.len() != rows.len() {
        Seq::empty()
    } else if flags.last() {
        kept(rows.drop_last(), flags.drop_last()).push(rows.last())
    } else {
        kept(rows.drop_last(), flags.drop_last())
    }
}

/// The rows whose flag is set, in the order they came in.
pub fn keep_rows<T>(rows: Vec<T>, flags: &Vec<bool>) -> (r: Vec<T>)
    requires
        flags@.len() == rows@.len(),
    ensures
        r@ == kept(rows@, flags@),
{
    let ghost all = rows@;
    let mut out: Vec<T> = Vec::new();
    let mut i: usize = 0;
    for row in it: rows
        invariant
            it.seq() == all,
            i == it.index(),
            flags.len() == all.len(),
            out@ == kept(all.take(it.index()), flags@.take(it.index())),
    {
        proof {
            assert(all.take(it.index() + 1).drop_last() =~= all.take(it.index()));
            assert(flags@.take(it.index() + 1).drop_last() =~= flags@.take(it.index()));
        }
        if flags[i] {
            out.push(row);
        }
        i += 1;
    }
    proof {
        assert(all.take(all.len() as int) =~= all);
        assert(flags@.take(all.len() as int) =~= flags@);
    }
    out
}

/// Whether a row is one of those whose flag is set.
pub open spec fn is_flagged_row<T>(rows: Seq<T>, flags: Seq<bool>, row: T) -> bool {
    exists|i: int| 0 <= i < rows.len() && #[trigger] flags[i] && rows[i] == row
}

/// What is kept are rows of the list, and every row whose flag is set is kept.
pub proof fn kept_is_what_is_flagged<T>(rows: Seq<T>, flags: Seq<bool>)
    requires
        flags.len() == rows.len(),
    ensures
        kept(rows, flags).len() <= rows.len(),
        forall|i: int|
            0 <= i < rows.len() && #[trigger] flags[i] ==> kept(rows, flags).contains(rows[i]),
        forall|k: int|
            0 <= k < kept(rows, flags).len() ==> is_flagged_row(
                rows,
                flags,
                #[trigger] kept(rows, flags)[k],
            ),
    decreases rows.len(),
{
    if rows.len() > 0 {
        let init = rows.drop_last();
        let marks = flags.drop_last();
        kept_is_what_is_flagged(init, marks);
        let r = kept(rows, flags);
        let inner = kept(init, marks);
        assert forall|i: int| 0 <= i < rows.len() && #[trigger] flags[i] implies r.contains(
            rows[i],
        ) by {
            if i < init.len() {
                assert(marks[i]);
                let k = choose|k: int| 0 <= k < inner.len() && inner[k] == init[i];
                assert(r[k] == rows[i]);
            } else {
                assert(r[r.len() - 1] == rows[i]);
            }
        }
        assert forall|k: int| 0 <= k < r.len() implies is_flagged_row(
            rows,
            flags,
            #[trigger] r[k],
        ) by {
            if k < inner.len() {
                assert(inner[k] == r[k]);
                assert(is_flagged_row(init, marks, inner[k]));
                let i = choose|i: int|
                    0 <= i < init.len() && #[trigger] marks[i] && init[i] == inner[k];
                assert(flags[i] && rows[i] == r[k]);
            } else {
                assert(flags[rows.len() - 1] && rows[rows.len() - 1] == r[k]);
            }
        }
    }
}

/// Flags that say of each row whether a condition holds keep the rows for which
/// it does.
pub proof fn kept_is_a_filter<T>(rows: Seq<T>, flags: Seq<bool>, wanted: spec_fn(T) -> bool)
    requires
        flags.len() == rows.len(),
        forall|i: int| 0 <= i < rows.len() ==> #[trigger] flags[i] == wanted(rows[i]),
    ensures
        kept(rows, flags) == rows.filter(wanted),
    decreases rows.len(),
{
    reveal(Seq::filter);
    if rows.len() > 0 {
        assert(flags[rows.len() - 1] == wanted(rows[rows.len() - 1]));
        assert forall|i: int| 0 <= i < rows.len() - 1 implies #[trigger] flags.drop_last()[i]
            == wanted(rows.drop_last()[i]) by {
            assert(flags[i] == wanted(rows[i]));
        }
        kept_is_a_filter(rows.drop_last(), flags.drop_last(), wanted);
    }
}

/// Values that rows are told apart by. Each has a code of its own, so that rows
/// are found by it.
pub trait RowKey: DeepView {
    spec fn code(v: Self::V) -> Seq<char>;

    proof fn codes_differ(a: Self::V, b: Self::V)
        ensures
            Self::code(a) == Self::code(b) ==> a == b,
    ;

    fn encode(&self) -> (r: String)
        ensures
            r@ == Self::code(self.deep_view()),
    ;
}

impl RowKey for String {
    open spec fn code(v: Seq<char>) -> Seq<char> {
        v
    }

    proof fn codes_differ(a: Seq<char>, b: Seq<char>) {
    }

    fn encode(&self) -> (r: String) {
        self.clone()
    }
}

impl RowKey for u64 {
    open spec fn code(v: u64) -> Seq<char> {
        decimal(v as nat)
    }

    proof fn codes_differ(a: u64, b: u64) {
        if decimal(a as nat) == decimal(b as nat) {
            lemma_decimals_differ(a as nat, b as nat);
        }
    }

    fn encode(&self) -> (r: String) {
        decimal_of(*self)
    }
}

impl RowKey for u32 {
    open spec fn code(v: u32) -> Seq<char> {
        decimal(v as nat)
    }

    proof fn codes_differ(a: u32, b: u32) {
        if decimal(a as nat) == decimal(b as nat) {
            lemma_decimals_differ(a as nat, b as nat);
        }
    }

    fn encode(&self) -> (r: String) {
        decimal_of(*self as u64)
    }
}

impl<A: RowKey> RowKey for Option<A> {
    open spec fn code(v: Option<A::V>) -> Seq<char> {
        match v {
            Some(a) => "+"@ + A::code(a),
            None => "-"@,
        }
    }

    proof fn codes_differ(a: Option<A::V>, b: Option<A::V>) {
        reveal_strlit("+");
        reveal_strlit("-");
        if Self::code(a) == Self::code(b) {
            let code = Self::code(a);
            if a is Some && b is Some {
                assert(A::code(a->0) =~= code.skip(1));
                assert(A::code(b->0) =~= Self::code(b).skip(1));
                A::codes_differ(a->0, b->0);
            } else if a is Some {
                assert(code[0] == '+');
            } else if b is Some {
                assert(Self::code(b)[0] == '+');
            }
        }
    }

    fn encode(&self) -> (r: String) {
        match self {
            Some(a) => {
                let mut out = String::from_str("+");
                out.append(a.encode().as_str());
                out
            },
            None => String::from_str("-"),
        }
    }
}

impl<A: RowKey, B: RowKey> RowKey for (A, B) {
    open spec fn code(v: (A::V, B::V)) -> Seq<char> {
        framed(A::code(v.0)) + B::code(v.1)
    }

    proof fn codes_differ(a: (A::V, B::V), b: (A::V, B::V)) {
        if Self::code(a) == Self::code(b) {
            lemma_framed(A::code(a.0), B::code(a.1), A::code(b.0), B::code(b.1));
            A::codes_differ(a.0, b.0);
            B::codes_differ(a.1, b.1);
        }
    }

    fn encode(&self) -> (r: String) {
        let mut out = frame(self.0.encode().as_str());
        out.append(self.1.encode().as_str());
        out
    }
}

impl<A: RowKey, B: RowKey, C: RowKey> RowKey for (A, B, C) {
    open spec fn code(v: (A::V, B::V, C::V)) -> Seq<char> {
        framed(A::code(v.0)) + (framed(B::code(v.1)) + C::code(v.2))
    }

    proof fn codes_differ(a: (A::V, B::V, C::V), b: (A::V, B::V, C::V)) {
        if Self::code(a) == Self::code(b) {
            let x = framed(B::code(a.1)) + C::code(a.2);
            let y = framed(B::code(b.1)) + C::code(b.2);
            lemma_framed(A::code(a.0), x, A::code(b.0), y);
            lemma_framed(B::code(a.1), C::code(a.2), B::code(b.1), C::code(b.2));
            A::codes_differ(a.0, b.0);
            B::codes_differ(a.1, b.1);
            C::codes_differ(a.2, b.2);
        }
    }

    fn encode(&self) -> (r: String) {
        let mut rest = frame(self.1.encode().as_str());
        rest.append(self.2.encode().as_str());
        let mut out = frame(self.0.encode().as_str());
        out.append(rest.as_str());
        out
    }
}

impl<A: RowKey, B: RowKey, C: RowKey, D: RowKey> RowKey for (A, B, C, D) {
    open spec fn code(v: (A::V, B::V, C::V, D::V)) -> Seq<char> {
        framed(A::code(v.0)) + (framed(B::code(v.1)) + (framed(C::code(v.2)) + D::code(v.3)))
    }

    proof fn codes_differ(a: (A::V, B::V, C::V, D::V), b: (A::V, B::V, C::V, D::V)) {
        if Self::code(a) == Self::code(b) {
            let x = framed(C::code(a.2)) + D::code(a.3);
            let y = framed(C::code(b.2)) + D::code(b.3);
            lemma_framed(
                A::code(a.0),
                framed(B::code(a.1)) + x,
                A::code(b.0),
                framed(B::code(b.1)) + y,
            );
            lemma_framed(B::code(a.1), x, B::code(b.1), y);
            lemma_framed(C::code(a.2), D::code(a.3), C::code(b.2), D::code(b.3));
            A::codes_differ(a.0, b.0);
            B::codes_differ(a.1, b.1);
            C::codes_differ(a.2, b.2);
            D::codes_differ(a.3, b.3);
        }
    }

    fn encode(&self) -> (r: String) {
        let mut rest = frame(self.2.encode().as_str());
        rest.append(self.3.encode().as_str());
        let mut middle = frame(self.1.encode().as_str());
        middle.append(rest.as_str());
        let mut out = frame(self.0.encode().as_str());
        out.append(middle.as_str());
        out
    }
}

/// How often a key occurs.
pub open spec fn occurrences<V>(keys: Seq<V>, key: V) -> nat
    decreases keys.len(),
{
    if keys.len() == 0 {
        0
    } else {
        occurrences(keys.drop_last(), key) + (if keys.last() == key {
            1nat
        } else {
            0
        })
    }
}

/// For each place, whether no later place has the same key.
pub open spec fn last_of_key<V>(keys: Seq<V>) -> Seq<bool> {
    Seq::new(keys.len(), |i: int| forall|j: int| i < j < keys.len() ==> keys[j] != keys[i])
}

/// For each place, whether no earlier place has the same key.
pub open spec fn first_of_key<V>(keys: Seq<V>) -> Seq<bool> {
    Seq::new(keys.len(), |i: int| forall|j: int| 0 <= j < i ==> keys[j] != keys[i])
}

/// Whether `keys` are what the key function gives for the rows, one for each.
pub open spec fn keys_given<T, K: RowKey, F: Fn(&T) -> K>(
    rows: Seq<T>,
    key: F,
    keys: Seq<K::V>,
) -> bool {
    &&& keys.len() == rows.len()
    &&& forall|i: int| 0 <= i < rows.len() ==> #[trigger] gives_key(key, rows[i], keys[i])
}

/// Whether the key function can give a row this key.
pub open spec fn gives_key<T, K: RowKey, F: Fn(&T) -> K>(key: F, row: T, given: K::V) -> bool {
    exists|k: K| #[trigger] call_ensures(key, (&row,), k) && k.deep_view() == given
}

/// For each code, whether it does not come again.
pub fn last_flags(codes: &Vec<String>) -> (r: Vec<bool>)
    ensures
        r@ == last_of_key(texts(codes@)),
{
    let ghost keys = texts(codes@);
    let mut last: NameMap<usize> = NameMap::new();
    let mut i: usize = 0;
    while i < codes.len()
        invariant
            i <= codes@.len(),
            keys == texts(codes@),
            last.wf(),
            forall|k: int| 0 <= k < i ==> last@.contains_key(#[trigger] keys[k]),
            forall|key: Seq<char>| #[trigger]
                last@.contains_key(key) ==> last@[key] < i && keys[last@[key] as int] == key
                    && forall|j: int| last@[key] < j < i ==> #[trigger] keys[j] != key,
        decreases codes@.len() - i,
    {
        let ghost had = last@;
        last.insert(codes[i].clone(), i);
        proof {
            let new = keys[i as int];
            assert forall|key: Seq<char>| #[trigger] last@.contains_key(key) implies last@[key] < i
                + 1 && keys[last@[key] as int] == key && forall|j: int|
                last@[key] < j < i + 1 ==> #[trigger] keys[j] != key by {
                if key != new {
                    assert(had.contains_key(key));
                }
            }
        }
        i += 1;
    }
    let mut flags: Vec<bool> = Vec::new();
    let mut k: usize = 0;
    let count: usize = codes.len();
    while k < count
        invariant
            k <= count == codes@.len(),
            keys == texts(codes@),
            last.wf(),
            forall|k: int| 0 <= k < count ==> last@.contains_key(#[trigger] keys[k]),
            forall|key: Seq<char>| #[trigger]
                last@.contains_key(key) ==> last@[key] < count && keys[last@[key] as int] == key
                    && forall|j: int| last@[key] < j < count ==> #[trigger] keys[j] != key,
            flags@ == last_of_key(keys).take(k as int),
        decreases count - k,
    {
        let ghost key = keys[k as int];
        assert(last@.contains_key(key));
        let is_last = match last.get(codes[k].as_str()) {
            Some(at) => *at == k,
            None => false,
        };
        proof {
            if is_last {
                assert(last_of_key(keys)[k as int]);
            } else {
                assert(keys[last@[key] as int] == keys[k as int]);
                assert(k < last@[key]);
                assert(!last_of_key(keys)[k as int]);
            }
        }
        flags.push(is_last);
        k += 1;
        assert(flags@ =~= last_of_key(keys).take(k as int));
    }
    assert(last_of_key(keys).take(k as int) =~= last_of_key(keys));
    flags
}

/// For each code, whether it did not come before.
pub fn first_flags(codes: &Vec<String>) -> (r: Vec<bool>)
    ensures
        r@ == first_of_key(texts(codes@)),
{
    let ghost keys = texts(codes@);
    let mut seen = NameSet::new();
    let mut flags: Vec<bool> = Vec::new();
    let mut i: usize = 0;
    while i < codes.len()
        invariant
            i <= codes@.len(),
            keys == texts(codes@),
            seen.wf(),
            forall|key: Seq<char>| #[trigger]
                seen@.contains(key) <==> keys.take(i as int).contains(key),
            flags@ == first_of_key(keys).take(i as int),
        decreases codes@.len() - i,
    {
        let ghost had = seen@;
        let ghost new = keys[i as int];
        let fresh = seen.insert(codes[i].as_str());
        proof {
            assert(had.contains(new) <==> keys.take(i as int).contains(new));
            if fresh {
                assert forall|j: int| 0 <= j < i implies keys[j] != new by {
                    assert(keys.take(i as int)[j] == keys[j]);
                }
            } else {
                let j = choose|j: int| 0 <= j < i && keys.take(i as int)[j] == new;
                assert(keys[j] == new);
            }
            assert(fresh == first_of_key(keys)[i as int]);
            assert(keys.take(i + 1) =~= keys.take(i as int).push(new));
            assert forall|key: Seq<char>| #[trigger] seen@.contains(key) <==> keys.take(
                i + 1,
            ).contains(key) by {
                lemma_contains_push(keys.take(i as int), new, key);
                assert(had.contains(key) <==> keys.take(i as int).contains(key));
            }
        }
        flags.push(fresh);
        i += 1;
        assert(flags@ =~= first_of_key(keys).take(i as int));
    }
    assert(first_of_key(keys).take(i as int) =~= first_of_key(keys));
    flags
}

/// One row per merge key, keeping the last.
///
/// A merge refuses a batch in which two rows match the same target row, so a
/// duplicate is not a duplicate row in the table: it is a failed insert of
/// everything batched alongside it.
pub fn one_row_per_key<T, K: RowKey, F: Fn(&T) -> K>(rows: Vec<T>, key: F) -> (r: Vec<T>)
    requires
        forall|i: int| 0 <= i < rows@.len() ==> call_requires(key, (#[trigger] &rows@[i],)),
    ensures
        exists|keys: Seq<K::V>|
            keys_given(rows@, key, keys) && r@ == #[trigger] kept(rows@, last_of_key(keys)),
{
    let mut codes: Vec<String> = Vec::new();
    let ghost mut views: Seq<K::V> = Seq::empty();
    let mut i: usize = 0;
    while i < rows.len()
        invariant
            i <= rows@.len(),
            codes@.len() == i,
            views.len() == i,
            forall|j: int| 0 <= j < rows@.len() ==> call_requires(key, (#[trigger] &rows@[j],)),
            forall|j: int| 0 <= j < i ==> #[trigger] gives_key(key, rows@[j], views[j]),
            forall|j: int| 0 <= j < i ==> #[trigger] codes@[j]@ == K::code(views[j]),
        decreases rows@.len() - i,
    {
        let row = &rows[i];
        let k = key(row);
        proof {
            assert(call_ensures(key, (&rows@[i as int],), k));
            assert(gives_key(key, rows@[i as int], k.deep_view()));
            views = views.push(k.deep_view());
        }
        codes.push(k.encode());
        i += 1;
    }
    let flags = last_flags(&codes);
    proof {
        let keys = texts(codes@);
        assert forall|a: int, b: int| 0 <= a < keys.len() && 0 <= b < keys.len() implies (
        #[trigger] keys[a] == #[trigger] keys[b] <==> views[a] == views[b]) by {
            assert(codes@[a]@ == K::code(views[a]));
            assert(codes@[b]@ == K::code(views[b]));
            K::codes_differ(views[a], views[b]);
        }
        assert forall|k: int| 0 <= k < keys.len() implies last_of_key(keys)[k] == last_of_key(
            views,
        )[k] by {
            if last_of_key(keys)[k] {
                assert forall|j: int| k < j < views.len() implies views[j] != views[k] by {
                    assert(keys[j] != keys[k]);
                }
            } else {
                let j = choose|j: int| k < j < keys.len() && keys[j] == keys[k];
                assert(views[j] == views[k]);
            }
        }
        assert(last_of_key(keys) =~= last_of_key(views));
    }
    assert(keys_given(rows@, key, views));
    keep_rows(rows, &flags)
}

/// Keeping the last row of each key keeps one row of every key.
pub proof fn every_key_keeps_one_row<V>(keys: Seq<V>, i: int)
    requires
        0 <= i < keys.len(),
    ensures
        exists|j: int| i <= j < keys.len() && keys[j] == keys[i] && #[trigger] last_of_key(keys)[j],
        forall|j: int, k: int|
            0 <= j < keys.len() && 0 <= k < keys.len() && #[trigger] last_of_key(keys)[j]
                && #[trigger] last_of_key(keys)[k] && keys[j] == keys[k] ==> j == k,
    decreases keys.len() - i,
{
    if !last_of_key(keys)[i] {
        let j = choose|j: int| i < j < keys.len() && keys[j] == keys[i];
        every_key_keeps_one_row(keys, j);
    }
}

proof fn lemma_all_kept<T>(rows: Seq<T>, flags: Seq<bool>)
    requires
        flags.len() == rows.len(),
        forall|i: int| 0 <= i < flags.len() ==> flags[i],
    ensures
        kept(rows, flags) == rows,
    decreases rows.len(),
{
    if rows.len() > 0 {
        lemma_all_kept(rows.drop_last(), flags.drop_last());
        assert(rows =~= rows.drop_last().push(rows.last()));
    } else {
        assert(rows =~= Seq::empty());
    }
}

/// Rows whose keys all differ are all kept: keeping one row of each key a second
/// time changes nothing.
pub proof fn distinct_keys_keep_every_row<T, V>(rows: Seq<T>, keys: Seq<V>)
    requires
        keys.len() == rows.len(),
        keys.no_duplicates(),
    ensures
        kept(rows, last_of_key(keys)) == rows,
        kept(rows, first_of_key(keys)) == rows,
{
    lemma_all_kept(rows, last_of_key(keys));
    lemma_all_kept(rows, first_of_key(keys));
}

/// Two tests that agree on every row keep the same rows.
pub proof fn lemma_same_filter<T>(rows: Seq<T>, a: spec_fn(T) -> bool, b: spec_fn(T) -> bool)
    requires
        forall|row: T| rows.contains(row) ==> a(row) == b(row),
    ensures
        rows.filter(a) == rows.filter(b),
    decreases rows.len(),
{
    reveal(Seq::filter);
    if rows.len() > 0 {
        let init = rows.drop_last();
        assert forall|row: T| init.contains(row) implies a(row) == b(row) by {
            let i = choose|i: int| 0 <= i < init.len() && init[i] == row;
            assert(rows[i] == row);
            assert(rows.contains(row));
        }
        assert(rows.contains(rows[rows.len() - 1]));
        lemma_same_filter(init, a, b);
    }
}

/// A test that nothing passes keeps nothing.
pub proof fn lemma_filter_nothing<T>(rows: Seq<T>)
    ensures
        rows.filter(|row: T| false).len() == 0,
    decreases rows.len(),
{
    reveal(Seq::filter);
    if rows.len() > 0 {
        lemma_filter_nothing(rows.drop_last());
    }
}

} // verus!
