//! What the operations on texts promise, each said of the characters themselves.
use vstd::prelude::*;
use crate::order::before;
use crate::text::{
    after_prefix, at_most_chars, before_suffix, decimal, has_part, has_prefix, has_suffix, joined,
    lemma_words_and_one_more, lemma_words_are_words, lemma_words_of_joined, normalized, one_word,
    pieces, replaced, stands_at, trimmed, trimmed_end, trimmed_start, white_space, words,
};

verus! {

/// White space among the characters of ASCII: the tab, the ends of lines and pages,
/// and the space.
pub proof fn white_space_of_ascii(c: char)
    requires
        (c as u32) < 128,
    ensures
        white_space(c) <==> c == ' ' || c == '\t' || c == '\n' || c == '\r' || c as u32 == 11
            || c as u32 == 12,
{
}

/// A text stands before another where they part: there it ends, or has the smaller
/// character.
pub proof fn texts_are_ordered_where_they_part(a: Seq<char>, b: Seq<char>)
    ensures
        before(a, b) <==> exists|k: int| #[trigger] part_at_place(a, b, k),
    decreases a.len(),
{
    if a.len() > 0 && b.len() > 0 && a[0] == b[0] {
        let x = a.skip(1);
        let y = b.skip(1);
        texts_are_ordered_where_they_part(x, y);
        if before(x, y) {
            let k = choose|k: int| #[trigger] part_at_place(x, y, k);
            assert(b.take(k + 1) =~= seq![b[0]] + y.take(k));
            assert(a.take(k + 1) =~= seq![a[0]] + x.take(k));
            if k < x.len() {
                assert(x[k] == a[k + 1]);
            }
            assert(y[k] == b[k + 1]);
            assert(part_at_place(a, b, k + 1));
        }
        if exists|k: int| #[trigger] part_at_place(a, b, k) {
            let k = choose|k: int| #[trigger] part_at_place(a, b, k);
            if k == 0 {
                assert(false);
            }
            assert(a.take(k).skip(1) =~= x.take(k - 1));
            assert(b.take(k).skip(1) =~= y.take(k - 1));
            if k < a.len() {
                assert(x[k - 1] == a[k]);
            }
            assert(y[k - 1] == b[k]);
            assert(part_at_place(x, y, k - 1));
        }
    } else {
        if before(a, b) {
            assert(a.take(0) =~= b.take(0));
            assert(part_at_place(a, b, 0));
        }
        if exists|k: int| #[trigger] part_at_place(a, b, k) {
            let k = choose|k: int| #[trigger] part_at_place(a, b, k);
            if k > 0 {
                assert(a.take(k)[0] == b.take(k)[0]);
            }
        }
    }
}

/// Whether two texts are the same up to a place, and there the first ends or has the
/// smaller character.
pub open spec fn part_at_place(a: Seq<char>, b: Seq<char>, k: int) -> bool {
    0 <= k <= a.len() && k < b.len() && a.take(k) == b.take(k) && (k == a.len() || (a[k] as int) < (
    b[k] as int))
}

/// The value of a text of decimal digits.
pub open spec fn number(s: Seq<char>) -> int
    decreases s.len(),
{
    if s.len() == 0 {
        0
    } else {
        number(s.drop_last()) * 10 + (s.last() as int - '0' as int)
    }
}

/// A number is written with the digits that have its value, the first of them no
/// zero unless it stands alone.
pub proof fn decimals_have_their_value(n: nat)
    ensures
        number(decimal(n)) == n,
        decimal(n).len() > 0,
        decimal(n).len() > 1 ==> decimal(n)[0] != '0',
        n == 0 ==> decimal(n).len() == 1,
        forall|i: int| 0 <= i < decimal(n).len() ==> '0' <= #[trigger] decimal(n)[i] <= '9',
    decreases n,
{
    reveal_with_fuel(number, 2);
    if n < 10 {
        assert(decimal(n).drop_last() =~= Seq::empty());
    } else {
        decimals_have_their_value(n / 10);
        let d = decimal(n / 10);
        assert(decimal(n).drop_last() =~= d);
        assert forall|i: int| 0 <= i < decimal(n).len() implies '0' <= #[trigger] decimal(n)[i]
            <= '9' by {
            if i < d.len() {
                assert(decimal(n)[i] == d[i]);
            }
        }
        if d.len() == 1 {
            assert(d.drop_last() =~= Seq::empty());
            assert(number(d) == d[0] as int - '0' as int);
        }
        assert(decimal(n)[0] == d[0]);
    }
}

/// A text is its pieces with the separator between them, and no piece has it.
pub proof fn pieces_make_the_text(s: Seq<char>, sep: char)
    ensures
        pieces(s, sep).len() > 0,
        joined(pieces(s, sep), seq![sep]) == s,
        forall|i: int| 0 <= i < pieces(s, sep).len() ==> !(#[trigger] pieces(s, sep)[i]).contains(
            sep,
        ),
    decreases s.len(),
{
    if s.len() > 0 {
        let init = s.drop_last();
        pieces_make_the_text(init, sep);
        let p = pieces(init, sep);
        let now = pieces(s, sep);
        assert(s =~= init.push(s.last()));
        if s.last() == sep {
            assert(now.drop_last() =~= p);
            assert(joined(now, seq![sep]) =~= s);
        } else {
            let last = p.last().push(s.last());
            crate::text::lemma_contains_push(p.last(), s.last(), sep);
            assert(!p[p.len() - 1].contains(sep));
            assert(now.last() == last);
            assert(now.drop_last() =~= p.drop_last());
            if p.len() == 1 {
                assert(joined(now, seq![sep]) =~= s);
            } else {
                assert(joined(now, seq![sep]) =~= joined(p.drop_last(), seq![sep]) + seq![sep]
                    + last);
                assert(joined(now, seq![sep]) =~= joined(p, seq![sep]).push(s.last()));
            }
        }
    } else {
        assert(joined(pieces(s, sep), seq![sep]) =~= s);
    }
}

/// Joining is by one separator between each two neighbours: nothing for no parts,
/// the part itself for one, and two lists are joined by joining each.
pub proof fn parts_are_joined_by_the_separator(
    a: Seq<Seq<char>>,
    b: Seq<Seq<char>>,
    sep: Seq<char>,
)
    ensures
        a.len() == 0 ==> joined(a, sep).len() == 0,
        a.len() == 1 ==> joined(a, sep) == a[0],
        a.len() > 0 && b.len() > 0 ==> joined(a + b, sep) == joined(a, sep) + sep + joined(b, sep),
    decreases b.len(),
{
    if a.len() > 0 && b.len() > 0 {
        assert((a + b).drop_last() =~= a + b.drop_last());
        if b.len() == 1 {
            assert(a + b.drop_last() =~= a);
            assert((a + b).last() == b[0]);
        } else {
            parts_are_joined_by_the_separator(a, b.drop_last(), sep);
            assert(joined(a + b, sep) =~= joined(a, sep) + sep + joined(b, sep));
        }
    }
}

/// The words of a text have no white space in them, and words with a space between
/// each two are those words again.
pub proof fn words_have_no_white_space(s: Seq<char>, parts: Seq<Seq<char>>)
    requires
        forall|i: int| 0 <= i < parts.len() ==> one_word(#[trigger] parts[i]),
    ensures
        forall|i: int| 0 <= i < words(s).len() ==> one_word(#[trigger] words(s)[i]),
        words(joined(parts, " "@)) == parts,
        normalized(joined(parts, " "@)) == joined(parts, " "@),
{
    lemma_words_are_words(s);
    lemma_words_of_joined(parts);
}

/// A word is added by white space and the word; white space alone adds nothing.
pub proof fn words_are_parted_by_white_space(s: Seq<char>, c: char, word: Seq<char>)
    requires
        white_space(c),
        one_word(word),
    ensures
        words(s.push(c)) == words(s),
        words(s.push(c) + word) == words(s).push(word),
        words(word) == seq![word],
{
    assert(s.push(c).drop_last() =~= s);
    lemma_words_and_one_more(s.push(c), word);
    let nothing = Seq::<char>::empty();
    lemma_words_and_one_more(nothing, word);
    assert(nothing + word =~= word);
    assert(words(nothing) =~= Seq::empty());
    assert(Seq::<Seq<char>>::empty().push(word) =~= seq![word]);
}

/// Whether a text is white space throughout.
pub open spec fn all_white(s: Seq<char>) -> bool {
    forall|i: int| 0 <= i < s.len() ==> white_space(#[trigger] s[i])
}

proof fn lemma_trimmed_start(s: Seq<char>) -> (lead: Seq<char>)
    ensures
        s == lead + trimmed_start(s),
        all_white(lead),
        trimmed_start(s).len() > 0 ==> !white_space(trimmed_start(s)[0]),
    decreases s.len(),
{
    if s.len() > 0 && white_space(s[0]) {
        let rest = lemma_trimmed_start(s.skip(1));
        let lead = seq![s[0]] + rest;
        assert(s =~= lead + trimmed_start(s)) by {
            assert(s =~= seq![s[0]] + s.skip(1));
        }
        lead
    } else {
        assert(s =~= Seq::empty() + s);
        Seq::empty()
    }
}

proof fn lemma_trimmed_end(s: Seq<char>) -> (tail: Seq<char>)
    ensures
        s == trimmed_end(s) + tail,
        all_white(tail),
        trimmed_end(s).len() > 0 ==> !white_space(trimmed_end(s).last()),
    decreases s.len(),
{
    if s.len() > 0 && white_space(s.last()) {
        let rest = lemma_trimmed_end(s.drop_last());
        let tail = rest.push(s.last());
        assert(s =~= trimmed_end(s) + tail) by {
            assert(s =~= s.drop_last().push(s.last()));
        }
        tail
    } else {
        assert(s =~= s + Seq::empty());
        Seq::empty()
    }
}

/// Trimming cuts white space off both ends, and all of it.
pub proof fn trimming_cuts_white_space_off(s: Seq<char>)
    ensures
        exists|lead: Seq<char>, tail: Seq<char>|
            #![trigger all_white(lead), all_white(tail)]
            s == lead + trimmed(s) + tail && all_white(lead) && all_white(tail),
        trimmed(s).len() > 0 ==> !white_space(trimmed(s)[0]) && !white_space(trimmed(s).last()),
{
    let lead = lemma_trimmed_start(s);
    let tail = lemma_trimmed_end(trimmed_start(s));
    assert(s =~= lead + trimmed(s) + tail);
    assert(all_white(lead) && all_white(tail));
    if trimmed(s).len() > 0 {
        assert(trimmed(s)[0] == trimmed_start(s)[0]);
    }
}

/// Replacing a character goes through a text piece by piece: the character becomes
/// what stands for it, and any other stays.
pub proof fn replacing_goes_through_the_text(
    a: Seq<char>,
    b: Seq<char>,
    c: char,
    other: char,
    with: Seq<char>,
)
    ensures
        replaced(a + b, c, with) == replaced(a, c, with) + replaced(b, c, with),
        replaced(seq![c], c, with) == with,
        other != c ==> replaced(seq![other], c, with) == seq![other],
        !a.contains(c) ==> replaced(a, c, with) == a,
    decreases b.len(),
{
    reveal_with_fuel(replaced, 2);
    let one = seq![c];
    assert(one.drop_last() =~= Seq::empty());
    assert(replaced(one, c, with) =~= with);
    let two = seq![other];
    assert(two.drop_last() =~= Seq::empty());
    if other != c {
        assert(replaced(two, c, with) =~= seq![other]);
    }
    if !a.contains(c) {
        lemma_nothing_replaced(a, c, with);
    }
    if b.len() == 0 {
        assert(a + b =~= a);
        assert(replaced(a + b, c, with) =~= replaced(a, c, with) + replaced(b, c, with));
    } else {
        replacing_goes_through_the_text(a, b.drop_last(), c, other, with);
        assert((a + b).drop_last() =~= a + b.drop_last());
        assert(replaced(a + b, c, with) =~= replaced(a, c, with) + replaced(b, c, with));
    }
}

proof fn lemma_nothing_replaced(a: Seq<char>, c: char, with: Seq<char>)
    requires
        !a.contains(c),
    ensures
        replaced(a, c, with) == a,
    decreases a.len(),
{
    if a.len() > 0 {
        let init = a.drop_last();
        assert forall|i: int| 0 <= i < init.len() implies init[i] != c by {
            assert(a[i] == init[i]);
        }
        lemma_nothing_replaced(init, c, with);
        assert(a[a.len() - 1] != c);
        assert(replaced(a, c, with) =~= a);
    } else {
        assert(replaced(a, c, with) =~= a);
    }
}

/// A text begins with another where it is that one and more, ends with it where it
/// is more and that one, and has it in it where it stands between two others.
pub proof fn parts_of_a_text_stand_in_it(s: Seq<char>, part: Seq<char>, rest: Seq<char>)
    ensures
        has_prefix(s, part) <==> exists|more: Seq<char>| s == #[trigger] (part + more),
        has_suffix(s, part) <==> exists|more: Seq<char>| s == #[trigger] (more + part),
        has_part(s + part + rest, part),
        has_part(s, part) ==> exists|a: Seq<char>, b: Seq<char>| s == #[trigger] (a + part + b),
        after_prefix(part + rest, part) == Some(rest),
        before_suffix(rest + part, part) == Some(rest),
        after_prefix(s, part) is Some ==> s == part + after_prefix(s, part)->0,
        before_suffix(s, part) is Some ==> s == before_suffix(s, part)->0 + part,
{
    if has_prefix(s, part) {
        assert(s =~= part + s.skip(part.len() as int));
    }
    if exists|more: Seq<char>| s == #[trigger] (part + more) {
        let more = choose|more: Seq<char>| s == #[trigger] (part + more);
        assert((part + more).take(part.len() as int) =~= part);
    }
    if has_suffix(s, part) {
        assert(s =~= s.take(s.len() - part.len()) + part);
    }
    if exists|more: Seq<char>| s == #[trigger] (more + part) {
        let more = choose|more: Seq<char>| s == #[trigger] (more + part);
        assert((more + part).skip(more.len() as int) =~= part);
    }
    let whole = s + part + rest;
    assert(whole.subrange(s.len() as int, s.len() as int + part.len()) =~= part);
    assert(stands_at(whole, part, s.len() as int));
    if has_part(s, part) {
        let at = choose|at: int| stands_at(s, part, at);
        let a = s.take(at);
        let b = s.skip(at + part.len());
        assert(s =~= a + part + b);
    }
    let p = part + rest;
    assert(p.take(part.len() as int) =~= part);
    assert(p.skip(part.len() as int) =~= rest);
    let q = rest + part;
    assert(q.skip(rest.len() as int) =~= part);
    assert(q.take(rest.len() as int) =~= rest);
}

/// A text cut to a number of characters is its beginning: all of it where it is no
/// longer.
pub proof fn a_cut_text_is_its_beginning(s: Seq<char>, n: nat)
    ensures
        at_most_chars(s, n).len() <= n,
        at_most_chars(s, n).is_prefix_of(s),
        at_most_chars(s, n).len() < n ==> at_most_chars(s, n) == s,
{
    assert(s.take(s.len() as int) =~= s);
    assert(at_most_chars(s, n) =~= s.take(at_most_chars(s, n).len() as int));
}

} // verus!
