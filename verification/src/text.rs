//! Text as the library reasons about it: sequences of characters, their order,
//! their words and their pieces.
use vstd::prelude::*;
use vstd::utf8::encode_utf8;

verus! {

/// `String::push` adds one character at the end.
pub assume_specification[ String::push ](s: &mut String, c: char)
    ensures
        final(s)@ == old(s)@.push(c),
;

/// `str`'s `==` compares the characters of the two strings.
#[verifier::external_body]
pub(crate) fn str_eq(a: &str, b: &str) -> (same: bool)
    ensures
        same == (a@ == b@),
{
    a == b
}

/// Whether a character has Unicode's White_Space property, which is what
/// separates words.
pub open spec fn white_space(c: char) -> bool {
    let code = c as u32;
    ||| 9 <= code <= 13
    ||| code == 0x20
    ||| code == 0x85
    ||| code == 0xa0
    ||| code == 0x1680
    ||| 0x2000 <= code <= 0x200a
    ||| code == 0x2028
    ||| code == 0x2029
    ||| code == 0x202f
    ||| code == 0x205f
    ||| code == 0x3000
}

pub fn is_white_space(c: char) -> (r: bool)
    ensures
        r == white_space(c),
{
    let code: u32 = c as u32;
    (9 <= code && code <= 13) || code == 0x20 || code == 0x85 || code == 0xa0 || code == 0x1680 || (
    0x2000 <= code && code <= 0x200a) || code == 0x2028 || code == 0x2029 || code == 0x202f || code
        == 0x205f || code == 0x3000
}

/// Whether Unicode counts a character as a letter or a number.
pub uninterp spec fn alphanumeric(c: char) -> bool;

/// Whether a character is an ASCII letter or digit.
pub open spec fn ascii_alphanumeric(c: char) -> bool {
    ('0' <= c && c <= '9') || ('A' <= c && c <= 'Z') || ('a' <= c && c <= 'z')
}

/// `char::is_alphanumeric`: what Unicode's tables say of the character, which
/// for an ASCII character is whether it is a letter or a digit.
#[verifier::external_body]
pub(crate) fn is_alphanumeric(c: char) -> (r: bool)
    ensures
        r == alphanumeric(c),
        c <= '\x7f' ==> r == ascii_alphanumeric(c),
{
    c.is_alphanumeric()
}

/// Whether Unicode counts a character as a number.
pub uninterp spec fn numeric(c: char) -> bool;

/// `char::is_numeric`: what Unicode's tables say of the character, which for an
/// ASCII character is whether it is a digit.
#[verifier::external_body]
pub(crate) fn is_numeric(c: char) -> (r: bool)
    ensures
        r == numeric(c),
        c <= '\x7f' ==> r == ('0' <= c && c <= '9'),
{
    c.is_numeric()
}

/// The characters of a string, one by one.
pub fn chars_of(s: &str) -> (r: Vec<char>)
    ensures
        r@ == s@,
{
    let mut r: Vec<char> = Vec::new();
    for c in it: s.chars()
        invariant
            it.seq() == s@,
            r@ == s@.take(it.index()),
    {
        r.push(c);
    }
    r
}

/// The string made of the characters from `from` up to `to`.
pub fn slice_of(chars: &Vec<char>, from: usize, to: usize) -> (r: String)
    requires
        from <= to <= chars@.len(),
    ensures
        r@ == chars@.subrange(from as int, to as int),
{
    let mut r = String::new();
    let mut i: usize = from;
    while i < to
        invariant
            from <= i <= to <= chars@.len(),
            r@ == chars@.subrange(from as int, i as int),
        decreases to - i,
    {
        r.push(chars[i]);
        i += 1;
    }
    r
}

/// The character sequences of a list of strings.
pub open spec fn texts(v: Seq<String>) -> Seq<Seq<char>> {
    v.map_values(|s: String| s@)
}

/// Whether `s` begins with `prefix`.
pub open spec fn has_prefix(s: Seq<char>, prefix: Seq<char>) -> bool {
    prefix.len() <= s.len() && s.take(prefix.len() as int) == prefix
}

/// Whether `s` ends with `suffix`.
pub open spec fn has_suffix(s: Seq<char>, suffix: Seq<char>) -> bool {
    suffix.len() <= s.len() && s.skip(s.len() - suffix.len()) == suffix
}

/// Whether `part` stands in `s` at position `at`.
pub open spec fn stands_at(s: Seq<char>, part: Seq<char>, at: int) -> bool {
    0 <= at && at + part.len() <= s.len() && s.subrange(at, at + part.len()) == part
}

/// Whether `part` stands somewhere in `s`.
pub open spec fn has_part(s: Seq<char>, part: Seq<char>) -> bool {
    exists|at: int| stands_at(s, part, at)
}

/// The words of a text: its maximal runs of characters that are not white space.
pub open spec fn words(s: Seq<char>) -> Seq<Seq<char>>
    decreases s.len(),
{
    if s.len() == 0 {
        Seq::empty()
    } else {
        let before = words(s.drop_last());
        let c = s.last();
        if white_space(c) {
            before
        } else if s.len() == 1 || white_space(s[s.len() - 2]) {
            before.push(seq![c])
        } else {
            before.update(before.len() - 1, before.last().push(c))
        }
    }
}

/// The parts with a separator between each two neighbours.
pub open spec fn joined(parts: Seq<Seq<char>>, sep: Seq<char>) -> Seq<char>
    decreases parts.len(),
{
    if parts.len() == 0 {
        Seq::empty()
    } else if parts.len() == 1 {
        parts[0]
    } else {
        joined(parts.drop_last(), sep) + sep + parts.last()
    }
}

/// The pieces of a text between the occurrences of one character.
pub open spec fn pieces(s: Seq<char>, sep: char) -> Seq<Seq<char>>
    decreases s.len(),
{
    if s.len() == 0 {
        seq![Seq::empty()]
    } else {
        let before = pieces(s.drop_last(), sep);
        if s.last() == sep {
            before.push(Seq::empty())
        } else {
            before.update(before.len() - 1, before.last().push(s.last()))
        }
    }
}

/// The text with `with` in place of every occurrence of one character.
pub open spec fn replaced(s: Seq<char>, c: char, with: Seq<char>) -> Seq<char>
    decreases s.len(),
{
    if s.len() == 0 {
        Seq::empty()
    } else if s.last() == c {
        replaced(s.drop_last(), c, with) + with
    } else {
        replaced(s.drop_last(), c, with).push(s.last())
    }
}

/// The text without the white space it starts with.
pub open spec fn trimmed_start(s: Seq<char>) -> Seq<char>
    decreases s.len(),
{
    if s.len() > 0 && white_space(s[0]) {
        trimmed_start(s.skip(1))
    } else {
        s
    }
}

/// The text without the white space it ends with.
pub open spec fn trimmed_end(s: Seq<char>) -> Seq<char>
    decreases s.len(),
{
    if s.len() > 0 && white_space(s.last()) {
        trimmed_end(s.drop_last())
    } else {
        s
    }
}

/// The text without white space at either end.
pub open spec fn trimmed(s: Seq<char>) -> Seq<char> {
    trimmed_end(trimmed_start(s))
}

/// A decimal digit as a character.
pub open spec fn digit(d: nat) -> char {
    (48 + d) as char
}

/// A number in decimal notation.
pub open spec fn decimal(n: nat) -> Seq<char>
    decreases n,
{
    if n < 10 {
        seq![digit(n)]
    } else {
        decimal(n / 10).push(digit(n % 10))
    }
}

pub proof fn lemma_texts_push(v: Seq<String>, s: String)
    ensures
        texts(v.push(s)) == texts(v).push(s@),
{
    assert(texts(v.push(s)) =~= texts(v).push(s@));
}

/// The words of a text.
pub fn split_words(s: &str) -> (r: Vec<String>)
    ensures
        texts(r@) == words(s@),
{
    let chars = chars_of(s);
    let mut out: Vec<String> = Vec::new();
    let mut current = String::new();
    let mut i: usize = 0;
    while i < chars.len()
        invariant
            i <= chars@.len(),
            chars@ == s@,
            current@.len() > 0 <==> (i > 0 && !white_space(chars@[i - 1])),
            words(chars@.take(i as int)) == (if current@.len() > 0 {
                texts(out@).push(current@)
            } else {
                texts(out@)
            }),
        decreases chars@.len() - i,
    {
        let c = chars[i];
        let ghost next = chars@.take(i + 1);
        assert(next.drop_last() =~= chars@.take(i as int));
        assert(next.last() == c);
        if is_white_space(c) {
            if !current.as_str().is_empty() {
                proof {
                    lemma_texts_push(out@, current);
                }
                out.push(current);
                current = String::new();
            }
        } else {
            proof {
                if current@.len() > 0 {
                    assert(texts(out@).push(current@).update(texts(out@).len() as int, current@.push(c))
                        =~= texts(out@).push(current@.push(c)));
                } else {
                    assert(current@.push(c) =~= seq![c]);
                }
            }
            current.push(c);
        }
        i += 1;
    }
    assert(chars@.take(i as int) =~= s@);
    if !current.as_str().is_empty() {
        proof {
            lemma_texts_push(out@, current);
        }
        out.push(current);
    }
    out
}

/// The strings with a separator between each two neighbours.
pub fn join(parts: &Vec<String>, sep: &str) -> (r: String)
    ensures
        r@ == joined(texts(parts@), sep@),
{
    let mut out = String::new();
    let mut i: usize = 0;
    while i < parts.len()
        invariant
            i <= parts@.len(),
            out@ == joined(texts(parts@).take(i as int), sep@),
        decreases parts@.len() - i,
    {
        let ghost next = texts(parts@).take(i + 1);
        assert(next.drop_last() =~= texts(parts@).take(i as int));
        if i > 0 {
            out.append(sep);
        }
        out.append(parts[i].as_str());
        proof {
            if i == 0 {
                assert(out@ =~= next[0]);
            }
        }
        i += 1;
    }
    assert(texts(parts@).take(i as int) =~= texts(parts@));
    out
}

/// The pieces of a text between the occurrences of one character.
pub fn split_on(s: &str, sep: char) -> (r: Vec<String>)
    ensures
        texts(r@) == pieces(s@, sep),
        r@.len() > 0,
{
    let chars = chars_of(s);
    let mut out: Vec<String> = Vec::new();
    let mut current = String::new();
    let mut i: usize = 0;
    assert(texts(out@).push(current@) =~= seq![Seq::<char>::empty()]);
    assert(chars@.take(0) =~= Seq::<char>::empty());
    while i < chars.len()
        invariant
            i <= chars@.len(),
            chars@ == s@,
            pieces(chars@.take(i as int), sep) == texts(out@).push(current@),
        decreases chars@.len() - i,
    {
        let c = chars[i];
        let ghost next = chars@.take(i + 1);
        assert(next.drop_last() =~= chars@.take(i as int));
        if c == sep {
            proof {
                lemma_texts_push(out@, current);
            }
            out.push(current);
            current = String::new();
        } else {
            proof {
                assert(texts(out@).push(current@).update(texts(out@).len() as int, current@.push(c))
                    =~= texts(out@).push(current@.push(c)));
            }
            current.push(c);
        }
        i += 1;
    }
    assert(chars@.take(i as int) =~= s@);
    proof {
        lemma_texts_push(out@, current);
    }
    out.push(current);
    out
}

proof fn lemma_pieces_nonempty(s: Seq<char>, sep: char)
    ensures
        pieces(s, sep).len() > 0,
    decreases s.len(),
{
    if s.len() > 0 {
        lemma_pieces_nonempty(s.drop_last(), sep);
    }
}

/// A text without the separator is one piece.
pub proof fn lemma_one_piece(s: Seq<char>, sep: char)
    requires
        !s.contains(sep),
    ensures
        pieces(s, sep) == seq![s],
    decreases s.len(),
{
    if s.len() > 0 {
        assert(s.last() != sep);
        assert forall|i: int| 0 <= i < s.drop_last().len() implies s.drop_last()[i] != sep by {
            assert(s[i] == s.drop_last()[i]);
        }
        lemma_one_piece(s.drop_last(), sep);
        assert(s =~= s.drop_last().push(s.last()));
        assert(pieces(s, sep) =~= seq![s]);
    } else {
        assert(s =~= Seq::<char>::empty());
    }
}

/// What stands before the first separator is the first piece.
pub proof fn lemma_first_piece(before: Seq<char>, sep: char, after: Seq<char>)
    requires
        !before.contains(sep),
    ensures
        pieces(before + seq![sep] + after, sep).len() >= 2,
        pieces(before + seq![sep] + after, sep)[0] == before,
    decreases after.len(),
{
    let whole = before + seq![sep] + after;
    if after.len() == 0 {
        assert(whole.drop_last() =~= before);
        lemma_one_piece(before, sep);
    } else {
        assert(whole.drop_last() =~= before + seq![sep] + after.drop_last());
        lemma_first_piece(before, sep, after.drop_last());
    }
}

/// The text with `with` in place of every occurrence of one character.
pub fn replace_char(s: &str, c: char, with: &str) -> (r: String)
    ensures
        r@ == replaced(s@, c, with@),
{
    let chars = chars_of(s);
    let mut out = String::new();
    let mut i: usize = 0;
    assert(chars@.take(0) =~= Seq::<char>::empty());
    while i < chars.len()
        invariant
            i <= chars@.len(),
            chars@ == s@,
            out@ == replaced(chars@.take(i as int), c, with@),
        decreases chars@.len() - i,
    {
        let ghost next = chars@.take(i + 1);
        assert(next.drop_last() =~= chars@.take(i as int));
        if chars[i] == c {
            out.append(with);
        } else {
            out.push(chars[i]);
        }
        i += 1;
    }
    assert(chars@.take(i as int) =~= s@);
    out
}

/// The text without white space at either end.
pub fn trim(s: &str) -> (r: String)
    ensures
        r@ == trimmed(s@),
{
    let chars = chars_of(s);
    let mut from: usize = 0;
    assert(s@.skip(0) =~= s@);
    while from < chars.len() && is_white_space(chars[from])
        invariant
            from <= chars@.len(),
            chars@ == s@,
            trimmed_start(s@) == trimmed_start(s@.skip(from as int)),
        decreases chars@.len() - from,
    {
        assert(s@.skip(from as int).skip(1) =~= s@.skip(from + 1));
        from += 1;
    }
    let mut to: usize = chars.len();
    let ghost rest = s@.skip(from as int);
    assert(trimmed_start(s@) == rest);
    assert(s@.subrange(from as int, to as int) =~= rest);
    while from < to && is_white_space(chars[to - 1])
        invariant
            from <= to <= chars@.len(),
            chars@ == s@,
            trimmed_end(rest) == trimmed_end(s@.subrange(from as int, to as int)),
        decreases to,
    {
        let ghost now = s@.subrange(from as int, to as int);
        assert(now.drop_last() =~= s@.subrange(from as int, to - 1));
        assert(now.last() == chars@[to - 1]);
        to -= 1;
    }
    slice_of(&chars, from, to)
}

/// Whether `part` stands in `chars` at position `at`.
pub fn part_at(chars: &Vec<char>, part: &Vec<char>, at: usize) -> (r: bool)
    requires
        at <= chars@.len(),
    ensures
        r == stands_at(chars@, part@, at as int),
{
    if part.len() > chars.len() - at {
        return false;
    }
    let mut i: usize = 0;
    while i < part.len()
        invariant
            i <= part@.len(),
            at + part.len() <= chars.len(),
            forall|j: int| 0 <= j < i ==> chars@[at + j] == part@[j],
        decreases part@.len() - i,
    {
        if chars[at + i] != part[i] {
            assert(chars@.subrange(at as int, at + part@.len())[i as int] != part@[i as int]);
            return false;
        }
        i += 1;
    }
    assert(chars@.subrange(at as int, at + part@.len()) =~= part@);
    true
}

/// Whether `s` begins with `prefix`.
pub fn starts_with(s: &str, prefix: &str) -> (r: bool)
    ensures
        r == has_prefix(s@, prefix@),
{
    let chars = chars_of(s);
    let part = chars_of(prefix);
    assert(stands_at(s@, prefix@, 0) == has_prefix(s@, prefix@)) by {
        if prefix@.len() <= s@.len() {
            assert(s@.subrange(0, prefix@.len() as int) =~= s@.take(prefix@.len() as int));
        }
    }
    part_at(&chars, &part, 0)
}

/// Whether `s` ends with `suffix`.
pub fn ends_with(s: &str, suffix: &str) -> (r: bool)
    ensures
        r == has_suffix(s@, suffix@),
{
    let chars = chars_of(s);
    let part = chars_of(suffix);
    if part.len() > chars.len() {
        return false;
    }
    assert(s@.subrange(s@.len() - suffix@.len(), s@.len() as int) =~= s@.skip(
        s@.len() - suffix@.len(),
    ));
    part_at(&chars, &part, chars.len() - part.len())
}

/// Whether `part` stands somewhere in `s`.
pub fn contains(s: &str, part: &str) -> (r: bool)
    ensures
        r == has_part(s@, part@),
{
    let chars = chars_of(s);
    let wanted = chars_of(part);
    let mut at: usize = 0;
    while at <= chars.len()
        invariant
            at <= chars@.len() + 1,
            chars@ == s@,
            wanted@ == part@,
            forall|j: int| 0 <= j < at ==> !stands_at(s@, part@, j),
        decreases chars@.len() + 1 - at,
    {
        if part_at(&chars, &wanted, at) {
            return true;
        }
        if at == chars.len() {
            return false;
        }
        at += 1;
    }
    false
}

/// Where a character first stands in some others, if it does.
pub fn first_index(chars: &Vec<char>, c: char) -> (r: Option<usize>)
    ensures
        match r {
            Some(i) => i < chars@.len() && chars@[i as int] == c && !chars@.take(
                i as int,
            ).contains(c),
            None => !chars@.contains(c),
        },
{
    let mut i: usize = 0;
    while i < chars.len()
        invariant
            i <= chars@.len(),
            forall|j: int| 0 <= j < i ==> chars@[j] != c,
        decreases chars@.len() - i,
    {
        if chars[i] == c {
            return Some(i);
        }
        i += 1;
    }
    None
}

/// The first characters of a text, at most `n` of them.
pub open spec fn at_most_chars(s: Seq<char>, n: nat) -> Seq<char> {
    if s.len() <= n {
        s
    } else {
        s.take(n as int)
    }
}

/// The first characters of a text, at most `n` of them.
pub fn take_chars(s: &str, n: usize) -> (r: String)
    ensures
        r@ == at_most_chars(s@, n as nat),
{
    let chars = chars_of(s);
    let to = if chars.len() <= n {
        chars.len()
    } else {
        n
    };
    assert(s@.subrange(0, to as int) =~= at_most_chars(s@, n as nat));
    slice_of(&chars, 0, to)
}

/// A decimal digit as a character.
pub fn digit_char(d: u64) -> (c: char)
    requires
        d < 10,
    ensures
        c == digit(d as nat),
{
    (48 + d as u8) as char
}

/// A number in decimal notation.
pub fn decimal_of(n: u64) -> (r: String)
    ensures
        r@ == decimal(n as nat),
    decreases n,
{
    let mut r = if n < 10 {
        String::new()
    } else {
        decimal_of(n / 10)
    };
    r.push(digit_char(n % 10));
    proof {
        if n < 10 {
            assert(r@ =~= seq![digit(n as nat)]);
        }
    }
    r
}

/// A number of any size in decimal notation.
pub fn decimal_of_wide(n: u128) -> (r: String)
    ensures
        r@ == decimal(n as nat),
    decreases n,
{
    let mut r = if n < 10 {
        String::new()
    } else {
        decimal_of_wide(n / 10)
    };
    r.push(digit_char((n % 10) as u64));
    proof {
        if n < 10 {
            assert(r@ =~= seq![digit(n as nat)]);
        }
    }
    r
}

/// What follows a prefix, in a text that begins with it.
pub open spec fn after_prefix(s: Seq<char>, prefix: Seq<char>) -> Option<Seq<char>> {
    if has_prefix(s, prefix) {
        Some(s.skip(prefix.len() as int))
    } else {
        None
    }
}

/// What follows a prefix, in a text that begins with it.
pub fn strip_prefix(s: &str, prefix: &str) -> (r: Option<String>)
    ensures
        match r {
            Some(rest) => after_prefix(s@, prefix@) == Some(rest@),
            None => after_prefix(s@, prefix@) is None,
        },
{
    if !starts_with(s, prefix) {
        return None;
    }
    let chars = chars_of(s);
    let from: usize = chars_of(prefix).len();
    let to: usize = chars.len();
    assert(s@.subrange(from as int, to as int) =~= s@.skip(from as int));
    Some(slice_of(&chars, from, to))
}

/// What stands before a suffix, in a text that ends with it.
pub open spec fn before_suffix(s: Seq<char>, suffix: Seq<char>) -> Option<Seq<char>> {
    if has_suffix(s, suffix) {
        Some(s.take(s.len() - suffix.len()))
    } else {
        None
    }
}

/// What stands before a suffix, in a text that ends with it.
pub fn strip_suffix(s: &str, suffix: &str) -> (r: Option<String>)
    ensures
        match r {
            Some(rest) => before_suffix(s@, suffix@) == Some(rest@),
            None => before_suffix(s@, suffix@) is None,
        },
{
    if !ends_with(s, suffix) {
        return None;
    }
    let chars = chars_of(s);
    let to: usize = chars.len() - chars_of(suffix).len();
    assert(s@.subrange(0, to as int) =~= s@.take(to as int));
    Some(slice_of(&chars, 0, to))
}

/// The words of a text with one space between each two.
pub open spec fn normalized(s: Seq<char>) -> Seq<char> {
    joined(words(s), " "@)
}

/// The words of a text with one space between each two.
pub fn normalize(value: &str) -> (r: String)
    ensures
        r@ == normalized(value@),
{
    join(&split_words(value), " ")
}

/// Whether a text is one word.
pub open spec fn one_word(s: Seq<char>) -> bool {
    s.len() > 0 && forall|i: int| 0 <= i < s.len() ==> !white_space(#[trigger] s[i])
}

/// What a text is split into at white space has none in it.
pub proof fn lemma_words_are_words(s: Seq<char>)
    ensures
        forall|i: int| 0 <= i < words(s).len() ==> one_word(#[trigger] words(s)[i]),
        s.len() > 0 && !white_space(s.last()) ==> words(s).len() > 0,
    decreases s.len(),
{
    if s.len() > 0 {
        let init = s.drop_last();
        lemma_words_are_words(init);
        let c = s.last();
        if !white_space(c) && s.len() > 1 && !white_space(s[s.len() - 2]) {
            assert(init.last() == s[s.len() - 2]);
            let last = words(init).last();
            assert(one_word(words(init)[words(init).len() - 1]));
            assert(one_word(last.push(c)));
        } else if !white_space(c) {
            assert(one_word(seq![c]));
        }
    }
}

/// A word after white space is one more word.
pub proof fn lemma_words_and_one_more(s: Seq<char>, word: Seq<char>)
    requires
        s.len() == 0 || white_space(s.last()),
        one_word(word),
    ensures
        words(s + word) == words(s).push(word),
    decreases word.len(),
{
    let whole = s + word;
    let init = word.drop_last();
    assert(whole.drop_last() =~= s + init);
    assert(whole.last() == word.last() && !white_space(word[word.len() - 1]));
    if word.len() == 1 {
        assert(s + init =~= s);
        assert(word =~= seq![word.last()]);
    } else {
        assert forall|i: int| 0 <= i < init.len() implies !white_space(#[trigger] init[i]) by {
            assert(init[i] == word[i]);
        }
        lemma_words_and_one_more(s, init);
        assert(whole[whole.len() - 2] == word[word.len() - 2]);
        assert(word =~= init.push(word.last()));
        assert(words(s).push(init).update(words(s).len() as int, word) =~= words(s).push(word));
    }
}

/// Words with spaces between them are split into the same words.
pub proof fn lemma_words_of_joined(parts: Seq<Seq<char>>)
    requires
        forall|i: int| 0 <= i < parts.len() ==> one_word(#[trigger] parts[i]),
    ensures
        words(joined(parts, " "@)) == parts,
    decreases parts.len(),
{
    reveal_strlit(" ");
    if parts.len() == 0 {
        assert(words(joined(parts, " "@)) =~= parts);
    } else if parts.len() == 1 {
        let nothing = Seq::<char>::empty();
        assert(one_word(parts[0]));
        lemma_words_and_one_more(nothing, parts[0]);
        assert(nothing + parts[0] =~= parts[0]);
        assert(words(parts[0]) =~= parts);
    } else {
        let init = parts.drop_last();
        assert forall|i: int| 0 <= i < init.len() implies one_word(#[trigger] init[i]) by {
            assert(init[i] == parts[i]);
        }
        lemma_words_of_joined(init);
        let before = joined(init, " "@) + " "@;
        assert(before.last() == ' ' && white_space(' '));
        assert(before.drop_last() =~= joined(init, " "@));
        assert(words(before) == init);
        assert(one_word(parts[parts.len() - 1]));
        lemma_words_and_one_more(before, parts.last());
        assert(init.push(parts.last()) =~= parts);
    }
}

/// Normalizing keeps the words of a text, and changes nothing the second time.
pub proof fn normalizing_twice_changes_nothing(s: Seq<char>)
    ensures
        words(normalized(s)) == words(s),
        normalized(normalized(s)) == normalized(s),
{
    lemma_words_are_words(s);
    lemma_words_of_joined(words(s));
}

/// The number of bytes of a text in UTF-8.
pub open spec fn byte_len(s: Seq<char>) -> nat {
    encode_utf8(s).len()
}

/// The number of bytes of a text in UTF-8.
pub fn count_bytes(s: &str) -> (r: usize)
    ensures
        r == byte_len(s@),
{
    s.as_bytes().len()
}

/// A list with one more element has that element and those it had.
pub proof fn lemma_contains_push<T>(list: Seq<T>, x: T, y: T)
    ensures
        list.push(x).contains(y) <==> list.contains(y) || x == y,
{
    if list.contains(y) {
        let i = choose|i: int| 0 <= i < list.len() && list[i] == y;
        assert(list.push(x)[i] == y);
    }
    if x == y {
        assert(list.push(x)[list.len() as int] == y);
    }
    if list.push(x).contains(y) {
        let i = choose|i: int| 0 <= i < list.push(x).len() && list.push(x)[i] == y;
        if i < list.len() {
            assert(list[i] == y);
        }
    }
}

/// A number has at least one digit, and nothing but digits.
pub proof fn lemma_decimal_has_no_colon(n: nat)
    ensures
        decimal(n).len() > 0,
        !decimal(n).contains(':'),
        !decimal(n).contains('-'),
    decreases n,
{
    if n >= 10 {
        lemma_decimal_has_no_colon(n / 10);
        lemma_contains_push(decimal(n / 10), digit(n % 10), ':');
        lemma_contains_push(decimal(n / 10), digit(n % 10), '-');
    }
}

/// Different numbers look different.
pub proof fn lemma_decimals_differ(a: nat, b: nat)
    requires
        decimal(a) == decimal(b),
    ensures
        a == b,
    decreases a,
{
    lemma_decimal_has_no_colon(a / 10);
    lemma_decimal_has_no_colon(b / 10);
    if a < 10 && b < 10 {
        assert(decimal(a)[0] == digit(a));
        assert(decimal(b)[0] == digit(b));
        assert(digit(a) as int == 48 + a);
        assert(digit(b) as int == 48 + b);
    } else if a < 10 {
        assert(decimal(b).len() >= 2);
    } else if b < 10 {
        assert(decimal(a).len() >= 2);
    } else {
        assert(decimal(a).drop_last() =~= decimal(a / 10));
        assert(decimal(b).drop_last() =~= decimal(b / 10));
        assert(decimal(a).last() == digit(a % 10));
        assert(decimal(b).last() == digit(b % 10));
        assert(digit(a % 10) as int == 48 + a % 10);
        assert(digit(b % 10) as int == 48 + b % 10);
        lemma_decimals_differ(a / 10, b / 10);
    }
}

/// A text with its length in front, so that it can be told from what follows.
pub open spec fn framed(s: Seq<char>) -> Seq<char> {
    decimal(s.len()) + ":"@ + s
}

/// A text with its length in front.
pub fn frame(s: &str) -> (r: String)
    ensures
        r@ == framed(s@),
{
    let length: usize = chars_of(s).len();
    let mut out = decimal_of(length as u64);
    out.append(":");
    out.append(s);
    out
}

/// What follows a framed text is told from it.
pub proof fn lemma_framed(a: Seq<char>, x: Seq<char>, b: Seq<char>, y: Seq<char>)
    requires
        framed(a) + x == framed(b) + y,
    ensures
        a == b,
        x == y,
{
    reveal_strlit(":");
    let whole = framed(a) + x;
    let other = framed(b) + y;
    lemma_decimal_has_no_colon(a.len());
    lemma_decimal_has_no_colon(b.len());
    let da = decimal(a.len());
    let db = decimal(b.len());
    assert(whole[da.len() as int] == ':');
    assert(other[db.len() as int] == ':');
    if da.len() < db.len() {
        assert(other[da.len() as int] == db[da.len() as int]);
    } else if db.len() < da.len() {
        assert(whole[db.len() as int] == da[db.len() as int]);
    }
    assert(da =~= whole.take(da.len() as int));
    assert(db =~= other.take(db.len() as int));
    lemma_decimals_differ(a.len(), b.len());
    let start = da.len() as int + 1;
    let end = start + a.len();
    assert(a =~= whole.subrange(start, end));
    assert(b =~= other.subrange(start, end));
    assert(x =~= whole.skip(end));
    assert(y =~= other.skip(end));
}

} // verus!
