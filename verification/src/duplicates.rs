//! Finding rows of a table that are stored more than once.
use vstd::prelude::*;
use vstd::utf8::{encode_utf8_decode_utf8, decode_utf8, encode_utf8, is_char_boundary};
use crate::keyed::occurrences;
use crate::names::{distinct, NameMap};
use crate::text::{byte_len, count_bytes, decimal, frame, framed, lemma_contains_push};
use crate::text::{lemma_decimal_has_no_colon, lemma_framed, str_eq, texts};

verus! {

/// A row of a table: the text of each column, or nothing where it is null.
pub type Cells = Vec<Option<String>>;

/// The cells of a row.
pub open spec fn cell_texts(row: Seq<Option<String>>) -> Seq<Option<Seq<char>>> {
    row.map_values(
        |cell: Option<String>|
            match cell {
                Some(text) => Some(text@),
                None => None,
            },
    )
}

/// The part of a signature that stands for a cell.
pub open spec fn cell_signature(cell: Option<Seq<char>>) -> Seq<char> {
    match cell {
        Some(text) => framed(text),
        None => "-"@,
    }
}

/// What a row looks like: its cells one after the other, each with its length.
pub open spec fn signature(row: Seq<Option<Seq<char>>>) -> Seq<char>
    decreases row.len(),
{
    if row.len() == 0 {
        Seq::empty()
    } else {
        cell_signature(row[0]) + signature(row.skip(1))
    }
}

proof fn lemma_first_cell(
    a: Option<Seq<char>>,
    x: Seq<char>,
    b: Option<Seq<char>>,
    y: Seq<char>,
)
    requires
        cell_signature(a) + x == cell_signature(b) + y,
    ensures
        a == b,
        x == y,
{
    reveal_strlit("-");
    let whole = cell_signature(a) + x;
    let other = cell_signature(b) + y;
    if a is Some {
        lemma_decimal_has_no_colon(a->0.len());
        assert(whole[0] == decimal(a->0.len())[0]);
    }
    if b is Some {
        lemma_decimal_has_no_colon(b->0.len());
        assert(other[0] == decimal(b->0.len())[0]);
    }
    if a is Some && b is Some {
        lemma_framed(a->0, x, b->0, y);
    } else if a is Some {
        assert(other[0] == '-');
    } else if b is Some {
        assert(whole[0] == '-');
    } else {
        assert(x =~= whole.skip(1));
        assert(y =~= other.skip(1));
    }
}

/// Two rows of a table have the same signature just when all their columns are
/// identical.
pub proof fn signatures_tell_rows_apart(a: Seq<Option<Seq<char>>>, b: Seq<Option<Seq<char>>>)
    requires
        a.len() == b.len(),
    ensures
        signature(a) == signature(b) <==> a == b,
    decreases a.len(),
{
    if a.len() > 0 {
        signatures_tell_rows_apart(a.skip(1), b.skip(1));
        if signature(a) == signature(b) {
            lemma_first_cell(a[0], signature(a.skip(1)), b[0], signature(b.skip(1)));
            assert(a =~= seq![a[0]] + a.skip(1));
            assert(b =~= seq![b[0]] + b.skip(1));
        }
    } else {
        assert(a =~= b);
    }
}

/// Create a unique signature for a row by concatenating all column values
pub fn create_row_signature(row: &Cells) -> (r: String)
    ensures
        r@ == signature(cell_texts(row@)),
{
    let ghost cells = cell_texts(row@);
    let mut out = String::new();
    let mut i: usize = 0;
    assert(cells.skip(0) =~= cells);
    assert(out@ + signature(cells) =~= signature(cells));
    while i < row.len()
        invariant
            i <= row@.len(),
            cells == cell_texts(row@),
            out@ + signature(cells.skip(i as int)) == signature(cells),
        decreases row@.len() - i,
    {
        let ghost so_far = out@;
        let ghost rest = cells.skip(i as int);
        proof {
            assert(rest.skip(1) =~= cells.skip(i + 1));
            assert(rest[0] == cells[i as int]);
        }
        let mut part = String::new();
        match &row[i] {
            Some(text) => {
                part.append(frame(text.as_str()).as_str());
                assert(part@ =~= cell_signature(rest[0]));
            },
            None => {
                part.append("-");
                assert(part@ =~= cell_signature(rest[0]));
            },
        }
        out.append(part.as_str());
        assert(out@ + signature(rest.skip(1)) =~= so_far + (cell_signature(rest[0]) + signature(
            rest.skip(1),
        )));
        i += 1;
    }
    assert(cells.skip(i as int) =~= Seq::empty());
    assert(out@ + signature(cells.skip(i as int)) =~= out@);
    out
}

/// A cell as a summary shows it.
pub open spec fn shown(cell: Option<String>) -> Seq<char> {
    match cell {
        Some(text) => text@,
        None => "NULL"@,
    }
}

fn show_cell(cell: &Option<String>) -> (r: String)
    ensures
        r@ == shown(*cell),
{
    match cell {
        Some(text) => text.clone(),
        None => String::from_str("NULL"),
    }
}

/// The first eight bytes of a hash, or all of a shorter one.
pub open spec fn short_hash(hash: Seq<char>) -> Seq<char> {
    if byte_len(hash) >= 8 {
        decode_utf8(encode_utf8(hash).take(8))
    } else {
        hash
    }
}

/// Whether a hash can be cut after eight bytes: it ends before, or a character
/// ends there.
pub open spec fn can_be_cut(hash: Seq<char>) -> bool {
    byte_len(hash) >= 8 ==> is_char_boundary(encode_utf8(hash), 8)
}

fn cut_hash(hash: &str) -> (r: String)
    requires
        can_be_cut(hash@),
    ensures
        r@ == short_hash(hash@),
{
    if count_bytes(hash) >= 8 {
        let (first, _) = hash.split_at(8);
        proof {
            assert(encode_utf8(first@) == encode_utf8(hash@).subrange(0, 8));
            assert(encode_utf8(hash@).subrange(0, 8) =~= encode_utf8(hash@).take(8));
            encode_utf8_decode_utf8(first@);
        }
        String::from_str(first)
    } else {
        String::from_str(hash)
    }
}

/// Whether a row has the columns that a summary of it shows.
pub open spec fn can_be_summarized(table: Seq<char>, row: Seq<Option<String>>) -> bool {
    if table == "functions"@ {
        row.len() >= 3 && (row[2] is Some ==> can_be_cut(row[2]->0@))
    } else if table == "types"@ {
        row.len() >= 5
    } else {
        row.len() >= 1
    }
}

/// A row in words: a function with its file and the beginning of its hash, a type
/// with its kind and file, and of any other row the first column, where that is
/// text.
pub open spec fn summary(
    table: Seq<char>,
    row: Seq<Option<String>>,
    first_is_text: bool,
) -> Seq<char> {
    if table == "functions"@ {
        shown(row[0]) + "() in "@ + shown(row[1]) + " ("@ + (match row[2] {
            Some(hash) => short_hash(hash@),
            None => "NULL"@,
        }) + "...)"@
    } else if table == "types"@ {
        shown(row[4]) + " "@ + shown(row[0]) + " in "@ + shown(row[1])
    } else {
        table + " row: "@ + (if first_is_text {
            shown(row[0])
        } else {
            "..."@
        })
    }
}

/// Create a human-readable summary of a row for examples
pub fn create_readable_row_summary(table: &str, row: &Cells, first_is_text: bool) -> (r: String)
    requires
        can_be_summarized(table@, row@),
    ensures
        r@ == summary(table@, row@, first_is_text),
{
    if str_eq(table, "functions") {
        let mut out = show_cell(&row[0]);
        out.append("() in ");
        out.append(show_cell(&row[1]).as_str());
        out.append(" (");
        let hash = match &row[2] {
            Some(hash) => cut_hash(hash.as_str()),
            None => String::from_str("NULL"),
        };
        out.append(hash.as_str());
        out.append("...)");
        out
    } else if str_eq(table, "types") {
        let mut out = show_cell(&row[4]);
        out.append(" ");
        out.append(show_cell(&row[0]).as_str());
        out.append(" in ");
        out.append(show_cell(&row[1]).as_str());
        out
    } else {
        let mut out = String::from_str(table);
        out.append(" row: ");
        let first = if first_is_text {
            show_cell(&row[0])
        } else {
            String::from_str("...")
        };
        out.append(first.as_str());
        out
    }
}

/// What a scan of a table found.
pub struct DuplicateScan {
    pub total_rows: usize,
    /// How many different rows are stored more than once.
    pub duplicate_groups: usize,
    /// How many rows are stored more than once, each time counted.
    pub duplicate_rows: usize,
    /// Some of the rows that are stored more than once, in words, with how often.
    pub examples: Vec<(String, usize)>,
}

/// How many groups are shown as examples.
pub const MAX_EXAMPLES: usize = 5;

/// The signatures of the rows of a table.
pub open spec fn signatures(rows: Seq<Cells>) -> Seq<Seq<char>> {
    rows.map_values(|row: Cells| signature(cell_texts(row@)))
}

/// The signatures that occur more than once, each at its first place.
pub open spec fn repeated_signatures(keys: Seq<Seq<char>>) -> Seq<Seq<char>> {
    distinct(keys).filter(|key: Seq<char>| occurrences(keys, key) > 1)
}

/// How many rows have a signature that occurs more than once.
pub open spec fn repeated_rows(keys: Seq<Seq<char>>) -> nat {
    keys.filter(|key: Seq<char>| occurrences(keys, key) > 1).len()
}

/// The first place of a key.
pub open spec fn first_place(keys: Seq<Seq<char>>, key: Seq<char>) -> int
    decreases keys.len(),
{
    if keys.len() == 0 {
        0
    } else if keys.drop_last().contains(key) {
        first_place(keys.drop_last(), key)
    } else {
        keys.len() - 1
    }
}

proof fn lemma_occurs(keys: Seq<Seq<char>>, key: Seq<char>)
    ensures
        occurrences(keys, key) > 0 <==> keys.contains(key),
        occurrences(keys, key) <= keys.len(),
        keys.contains(key) ==> 0 <= first_place(keys, key) < keys.len() && keys[first_place(
            keys,
            key,
        )] == key,
    decreases keys.len(),
{
    if keys.len() > 0 {
        let init = keys.drop_last();
        lemma_occurs(init, key);
        assert(keys =~= init.push(keys.last()));
        lemma_contains_push(init, keys.last(), key);
    }
}

/// What is counted of the keys so far.
spec fn counted(
    counts: NameMap<usize>,
    firsts: NameMap<usize>,
    keys: Seq<Seq<char>>,
) -> bool {
    &&& counts.wf()
    &&& firsts.wf()
    &&& counts.names() == distinct(keys)
    &&& forall|key: Seq<char>| #[trigger] counts@.contains_key(key) <==> keys.contains(key)
    &&& forall|key: Seq<char>| #[trigger] firsts@.contains_key(key) <==> keys.contains(key)
    &&& forall|key: Seq<char>| #[trigger]
        counts@.contains_key(key) ==> counts@[key] == occurrences(keys, key)
    &&& forall|key: Seq<char>| #[trigger]
        firsts@.contains_key(key) ==> firsts@[key] == first_place(keys, key)
}

/// Scan a specific table for duplicates: rows where all columns are identical.
pub fn scan_table_for_duplicates(table: &str, rows: &Vec<Cells>, first_is_text: bool) -> (r:
    DuplicateScan)
    requires
        forall|i: int| 0 <= i < rows@.len() ==> can_be_summarized(table@, (#[trigger] rows@[i])@),
    ensures
        r.total_rows == rows@.len(),
        r.duplicate_groups == repeated_signatures(signatures(rows@)).len(),
        r.duplicate_rows == repeated_rows(signatures(rows@)),
        r.examples@.len() == (if r.duplicate_groups <= MAX_EXAMPLES {
            r.duplicate_groups
        } else {
            MAX_EXAMPLES
        }),
        forall|k: int|
            0 <= k < r.examples@.len() ==> {
                let key = repeated_signatures(signatures(rows@))[k];
                &&& (#[trigger] r.examples@[k]).0@ == summary(
                    table@,
                    rows@[first_place(signatures(rows@), key)]@,
                    first_is_text,
                )
                &&& r.examples@[k].1 == occurrences(signatures(rows@), key)
            },
{
    let ghost keys = signatures(rows@);
    let mut counts: NameMap<usize> = NameMap::new();
    let mut firsts: NameMap<usize> = NameMap::new();
    let mut i: usize = 0;
    assert(keys.take(0) =~= Seq::empty());
    while i < rows.len()
        invariant
            i <= rows@.len(),
            keys == signatures(rows@),
            counted(counts, firsts, keys.take(i as int)),
        decreases rows@.len() - i,
    {
        let ghost some = keys.take(i as int);
        let ghost more = keys.take(i + 1);
        let ghost new = keys[i as int];
        let ghost had = counts@;
        let ghost had_firsts = firsts@;
        let key = create_row_signature(&rows[i]);
        proof {
            assert(new == key@);
            assert(more.drop_last() =~= some);
            assert(more.last() == new);
            assert(more =~= some.push(new));
            counts.names_are_the_keys();
            lemma_occurs(some, new);
            assert(counts@.contains_key(new) <==> some.contains(new));
            assert(distinct(some).contains(new) <==> some.contains(new)) by {
                assert(counts@.contains_key(new) <==> counts.names().contains(new));
            }
        }
        let before: Option<usize> = match counts.get(key.as_str()) {
            Some(count) => Some(*count),
            None => None,
        };
        match before {
            Some(count) => {
                counts.insert(key, count + 1);
            },
            None => {
                counts.insert(key.clone(), 1);
                firsts.insert(key, i);
            },
        }
        proof {
            assert forall|key: Seq<char>| #[trigger] counts@.contains_key(key) <==> more.contains(
                key,
            ) by {
                lemma_contains_push(some, new, key);
                assert(had.contains_key(key) <==> some.contains(key));
            }
            assert forall|key: Seq<char>| #[trigger] firsts@.contains_key(key) <==> more.contains(
                key,
            ) by {
                lemma_contains_push(some, new, key);
                assert(had_firsts.contains_key(key) <==> some.contains(key));
            }
            assert forall|key: Seq<char>| #[trigger] counts@.contains_key(key) implies counts@[key]
                == occurrences(more, key) by {
                if key != new {
                    assert(had.contains_key(key));
                }
            }
            assert forall|key: Seq<char>| #[trigger] firsts@.contains_key(key) implies firsts@[key]
                == first_place(more, key) by {
                if key != new {
                    assert(had_firsts.contains_key(key));
                }
            }
        }
        i += 1;
    }
    assert(keys.take(i as int) =~= keys);
    let ghost wanted = |key: Seq<char>| occurrences(keys, key) > 1;
    let mut duplicate_rows: usize = 0;
    let mut i: usize = 0;
    proof {
        reveal(Seq::filter);
        assert(keys.take(0) =~= Seq::empty());
    }
    while i < rows.len()
        invariant
            i <= rows@.len(),
            keys == signatures(rows@),
            wanted == (|key: Seq<char>| occurrences(keys, key) > 1),
            counted(counts, firsts, keys),
            duplicate_rows <= i,
            duplicate_rows == keys.take(i as int).filter(wanted).len(),
        decreases rows@.len() - i,
    {
        proof {
            reveal(Seq::filter);
            assert(keys.take(i + 1).drop_last() =~= keys.take(i as int));
            assert(keys.take(i + 1).last() == keys[i as int]);
            assert(keys.contains(keys[i as int]));
            assert(counts@.contains_key(keys[i as int]));
        }
        let key = create_row_signature(&rows[i]);
        assert(key@ == keys[i as int]);
        if let Some(count) = counts.get(key.as_str()) {
            if *count > 1 {
                duplicate_rows += 1;
            }
        }
        i += 1;
    }
    assert(keys.take(i as int) =~= keys);
    let ghost names = distinct(keys);
    let mut duplicate_groups: usize = 0;
    let mut examples: Vec<(String, usize)> = Vec::new();
    let mut j: usize = 0;
    let group_count: usize = counts.len();
    proof {
        assert(names.take(0) =~= Seq::empty());
    }
    while j < group_count
        invariant
            j <= group_count == names.len(),
            keys == signatures(rows@),
            names == distinct(keys),
            wanted == (|key: Seq<char>| occurrences(keys, key) > 1),
            counted(counts, firsts, keys),
            forall|i: int|
                0 <= i < rows@.len() ==> can_be_summarized(table@, (#[trigger] rows@[i])@),
            duplicate_groups <= j,
            duplicate_groups == names.take(j as int).filter(wanted).len(),
            examples@.len() == (if duplicate_groups <= MAX_EXAMPLES {
                duplicate_groups
            } else {
                MAX_EXAMPLES
            }),
            forall|k: int|
                0 <= k < examples@.len() ==> {
                    let key = names.take(j as int).filter(wanted)[k];
                    &&& (#[trigger] examples@[k]).0@ == summary(
                        table@,
                        rows@[first_place(keys, key)]@,
                        first_is_text,
                    )
                    &&& examples@[k].1 == occurrences(keys, key)
                },
        decreases group_count - j,
    {
        let ghost some = names.take(j as int).filter(wanted);
        let ghost key = names[j as int];
        proof {
            reveal(Seq::filter);
            assert(names.take(j + 1).drop_last() =~= names.take(j as int));
            assert(names.take(j + 1).last() == key);
            counts.names_are_the_keys();
            assert(counts.names()[j as int] == key);
            assert(counts@.contains_key(key));
            assert(keys.contains(key));
            assert(firsts@.contains_key(key));
            lemma_occurs(keys, key);
        }
        let count: usize = *counts.value_at(j);
        if count > 1 {
            if examples.len() < MAX_EXAMPLES {
                if let Some(at) = firsts.get(counts.name_at(j)) {
                    let text = create_readable_row_summary(table, &rows[*at], first_is_text);
                    examples.push((text, count));
                }
            }
            duplicate_groups += 1;
        }
        j += 1;
    }
    assert(names.take(j as int) =~= names);
    DuplicateScan { total_rows: rows.len(), duplicate_groups, duplicate_rows, examples }
}

/// The tables that are scanned for duplicates, besides those of contents.
pub fn tables_to_scan() -> (r: Vec<String>)
    ensures
        texts(r@) == seq![
            "functions"@,
            "types"@,
            "processed_files"@,
            "symbol_filename"@,
            "git_commits"@,
            "vectors"@,
            "commit_vectors"@,
            "lore"@,
            "lore_vectors"@,
        ],
{
    let r = vec![
        String::from_str("functions"),
        String::from_str("types"),
        String::from_str("processed_files"),
        String::from_str("symbol_filename"),
        String::from_str("git_commits"),
        String::from_str("vectors"),
        String::from_str("commit_vectors"),
        String::from_str("lore"),
        String::from_str("lore_vectors"),
    ];
    assert(texts(r@) =~= seq![
        "functions"@,
        "types"@,
        "processed_files"@,
        "symbol_filename"@,
        "git_commits"@,
        "vectors"@,
        "commit_vectors"@,
        "lore"@,
        "lore_vectors"@,
    ]);
    r
}

} // verus!
