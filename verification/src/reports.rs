//! Reports on the state of the database, as runs of text with a colour.
use vstd::prelude::*;
use crate::duplicates::DuplicateScan;
use crate::text::{decimal, decimal_of, str_eq, texts};

verus! {

/// How a run of text is shown.
#[derive(Debug, Clone, Copy, PartialEq, Eq, Structural)]
pub enum Paint {
    Plain,
    Bold,
    BoldGreen,
    BoldCyan,
    Yellow,
    Red,
    Green,
    Cyan,
    BrightBlack,
}

/// A run of text and how it is shown.
#[derive(Debug, Clone)]
pub struct Span {
    pub paint: Paint,
    pub text: String,
}

/// Runs of text and how they are shown.
pub open spec fn spans(list: Seq<Span>) -> Seq<(Paint, Seq<char>)> {
    list.map_values(|s: Span| (s.paint, s.text@))
}

/// Adds a run of text.
fn show(out: &mut Vec<Span>, paint: Paint, text: &str)
    ensures
        spans(final(out)@) == spans(old(out)@).push((paint, text@)),
{
    let span = Span { paint, text: String::from_str(text) };
    assert(spans(out@.push(span)) =~= spans(out@).push((paint, text@)));
    out.push(span);
}

/// Adds a number.
fn show_number(out: &mut Vec<Span>, paint: Paint, n: usize)
    ensures
        spans(final(out)@) == spans(old(out)@).push((paint, decimal(n as nat))),
{
    show(out, paint, decimal_of(n as u64).as_str());
}

/// Adds other runs.
fn show_all(out: &mut Vec<Span>, more: Vec<Span>)
    ensures
        spans(final(out)@) == spans(old(out)@) + spans(more@),
{
    let mut more = more;
    assert(spans(out@ + more@) =~= spans(out@) + spans(more@));
    out.append(&mut more);
}

fn nothing() -> (r: Vec<Span>)
    ensures
        spans(r@) == Seq::<(Paint, Seq<char>)>::empty(),
{
    let r: Vec<Span> = Vec::new();
    assert(spans(r@) =~= Seq::empty());
    r
}

/// What is known of how a table is stored.
#[derive(Debug, Clone)]
pub struct TableFragments {
    pub table: String,
    pub rows: usize,
    pub fragments: usize,
    pub small_fragments: usize,
    /// The mean number of rows of a fragment.
    pub mean_rows: usize,
    /// The share of small fragments in percent, to one decimal.
    pub small_share: String,
}

/// The number of fragments of a table beyond which the database is optimized.
pub const MAX_FRAGMENTS: usize = 600;

/// The number of fragments of all contents beyond which the database is
/// optimized.
pub const MAX_CONTENT_FRAGMENTS: usize = 3000;

/// Whether a table has too many fragments.
pub open spec fn too_many_fragments(t: TableFragments) -> bool {
    t.fragments > MAX_FRAGMENTS
}

/// Whether more than half of the fragments of a table are small, and more than a
/// few.
pub open spec fn mostly_small(t: TableFragments) -> bool {
    t.fragments > 0 && 2 * t.small_fragments > t.fragments && t.small_fragments > 10
}

/// Whether a large table has fragments of few rows.
pub open spec fn small_mean(t: TableFragments) -> bool {
    t.mean_rows < 1000 && t.rows > 10000
}

/// The number of things that are wrong with a table.
pub open spec fn problems(t: TableFragments) -> nat {
    (if too_many_fragments(t) {
        1nat
    } else {
        0
    }) + (if mostly_small(t) {
        1nat
    } else {
        0
    }) + (if small_mean(t) {
        1nat
    } else {
        0
    })
}

/// What is wrong with a table, a line for each thing.
pub open spec fn table_problems(t: TableFragments) -> Seq<(Paint, Seq<char>)> {
    (if too_many_fragments(t) {
        seq![
            (Paint::Plain, "  • "@),
            (Paint::Yellow, t.table@),
            (Paint::Plain, ": "@),
            (Paint::Red, decimal(t.fragments as nat)),
            (Paint::Plain, " fragments (auto-optimize threshold: 600)\n"@),
        ]
    } else {
        Seq::empty()
    }) + (if mostly_small(t) {
        seq![
            (Paint::Plain, "  • "@),
            (Paint::Yellow, t.table@),
            (Paint::Plain, ": "@),
            (Paint::Plain, t.small_share@),
            (Paint::Plain, "% small fragments ("@),
            (Paint::Red, decimal(t.small_fragments as nat)),
            (Paint::Plain, "/"@),
            (Paint::Plain, decimal(t.fragments as nat)),
            (Paint::Plain, ")\n"@),
        ]
    } else {
        Seq::empty()
    }) + (if small_mean(t) {
        seq![
            (Paint::Plain, "  • "@),
            (Paint::Yellow, t.table@),
            (Paint::Plain, ": small mean fragment size ("@),
            (Paint::Red, decimal(t.mean_rows as nat)),
            (Paint::Plain, " rows/fragment)\n"@),
        ]
    } else {
        Seq::empty()
    })
}

fn show_table_problems(t: &TableFragments) -> (r: Vec<Span>)
    ensures
        spans(r@) == table_problems(*t),
        (r@.len() > 0) == (problems(*t) > 0),
{
    let mut first = nothing();
    if t.fragments > MAX_FRAGMENTS {
        show(&mut first, Paint::Plain, "  • ");
        show(&mut first, Paint::Yellow, t.table.as_str());
        show(&mut first, Paint::Plain, ": ");
        show_number(&mut first, Paint::Red, t.fragments);
        show(&mut first, Paint::Plain, " fragments (auto-optimize threshold: 600)\n");
    }
    let mut second = nothing();
    if t.fragments > 0 && t.small_fragments > t.fragments / 2 && t.small_fragments > 10 {
        show(&mut second, Paint::Plain, "  • ");
        show(&mut second, Paint::Yellow, t.table.as_str());
        show(&mut second, Paint::Plain, ": ");
        show(&mut second, Paint::Plain, t.small_share.as_str());
        show(&mut second, Paint::Plain, "% small fragments (");
        show_number(&mut second, Paint::Red, t.small_fragments);
        show(&mut second, Paint::Plain, "/");
        show_number(&mut second, Paint::Plain, t.fragments);
        show(&mut second, Paint::Plain, ")\n");
    }
    let mut third = nothing();
    if t.mean_rows < 1000 && t.rows > 10000 {
        show(&mut third, Paint::Plain, "  • ");
        show(&mut third, Paint::Yellow, t.table.as_str());
        show(&mut third, Paint::Plain, ": small mean fragment size (");
        show_number(&mut third, Paint::Red, t.mean_rows);
        show(&mut third, Paint::Plain, " rows/fragment)\n");
    }
    show_all(&mut first, second);
    show_all(&mut first, third);
    assert(spans(first@).len() == first@.len());
    first
}

/// The fragments of some tables, all together.
pub open spec fn total_fragments(tables: Seq<TableFragments>) -> nat
    decreases tables.len(),
{
    if tables.len() == 0 {
        0
    } else {
        total_fragments(tables.drop_last()) + tables.last().fragments as nat
    }
}

/// The small fragments of some tables, all together.
pub open spec fn total_small_fragments(tables: Seq<TableFragments>) -> nat
    decreases tables.len(),
{
    if tables.len() == 0 {
        0
    } else {
        total_small_fragments(tables.drop_last()) + tables.last().small_fragments as nat
    }
}

/// What is wrong with some tables, line by line.
pub open spec fn all_problems(tables: Seq<TableFragments>) -> Seq<(Paint, Seq<char>)>
    decreases tables.len(),
{
    if tables.len() == 0 {
        Seq::empty()
    } else {
        all_problems(tables.drop_last()) + table_problems(tables.last())
    }
}

/// Whether anything is wrong with the tables or the contents.
pub open spec fn needs_optimization(
    tables: Seq<TableFragments>,
    content: Seq<TableFragments>,
) -> bool {
    (exists|i: int| 0 <= i < tables.len() && problems(#[trigger] tables[i]) > 0) || total_fragments(
        content,
    ) > MAX_CONTENT_FRAGMENTS
}

/// The fragments of the contents that count: none where there are none, even if
/// some are called small.
pub open spec fn counted_small(content: Seq<TableFragments>) -> nat {
    if total_fragments(content) > 0 {
        total_small_fragments(content)
    } else {
        0
    }
}

/// The report on the fragments of the tables: what is wrong, or that nothing is,
/// and the totals.
pub open spec fn health_text(
    tables: Seq<TableFragments>,
    content: Seq<TableFragments>,
) -> Seq<(Paint, Seq<char>)> {
    let total = total_fragments(tables) + total_fragments(content);
    let small = total_small_fragments(tables) + counted_small(content);
    if needs_optimization(tables, content) {
        seq![(Paint::Yellow, "Optimizing database..."@), (Paint::Plain, "\n"@)] + all_problems(
            tables,
        ) + (if total_fragments(content) > MAX_CONTENT_FRAGMENTS {
            seq![
                (Paint::Plain, "  • "@),
                (Paint::Yellow, "content shards"@),
                (Paint::Plain, ": "@),
                (Paint::Red, decimal(total_fragments(content))),
                (Paint::Plain, " fragments across 16 shards (threshold: 3000)\n"@),
            ]
        } else {
            Seq::empty()
        }) + seq![
            (Paint::Plain, "\nTotal: "@),
            (Paint::Yellow, decimal(total)),
            (Paint::Plain, " fragments ("@),
            (Paint::Yellow, decimal(small)),
            (Paint::Plain, " small)\n"@),
        ]
    } else {
        seq![
            (Paint::BoldGreen, "✓"@),
            (Paint::Plain, " Database is healthy ("@),
            (Paint::Green, decimal(total)),
            (Paint::Plain, " fragments, "@),
            (Paint::Green, decimal(small)),
            (Paint::Plain, " small)\n"@),
        ]
    }
}

proof fn lemma_totals_grow(tables: Seq<TableFragments>, i: int)
    requires
        0 <= i <= tables.len(),
    ensures
        total_fragments(tables.take(i)) <= total_fragments(tables),
        total_small_fragments(tables.take(i)) <= total_small_fragments(tables),
    decreases tables.len(),
{
    if i == tables.len() {
        assert(tables.take(i) =~= tables);
    } else {
        assert(tables.drop_last().take(i) =~= tables.take(i));
        lemma_totals_grow(tables.drop_last(), i);
    }
}

fn count_fragments(tables: &Vec<TableFragments>) -> (r: (usize, usize))
    requires
        total_fragments(tables@) <= usize::MAX,
        total_small_fragments(tables@) <= usize::MAX,
    ensures
        r.0 == total_fragments(tables@),
        r.1 == total_small_fragments(tables@),
{
    let mut total: usize = 0;
    let mut small: usize = 0;
    let mut i: usize = 0;
    assert(tables@.take(0) =~= Seq::empty());
    while i < tables.len()
        invariant
            i <= tables@.len(),
            total_fragments(tables@) <= usize::MAX,
            total_small_fragments(tables@) <= usize::MAX,
            total == total_fragments(tables@.take(i as int)),
            small == total_small_fragments(tables@.take(i as int)),
        decreases tables@.len() - i,
    {
        proof {
            assert(tables@.take(i + 1).drop_last() =~= tables@.take(i as int));
            assert(tables@.take(i + 1).last() == tables@[i as int]);
            lemma_totals_grow(tables@, i + 1);
        }
        total += tables[i].fragments;
        small += tables[i].small_fragments;
        i += 1;
    }
    assert(tables@.take(i as int) =~= tables@);
    (total, small)
}

/// Check if database needs optimization based on fragment statistics
/// Returns whether it does, and the report.
pub fn check_optimization_health(
    tables: &Vec<TableFragments>,
    content: &Vec<TableFragments>,
) -> (r: (bool, Vec<Span>))
    requires
        total_fragments(tables@) + total_fragments(content@) <= usize::MAX,
        total_small_fragments(tables@) + total_small_fragments(content@) <= usize::MAX,
    ensures
        r.0 == needs_optimization(tables@, content@),
        spans(r.1@) == health_text(tables@, content@),
{
    let (table_total, table_small) = count_fragments(tables);
    let (content_total, content_small) = count_fragments(content);
    let total: usize = table_total + content_total;
    let small: usize = if content_total > 0 {
        table_small + content_small
    } else {
        table_small
    };
    let mut lines = nothing();
    let mut needed = false;
    let mut i: usize = 0;
    assert(tables@.take(0) =~= Seq::empty());
    while i < tables.len()
        invariant
            i <= tables@.len(),
            spans(lines@) == all_problems(tables@.take(i as int)),
            needed == exists|k: int| 0 <= k < i && problems(#[trigger] tables@[k]) > 0,
        decreases tables@.len() - i,
    {
        proof {
            assert(tables@.take(i + 1).drop_last() =~= tables@.take(i as int));
            assert(tables@.take(i + 1).last() == tables@[i as int]);
        }
        let more = show_table_problems(&tables[i]);
        if more.len() > 0 {
            needed = true;
            assert(problems(tables@[i as int]) > 0);
        }
        show_all(&mut lines, more);
        i += 1;
    }
    assert(tables@.take(i as int) =~= tables@);
    let mut crowded = nothing();
    if content_total > MAX_CONTENT_FRAGMENTS {
        needed = true;
        show(&mut crowded, Paint::Plain, "  • ");
        show(&mut crowded, Paint::Yellow, "content shards");
        show(&mut crowded, Paint::Plain, ": ");
        show_number(&mut crowded, Paint::Red, content_total);
        show(&mut crowded, Paint::Plain, " fragments across 16 shards (threshold: 3000)\n");
    }
    let mut out = nothing();
    if needed {
        show(&mut out, Paint::Yellow, "Optimizing database...");
        show(&mut out, Paint::Plain, "\n");
        show_all(&mut out, lines);
        show_all(&mut out, crowded);
        show(&mut out, Paint::Plain, "\nTotal: ");
        show_number(&mut out, Paint::Yellow, total);
        show(&mut out, Paint::Plain, " fragments (");
        show_number(&mut out, Paint::Yellow, small);
        show(&mut out, Paint::Plain, " small)\n");
    } else {
        show(&mut out, Paint::BoldGreen, "✓");
        show(&mut out, Paint::Plain, " Database is healthy (");
        show_number(&mut out, Paint::Green, total);
        show(&mut out, Paint::Plain, " fragments, ");
        show_number(&mut out, Paint::Green, small);
        show(&mut out, Paint::Plain, " small)\n");
    }
    assert(spans(out@) =~= health_text(tables@, content@));
    (needed, out)
}

/// How many rows a table has, or why that is not known.
#[derive(Debug)]
pub struct TableCount {
    pub table: String,
    pub rows: Result<usize, String>,
}

/// The rows of some tables, all together, as far as they are known.
pub open spec fn total_rows(tables: Seq<TableCount>) -> nat
    decreases tables.len(),
{
    if tables.len() == 0 {
        0
    } else {
        total_rows(tables.drop_last()) + (match tables.last().rows {
            Ok(rows) => rows as nat,
            Err(_) => 0,
        })
    }
}

/// The storage of functions: how many have vectors, and how much room vectors and
/// texts take.
pub open spec fn vector_lines(rows: nat, vectors: nat, coverage: Seq<char>) -> Seq<
    (Paint, Seq<char>),
> {
    seq![
        (Paint::Plain, "  Functions with vectors: "@),
        (Paint::Green, decimal(vectors)),
        (Paint::Plain, "\n  Functions without vectors: "@),
        (Paint::Cyan, decimal((rows - vectors) as nat)),
        (Paint::Plain, "\n  Vector storage: "@),
        (Paint::Yellow, decimal(vectors * 1024 / 1024 / 1024)),
        (Paint::Plain, " MB\n  Estimated text storage: "@),
        (Paint::Yellow, decimal(rows * 2048 / 1024 / 1024)),
        (Paint::Plain, " MB\n"@),
    ] + (if vectors > 0 {
        seq![
            (Paint::Plain, "  Vector coverage: "@),
            (Paint::BoldGreen, coverage),
            (Paint::Plain, "%\n"@),
        ]
    } else {
        Seq::empty()
    })
}

/// Adds the storage of functions. A vector has 256 numbers of 4 bytes, and a body
/// is taken to have 2048 bytes.
fn show_vector_lines(rows: usize, vectors: usize, coverage: &str) -> (r: Vec<Span>)
    requires
        vectors <= rows,
        rows * 2048 <= usize::MAX,
    ensures
        spans(r@) == vector_lines(rows as nat, vectors as nat, coverage@),
{
    let mut out = nothing();
    show(&mut out, Paint::Plain, "  Functions with vectors: ");
    show_number(&mut out, Paint::Green, vectors);
    show(&mut out, Paint::Plain, "\n  Functions without vectors: ");
    show_number(&mut out, Paint::Cyan, rows - vectors);
    show(&mut out, Paint::Plain, "\n  Vector storage: ");
    show_number(&mut out, Paint::Yellow, vectors * 1024 / 1024 / 1024);
    show(&mut out, Paint::Plain, " MB\n  Estimated text storage: ");
    show_number(&mut out, Paint::Yellow, rows * 2048 / 1024 / 1024);
    show(&mut out, Paint::Plain, " MB\n");
    if vectors > 0 {
        show(&mut out, Paint::Plain, "  Vector coverage: ");
        show(&mut out, Paint::BoldGreen, coverage);
        show(&mut out, Paint::Plain, "%\n");
    }
    assert(spans(out@) =~= vector_lines(rows as nat, vectors as nat, coverage@));
    out
}

/// A table and how many rows it has, or why that is not known.
pub open spec fn count_line(t: TableCount, failure: Seq<char>) -> Seq<(Paint, Seq<char>)> {
    match t.rows {
        Ok(rows) => seq![
            (Paint::Cyan, t.table@),
            (Paint::Plain, ": "@),
            (Paint::Yellow, decimal(rows as nat)),
            (Paint::Plain, " rows\n"@),
        ],
        Err(message) => seq![
            (Paint::Red, t.table@),
            (Paint::Plain, failure),
            (Paint::Plain, message@),
            (Paint::Plain, "\n"@),
        ],
    }
}

fn show_count_line(t: &TableCount, failure: &str) -> (r: Vec<Span>)
    ensures
        spans(r@) == count_line(*t, failure@),
{
    let mut out = nothing();
    match &t.rows {
        Ok(rows) => {
            show(&mut out, Paint::Cyan, t.table.as_str());
            show(&mut out, Paint::Plain, ": ");
            show_number(&mut out, Paint::Yellow, *rows);
            show(&mut out, Paint::Plain, " rows\n");
        },
        Err(message) => {
            show(&mut out, Paint::Red, t.table.as_str());
            show(&mut out, Paint::Plain, failure);
            show(&mut out, Paint::Plain, message.as_str());
            show(&mut out, Paint::Plain, "\n");
        },
    }
    assert(spans(out@) =~= count_line(*t, failure@));
    out
}

/// The line on each table, and for the functions what their storage is.
pub open spec fn storage_lines(tables: Seq<TableCount>, vectors: nat, coverage: Seq<char>) -> Seq<
    (Paint, Seq<char>),
>
    decreases tables.len(),
{
    if tables.len() == 0 {
        Seq::empty()
    } else {
        let t = tables.last();
        storage_lines(tables.drop_last(), vectors, coverage) + count_line(
            t,
            ": Error getting count - "@,
        ) + (if t.table@ == "functions"@ && t.rows is Ok {
            vector_lines(t.rows->Ok_0 as nat, vectors, coverage)
        } else {
            Seq::empty()
        })
    }
}

/// The lines on the tables whose rows could not be counted.
pub open spec fn failure_lines(tables: Seq<TableCount>, failure: Seq<char>) -> Seq<
    (Paint, Seq<char>),
>
    decreases tables.len(),
{
    if tables.len() == 0 {
        Seq::empty()
    } else {
        failure_lines(tables.drop_last(), failure) + (if tables.last().rows is Err {
            count_line(tables.last(), failure)
        } else {
            Seq::empty()
        })
    }
}

/// The line on all contents.
pub open spec fn content_line(rows: nat) -> Seq<(Paint, Seq<char>)> {
    if rows > 0 {
        seq![
            (Paint::Cyan, "content"@),
            (Paint::Plain, ": "@),
            (Paint::Yellow, decimal(rows)),
            (Paint::Plain, " rows (across 16 shards)\n"@),
        ]
    } else {
        Seq::empty()
    }
}

fn show_content_line(rows: usize) -> (r: Vec<Span>)
    ensures
        spans(r@) == content_line(rows as nat),
{
    let mut out = nothing();
    if rows > 0 {
        show(&mut out, Paint::Cyan, "content");
        show(&mut out, Paint::Plain, ": ");
        show_number(&mut out, Paint::Yellow, rows);
        show(&mut out, Paint::Plain, " rows (across 16 shards)\n");
    }
    assert(spans(out@) =~= content_line(rows as nat));
    out
}

proof fn lemma_rows_grow(tables: Seq<TableCount>, i: int)
    requires
        0 <= i <= tables.len(),
    ensures
        total_rows(tables.take(i)) <= total_rows(tables),
    decreases tables.len(),
{
    if i == tables.len() {
        assert(tables.take(i) =~= tables);
    } else {
        assert(tables.drop_last().take(i) =~= tables.take(i));
        lemma_rows_grow(tables.drop_last(), i);
    }
}

fn count_rows(tables: &Vec<TableCount>) -> (r: usize)
    requires
        total_rows(tables@) <= usize::MAX,
    ensures
        r == total_rows(tables@),
{
    let mut total: usize = 0;
    let mut i: usize = 0;
    assert(tables@.take(0) =~= Seq::empty());
    while i < tables.len()
        invariant
            i <= tables@.len(),
            total_rows(tables@) <= usize::MAX,
            total == total_rows(tables@.take(i as int)),
        decreases tables@.len() - i,
    {
        proof {
            assert(tables@.take(i + 1).drop_last() =~= tables@.take(i as int));
            assert(tables@.take(i + 1).last() == tables@[i as int]);
            lemma_rows_grow(tables@, i + 1);
        }
        match &tables[i].rows {
            Ok(rows) => {
                total += *rows;
            },
            Err(_) => {},
        }
        i += 1;
    }
    assert(tables@.take(i as int) =~= tables@);
    total
}

fn show_failure_lines(tables: &Vec<TableCount>, failure: &str) -> (r: Vec<Span>)
    ensures
        spans(r@) == failure_lines(tables@, failure@),
{
    let mut out = nothing();
    let mut i: usize = 0;
    assert(tables@.take(0) =~= Seq::empty());
    while i < tables.len()
        invariant
            i <= tables@.len(),
            spans(out@) == failure_lines(tables@.take(i as int), failure@),
        decreases tables@.len() - i,
    {
        proof {
            assert(tables@.take(i + 1).drop_last() =~= tables@.take(i as int));
            assert(tables@.take(i + 1).last() == tables@[i as int]);
        }
        let ghost so_far = spans(out@);
        if tables[i].rows.is_err() {
            let more = show_count_line(&tables[i], failure);
            show_all(&mut out, more);
        } else {
            assert(so_far + Seq::<(Paint, Seq<char>)>::empty() =~= so_far);
        }
        i += 1;
    }
    assert(tables@.take(i as int) =~= tables@);
    out
}

/// The report on how much is stored.
pub open spec fn storage_text(
    tables: Seq<TableCount>,
    shards: Seq<TableCount>,
    vectors: nat,
    coverage: Seq<char>,
) -> Seq<(Paint, Seq<char>)> {
    seq![(Paint::BoldGreen, "=== Database Storage Statistics ==="@), (Paint::Plain, "\n"@)]
        + storage_lines(tables, vectors, coverage) + failure_lines(
        shards,
        ": Error getting count - "@,
    ) + content_line(total_rows(shards)) + seq![
        (Paint::Bold, "Total"@),
        (Paint::Plain, ": "@),
        (Paint::Yellow, decimal(total_rows(tables) + total_rows(shards))),
        (Paint::Plain, " rows\n\n"@),
        (
            Paint::BrightBlack,
            "Note: LanceDB uses columnar compression (LZ4/ZSTD) automatically"@,
        ),
        (Paint::Plain, "\n"@),
        (
            Paint::BrightBlack,
            "Vectors are stored in a separate table for deduplication and efficiency"@,
        ),
        (Paint::Plain, "\n"@),
    ]
}

/// Get database storage statistics and compression info
pub fn get_storage_stats(
    tables: &Vec<TableCount>,
    shards: &Vec<TableCount>,
    vectors: usize,
    coverage: &str,
) -> (r: Vec<Span>)
    requires
        total_rows(tables@) + total_rows(shards@) <= usize::MAX,
        forall|i: int|
            0 <= i < tables@.len() && (#[trigger] tables@[i]).table@ == "functions"@
                && tables@[i].rows is Ok ==> vectors <= tables@[i].rows->Ok_0
                && tables@[i].rows->Ok_0 * 2048 <= usize::MAX,
    ensures
        spans(r@) == storage_text(tables@, shards@, vectors as nat, coverage@),
{
    let mut lines = nothing();
    let mut i: usize = 0;
    assert(tables@.take(0) =~= Seq::empty());
    while i < tables.len()
        invariant
            i <= tables@.len(),
            forall|i: int|
                0 <= i < tables@.len() && (#[trigger] tables@[i]).table@ == "functions"@
                    && tables@[i].rows is Ok ==> vectors <= tables@[i].rows->Ok_0
                    && tables@[i].rows->Ok_0 * 2048 <= usize::MAX,
            spans(lines@) == storage_lines(tables@.take(i as int), vectors as nat, coverage@),
        decreases tables@.len() - i,
    {
        proof {
            assert(tables@.take(i + 1).drop_last() =~= tables@.take(i as int));
            assert(tables@.take(i + 1).last() == tables@[i as int]);
        }
        let line = show_count_line(&tables[i], ": Error getting count - ");
        show_all(&mut lines, line);
        let mut more = nothing();
        if str_eq(tables[i].table.as_str(), "functions") {
            if let Ok(rows) = &tables[i].rows {
                more = show_vector_lines(*rows, vectors, coverage);
            }
        }
        show_all(&mut lines, more);
        i += 1;
    }
    assert(tables@.take(i as int) =~= tables@);
    let table_rows: usize = count_rows(tables);
    let shard_rows: usize = count_rows(shards);
    let mut out = nothing();
    show(&mut out, Paint::BoldGreen, "=== Database Storage Statistics ===");
    show(&mut out, Paint::Plain, "\n");
    show_all(&mut out, lines);
    let failures = show_failure_lines(shards, ": Error getting count - ");
    show_all(&mut out, failures);
    let content = show_content_line(shard_rows);
    show_all(&mut out, content);
    show(&mut out, Paint::Bold, "Total");
    show(&mut out, Paint::Plain, ": ");
    show_number(&mut out, Paint::Yellow, table_rows + shard_rows);
    show(&mut out, Paint::Plain, " rows\n\n");
    show(
        &mut out,
        Paint::BrightBlack,
        "Note: LanceDB uses columnar compression (LZ4/ZSTD) automatically",
    );
    show(&mut out, Paint::Plain, "\n");
    show(
        &mut out,
        Paint::BrightBlack,
        "Vectors are stored in a separate table for deduplication and efficiency",
    );
    show(&mut out, Paint::Plain, "\n");
    assert(spans(out@) =~= storage_text(tables@, shards@, vectors as nat, coverage@));
    out
}

/// The line on each table.
pub open spec fn compaction_lines(tables: Seq<TableCount>) -> Seq<(Paint, Seq<char>)>
    decreases tables.len(),
{
    if tables.len() == 0 {
        Seq::empty()
    } else {
        compaction_lines(tables.drop_last()) + count_line(tables.last(), ": Error - "@)
    }
}

/// The report on what compaction works with.
pub open spec fn compaction_report(tables: Seq<TableCount>, shards: Seq<TableCount>) -> Seq<
    (Paint, Seq<char>),
> {
    seq![(Paint::BoldGreen, "=== Database Compaction Statistics ==="@), (Paint::Plain, "\n"@)]
        + compaction_lines(tables) + failure_lines(shards, ": Error - "@) + content_line(
        total_rows(shards),
    ) + seq![
        (Paint::Plain, "\n"@),
        (Paint::BoldCyan, "Tips for compaction and cleanup:"@),
        (Paint::Plain, "\n• Run 'compact_db' periodically after large data imports\n"@),
        (
            Paint::Plain,
            "• Current implementation uses optimize() + checkout_latest() + handle management\n"@,
        ),
        (
            Paint::Plain,
            "• If database keeps growing, the LanceDB version may not expose cleanup_old_versions()\n"@,
        ),
        (
            Paint::Plain,
            "• Manual cleanup may require external tools or newer LanceDB versions\n"@,
        ),
        (Paint::Plain, "• Check LanceDB logs for actual cleanup statistics\n"@),
    ]
}

/// Get compaction statistics
pub fn get_compaction_stats(tables: &Vec<TableCount>, shards: &Vec<TableCount>) -> (r: Vec<Span>)
    requires
        total_rows(shards@) <= usize::MAX,
    ensures
        spans(r@) == compaction_report(tables@, shards@),
{
    let mut lines = nothing();
    let mut i: usize = 0;
    assert(tables@.take(0) =~= Seq::empty());
    while i < tables.len()
        invariant
            i <= tables@.len(),
            spans(lines@) == compaction_lines(tables@.take(i as int)),
        decreases tables@.len() - i,
    {
        proof {
            assert(tables@.take(i + 1).drop_last() =~= tables@.take(i as int));
            assert(tables@.take(i + 1).last() == tables@[i as int]);
        }
        let line = show_count_line(&tables[i], ": Error - ");
        show_all(&mut lines, line);
        i += 1;
    }
    assert(tables@.take(i as int) =~= tables@);
    let shard_rows: usize = count_rows(shards);
    let mut out = nothing();
    show(&mut out, Paint::BoldGreen, "=== Database Compaction Statistics ===");
    show(&mut out, Paint::Plain, "\n");
    show_all(&mut out, lines);
    let failures = show_failure_lines(shards, ": Error - ");
    show_all(&mut out, failures);
    let content = show_content_line(shard_rows);
    show_all(&mut out, content);
    show(&mut out, Paint::Plain, "\n");
    show(&mut out, Paint::BoldCyan, "Tips for compaction and cleanup:");
    show(
        &mut out,
        Paint::Plain,
        "\n• Run 'compact_db' periodically after large data imports\n",
    );
    show(
        &mut out,
        Paint::Plain,
        "• Current implementation uses optimize() + checkout_latest() + handle management\n",
    );
    show(
        &mut out,
        Paint::Plain,
        "• If database keeps growing, the LanceDB version may not expose cleanup_old_versions()\n",
    );
    show(
        &mut out,
        Paint::Plain,
        "• Manual cleanup may require external tools or newer LanceDB versions\n",
    );
    show(&mut out, Paint::Plain, "• Check LanceDB logs for actual cleanup statistics\n");
    assert(spans(out@) =~= compaction_report(tables@, shards@));
    out
}

/// The tables that statistics are kept on, besides those of contents.
pub fn statistics_tables() -> (r: Vec<String>)
    ensures
        texts(r@) == seq![
            "functions"@,
            "types"@,
            "vectors"@,
            "commit_vectors"@,
            "lore_vectors"@,
            "processed_files"@,
            "git_commits"@,
            "lore"@,
            "symbol_filename"@,
        ],
{
    let r = vec![
        String::from_str("functions"),
        String::from_str("types"),
        String::from_str("vectors"),
        String::from_str("commit_vectors"),
        String::from_str("lore_vectors"),
        String::from_str("processed_files"),
        String::from_str("git_commits"),
        String::from_str("lore"),
        String::from_str("symbol_filename"),
    ];
    assert(texts(r@) =~= seq![
        "functions"@,
        "types"@,
        "vectors"@,
        "commit_vectors"@,
        "lore_vectors"@,
        "processed_files"@,
        "git_commits"@,
        "lore"@,
        "symbol_filename"@,
    ]);
    r
}

/// The lines on groups of identical rows, up to one of them.
pub open spec fn example_lines(examples: Seq<(String, usize)>) -> Seq<(Paint, Seq<char>)>
    decreases examples.len(),
{
    if examples.len() == 0 {
        Seq::empty()
    } else {
        example_lines(examples.drop_last()) + seq![
            (Paint::Plain, "  Group "@),
            (Paint::Plain, decimal(examples.len())),
            (Paint::Plain, ": "@),
            (Paint::Yellow, decimal(examples.last().1 as nat)),
            (Paint::Plain, " identical rows\n    Sample: "@),
            (Paint::Cyan, examples.last().0@),
            (Paint::Plain, "\n"@),
        ]
    }
}

/// The report on the duplicates of a table. The share of duplicate rows, in
/// percent to two decimals, is given.
pub open spec fn duplicates_text(table: Seq<char>, scan: DuplicateScan, share: Seq<char>) -> Seq<
    (Paint, Seq<char>),
> {
    seq![
        (Paint::BoldCyan, "=== "@ + table + " ==="@),
        (Paint::Plain, "\nTotal rows: "@),
        (Paint::Yellow, decimal(scan.total_rows as nat)),
        (Paint::Plain, "\n"@),
    ] + (if scan.duplicate_groups > 0 {
        seq![
            (Paint::Plain, "Duplicate groups: "@),
            (Paint::Red, decimal(scan.duplicate_groups as nat)),
            (Paint::Plain, "\nTotal duplicate rows: "@),
            (Paint::Red, decimal(scan.duplicate_rows as nat)),
            (Paint::Plain, "\nDuplicate percentage: "@),
            (Paint::Plain, share),
            (Paint::Plain, "%\n"@),
        ] + (if scan.examples@.len() > 0 {
            seq![(Paint::Plain, "\nExample duplicates (showing up to 5 groups):\n"@)]
                + example_lines(scan.examples@)
        } else {
            Seq::empty()
        })
    } else {
        seq![(Paint::Green, "No duplicates found ✓"@), (Paint::Plain, "\n"@)]
    }) + seq![(Paint::Plain, "\n"@)]
}

/// Reports on the duplicates of a table.
pub fn report_duplicates(table: &str, scan: &DuplicateScan, share: &str) -> (r: Vec<Span>)
    ensures
        spans(r@) == duplicates_text(table@, *scan, share@),
{
    let mut title = String::from_str("=== ");
    title.append(table);
    title.append(" ===");
    let mut out = nothing();
    show(&mut out, Paint::BoldCyan, title.as_str());
    show(&mut out, Paint::Plain, "\nTotal rows: ");
    show_number(&mut out, Paint::Yellow, scan.total_rows);
    show(&mut out, Paint::Plain, "\n");
    if scan.duplicate_groups > 0 {
        show(&mut out, Paint::Plain, "Duplicate groups: ");
        show_number(&mut out, Paint::Red, scan.duplicate_groups);
        show(&mut out, Paint::Plain, "\nTotal duplicate rows: ");
        show_number(&mut out, Paint::Red, scan.duplicate_rows);
        show(&mut out, Paint::Plain, "\nDuplicate percentage: ");
        show(&mut out, Paint::Plain, share);
        show(&mut out, Paint::Plain, "%\n");
        if scan.examples.len() > 0 {
            show(&mut out, Paint::Plain, "\nExample duplicates (showing up to 5 groups):\n");
            let mut lines = nothing();
            let mut i: usize = 0;
            assert(scan.examples@.take(0) =~= Seq::empty());
            while i < scan.examples.len()
                invariant
                    i <= scan.examples@.len(),
                    spans(lines@) == example_lines(scan.examples@.take(i as int)),
                decreases scan.examples@.len() - i,
            {
                let ghost so_far = spans(lines@);
                proof {
                    assert(scan.examples@.take(i + 1).drop_last() =~= scan.examples@.take(
                        i as int,
                    ));
                    assert(scan.examples@.take(i + 1).last() == scan.examples@[i as int]);
                }
                let count: usize = scan.examples.len();
                assert(i < count);
                show(&mut lines, Paint::Plain, "  Group ");
                show_number(&mut lines, Paint::Plain, i + 1);
                show(&mut lines, Paint::Plain, ": ");
                show_number(&mut lines, Paint::Yellow, scan.examples[i].1);
                show(&mut lines, Paint::Plain, " identical rows\n    Sample: ");
                show(&mut lines, Paint::Cyan, scan.examples[i].0.as_str());
                show(&mut lines, Paint::Plain, "\n");
                assert(spans(lines@) =~= example_lines(scan.examples@.take(i + 1)));
                i += 1;
            }
            assert(scan.examples@.take(i as int) =~= scan.examples@);
            show_all(&mut out, lines);
        }
    } else {
        show(&mut out, Paint::Green, "No duplicates found ✓");
        show(&mut out, Paint::Plain, "\n");
    }
    show(&mut out, Paint::Plain, "\n");
    assert(spans(out@) =~= duplicates_text(table@, *scan, share@));
    out
}

/// An index of a table: its name, its columns and its kind, as texts.
#[derive(Debug, Clone)]
pub struct IndexDescription {
    pub name: String,
    pub columns: String,
    pub kind: String,
}

/// The lines on some indices.
pub open spec fn index_lines(indices: Seq<IndexDescription>) -> Seq<char>
    decreases indices.len(),
{
    if indices.len() == 0 {
        Seq::empty()
    } else {
        index_lines(indices.drop_last()) + "  - "@ + indices.last().name@ + " on "@
            + indices.last().columns@ + " (type: "@ + indices.last().kind@ + ")\n"@
    }
}

/// Get lore table information including row count and indices
pub fn get_lore_table_info(count: usize, indices: &Vec<IndexDescription>) -> (r: String)
    ensures
        r@ == "Lore Table Information:\n  Total emails: "@ + decimal(count as nat)
            + "\n\nIndices ("@ + decimal(indices@.len()) + " total):\n"@ + index_lines(indices@),
{
    let mut lines = String::new();
    let mut i: usize = 0;
    assert(indices@.take(0) =~= Seq::empty());
    assert(lines@ =~= index_lines(indices@.take(0)));
    while i < indices.len()
        invariant
            i <= indices@.len(),
            lines@ == index_lines(indices@.take(i as int)),
        decreases indices@.len() - i,
    {
        proof {
            assert(indices@.take(i + 1).drop_last() =~= indices@.take(i as int));
            assert(indices@.take(i + 1).last() == indices@[i as int]);
        }
        lines.append("  - ");
        lines.append(indices[i].name.as_str());
        lines.append(" on ");
        lines.append(indices[i].columns.as_str());
        lines.append(" (type: ");
        lines.append(indices[i].kind.as_str());
        lines.append(")\n");
        i += 1;
    }
    assert(indices@.take(i as int) =~= indices@);
    let total: usize = indices.len();
    let mut out = String::from_str("Lore Table Information:\n  Total emails: ");
    out.append(decimal_of(count as u64).as_str());
    out.append("\n\nIndices (");
    out.append(decimal_of(total as u64).as_str());
    out.append(" total):\n");
    out.append(lines.as_str());
    out
}

} // verus!
