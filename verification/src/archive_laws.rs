//! What searches of the mailing-list archives and of the commits promise, column by
//! column and date by date.
use vstd::prelude::*;
use crate::commits::{patterns_allow, GitCommitInfo};
use crate::dates::{date_range, earlier, in_range, mail_instant, signed_decimal, Instant};
use crate::grep::limited;
use crate::keyed::{lemma_filter_nothing, lemma_same_filter};
use crate::lore::{all_read_as, LoreEmailInfo, LoreRow};
use crate::lore_search::{
    field_complaint, fields_complaint, matches_every_field, matches_pattern, matches_some_pattern,
    matching, patterns_for, PatternHits,
};
use crate::patterns::{regex_complaint, regex_found};
use crate::text::texts;

verus! {

/// Each field is searched in the column of its name, ignoring case: "from" in the
/// senders, "subject" in the subjects, "body" in the bodies, "recipients" in the
/// recipients and "symbols" in the symbols. A search in any other field finds
/// nothing.
pub proof fn each_field_is_searched_in_its_own_column(rows: Seq<LoreRow>, pattern: Seq<char>)
    ensures
        matching(rows, "from"@, pattern) == rows.filter(
            |row: LoreRow| regex_found(pattern, true, row.from@),
        ),
        matching(rows, "subject"@, pattern) == rows.filter(
            |row: LoreRow| regex_found(pattern, true, row.subject@),
        ),
        matching(rows, "body"@, pattern) == rows.filter(
            |row: LoreRow| regex_found(pattern, true, row.body@),
        ),
        matching(rows, "recipients"@, pattern) == rows.filter(
            |row: LoreRow| regex_found(pattern, true, row.recipients@),
        ),
        matching(rows, "symbols"@, pattern) == rows.filter(
            |row: LoreRow| regex_found(pattern, true, row.symbols@),
        ),
        forall|field: Seq<char>|
            field != "from"@ && field != "subject"@ && field != "body"@ && field != "recipients"@
                && field != "symbols"@ ==> (#[trigger] matching(rows, field, pattern)).len() == 0,
{
    lemma_field_names_differ();
    let from = |row: LoreRow| regex_found(pattern, true, row.from@);
    let subject = |row: LoreRow| regex_found(pattern, true, row.subject@);
    let body = |row: LoreRow| regex_found(pattern, true, row.body@);
    let recipients = |row: LoreRow| regex_found(pattern, true, row.recipients@);
    let symbols = |row: LoreRow| regex_found(pattern, true, row.symbols@);
    let within = |field: Seq<char>|
        |row: LoreRow| crate::lore_search::matches_field(row, field, pattern);
    lemma_same_filter(rows, within("from"@), from);
    lemma_same_filter(rows, within("subject"@), subject);
    lemma_same_filter(rows, within("body"@), body);
    lemma_same_filter(rows, within("recipients"@), recipients);
    lemma_same_filter(rows, within("symbols"@), symbols);
    assert forall|field: Seq<char>|
        field != "from"@ && field != "subject"@ && field != "body"@ && field != "recipients"@
            && field != "symbols"@ implies (#[trigger] matching(rows, field, pattern)).len() == 0 by {
        lemma_same_filter(rows, within(field), |row: LoreRow| false);
        lemma_filter_nothing(rows);
    }
}

proof fn lemma_field_names_differ()
    ensures
        "from"@ != "subject"@ && "from"@ != "body"@ && "from"@ != "recipients"@ && "from"@
            != "symbols"@,
        "subject"@ != "body"@ && "subject"@ != "recipients"@ && "subject"@ != "symbols"@,
        "body"@ != "recipients"@ && "body"@ != "symbols"@,
        "recipients"@ != "symbols"@,
{
    reveal_strlit("from");
    reveal_strlit("subject");
    reveal_strlit("body");
    reveal_strlit("recipients");
    reveal_strlit("symbols");
    assert("from"@[0] == 'f' && "body"@[0] == 'b' && "recipients"@[0] == 'r');
    assert("subject"@[1] == 'u' && "symbols"@[1] == 'y' && "subject"@[0] == 's' && "symbols"@[0]
        == 's');
}

/// Every email that a search answers with has the pattern in the part that was
/// searched, whatever the limit.
pub proof fn answered_emails_have_the_pattern(
    rows: Seq<LoreRow>,
    pattern: Seq<char>,
    limit: usize,
    emails: Seq<LoreEmailInfo>,
    i: int,
)
    requires
        0 <= i < emails.len(),
    ensures
        all_read_as(limited(matching(rows, "from"@, pattern), limit), emails) ==> regex_found(
            pattern,
            true,
            emails[i].from@,
        ),
        all_read_as(limited(matching(rows, "subject"@, pattern), limit), emails) ==> regex_found(
            pattern,
            true,
            emails[i].subject@,
        ),
        all_read_as(limited(matching(rows, "body"@, pattern), limit), emails) ==> regex_found(
            pattern,
            true,
            emails[i].body@,
        ),
        all_read_as(limited(matching(rows, "recipients"@, pattern), limit), emails)
            ==> regex_found(pattern, true, emails[i].recipients@),
{
    each_field_is_searched_in_its_own_column(rows, pattern);
    rows.filter_lemma(|row: LoreRow| regex_found(pattern, true, row.from@));
    rows.filter_lemma(|row: LoreRow| regex_found(pattern, true, row.subject@));
    rows.filter_lemma(|row: LoreRow| regex_found(pattern, true, row.body@));
    rows.filter_lemma(|row: LoreRow| regex_found(pattern, true, row.recipients@));
    if all_read_as(limited(matching(rows, "from"@, pattern), limit), emails) {
        let found = limited(matching(rows, "from"@, pattern), limit);
        assert(found[i] == matching(rows, "from"@, pattern)[i]);
        assert(emails[i].from == found[i].from);
    }
    if all_read_as(limited(matching(rows, "subject"@, pattern), limit), emails) {
        let found = limited(matching(rows, "subject"@, pattern), limit);
        assert(found[i] == matching(rows, "subject"@, pattern)[i]);
        assert(emails[i].subject == found[i].subject);
    }
    if all_read_as(limited(matching(rows, "body"@, pattern), limit), emails) {
        let found = limited(matching(rows, "body"@, pattern), limit);
        assert(found[i] == matching(rows, "body"@, pattern)[i]);
        assert(emails[i].body == found[i].body);
    }
    if all_read_as(limited(matching(rows, "recipients"@, pattern), limit), emails) {
        let found = limited(matching(rows, "recipients"@, pattern), limit);
        assert(found[i] == matching(rows, "recipients"@, pattern)[i]);
        assert(emails[i].recipients == found[i].recipients);
    }
}

/// A limit keeps the first rows and no others; a limit of 0, or one that is not
/// reached, keeps all of them.
pub proof fn a_limit_keeps_the_first<T>(rows: Seq<T>, limit: usize)
    ensures
        limit == 0 ==> limited(rows, limit) == rows,
        limit > 0 && rows.len() <= limit ==> limited(rows, limit) == rows,
        limit > 0 && rows.len() > limit ==> limited(rows, limit).len() == limit,
        forall|i: int|
            0 <= i < limited(rows, limit).len() ==> #[trigger] limited(rows, limit)[i] == rows[i],
{
}

/// A stored email is read column by column: each part of the email is what the
/// column of its name holds.
pub proof fn emails_keep_their_columns(rows: Seq<LoreRow>, emails: Seq<LoreEmailInfo>, i: int)
    requires
        all_read_as(rows, emails),
        0 <= i < rows.len(),
    ensures
        emails.len() == rows.len(),
        emails[i].git_commit_sha@ == rows[i].git_commit_sha@,
        emails[i].from@ == rows[i].from@,
        emails[i].date@ == rows[i].date@,
        emails[i].message_id@ == rows[i].message_id@,
        emails[i].subject@ == rows[i].subject@,
        emails[i].recipients@ == rows[i].recipients@,
        emails[i].body@ == rows[i].body@,
        emails[i].in_reply_to == rows[i].in_reply_to,
        emails[i].references == rows[i].references,
        rows[i].date_timestamp is Some ==> emails[i].date_timestamp
            == rows[i].date_timestamp->0,
        rows[i].date_timestamp is None && mail_instant(rows[i].date@) is Some
            ==> emails[i].date_timestamp == (mail_instant(rows[i].date@)->0).0,
        rows[i].date_timestamp is None && mail_instant(rows[i].date@) is None
            ==> emails[i].date_timestamp == 0,
{
    assert(crate::lore::reads_as(rows[i], emails[i]));
}

/// The commits that are kept are those in which every pattern that is a regular
/// expression is found, in the message or in the diff, and of which every symbol
/// pattern that is one is found in some symbol. Case is ignored, and a pattern that
/// is no regular expression is passed over.
pub proof fn commits_are_kept_by_message_diff_and_symbols(
    commits: Seq<GitCommitInfo>,
    patterns: Seq<Seq<char>>,
    symbol_patterns: Seq<Seq<char>>,
)
    ensures
        commits.filter(|commit: GitCommitInfo| patterns_allow(commit, patterns, symbol_patterns))
            == commits.filter(
            |commit: GitCommitInfo|
                (forall|k: int|
                    #![trigger patterns[k]]
                    0 <= k < patterns.len() && regex_complaint(patterns[k], true) is None ==> (
                    regex_found(patterns[k], true, commit.message@) || regex_found(
                        patterns[k],
                        true,
                        commit.diff@,
                    ))) && (forall|k: int|
                    #![trigger symbol_patterns[k]]
                    0 <= k < symbol_patterns.len() && regex_complaint(symbol_patterns[k], true) is None
                        ==> exists|i: int|
                        0 <= i < commit.symbols@.len() && regex_found(
                            symbol_patterns[k],
                            true,
                            (#[trigger] commit.symbols@[i])@,
                        )),
        ),
{
    let a = |commit: GitCommitInfo| patterns_allow(commit, patterns, symbol_patterns);
    let b = |commit: GitCommitInfo|
        (forall|k: int|
            #![trigger patterns[k]]
            0 <= k < patterns.len() && regex_complaint(patterns[k], true) is None ==> (regex_found(
                patterns[k],
                true,
                commit.message@,
            ) || regex_found(patterns[k], true, commit.diff@))) && (forall|k: int|
            #![trigger symbol_patterns[k]]
            0 <= k < symbol_patterns.len() && regex_complaint(symbol_patterns[k], true) is None
                ==> exists|i: int|
                0 <= i < commit.symbols@.len() && regex_found(
                    symbol_patterns[k],
                    true,
                    (#[trigger] commit.symbols@[i])@,
                ));
    assert forall|commit: GitCommitInfo| commits.contains(commit) implies a(commit) == b(commit) by {
        if a(commit) {
            assert forall|k: int|
                #![trigger patterns[k]]
                0 <= k < patterns.len() && regex_complaint(patterns[k], true) is None implies (
            regex_found(patterns[k], true, commit.message@) || regex_found(
                patterns[k],
                true,
                commit.diff@,
            )) by {
                assert(crate::commits::pattern_allows(commit, patterns[k]));
            }
            assert forall|k: int|
                #![trigger symbol_patterns[k]]
                0 <= k < symbol_patterns.len() && regex_complaint(symbol_patterns[k], true) is None implies
                exists|i: int|
                0 <= i < commit.symbols@.len() && regex_found(
                    symbol_patterns[k],
                    true,
                    (#[trigger] commit.symbols@[i])@,
                ) by {
                assert(crate::commits::symbol_pattern_allows(commit, symbol_patterns[k]));
            }
        }
    }
    lemma_same_filter(commits, a, b);
}

/// A symbol pattern looks at the symbols alone: two commits with the same symbols
/// are kept or dropped alike where there are no other patterns.
pub proof fn symbol_patterns_look_at_symbols_alone(
    a: GitCommitInfo,
    b: GitCommitInfo,
    symbol_patterns: Seq<Seq<char>>,
)
    requires
        texts(a.symbols@) == texts(b.symbols@),
    ensures
        patterns_allow(a, Seq::empty(), symbol_patterns) == patterns_allow(
            b,
            Seq::empty(),
            symbol_patterns,
        ),
{
    assert forall|k: int| 0 <= k < symbol_patterns.len() implies
        crate::commits::symbol_pattern_allows(a, #[trigger] symbol_patterns[k])
        == crate::commits::symbol_pattern_allows(b, symbol_patterns[k]) by {
        lemma_symbols_alone(a, b, symbol_patterns[k]);
        lemma_symbols_alone(b, a, symbol_patterns[k]);
    }
}

proof fn lemma_symbols_alone(a: GitCommitInfo, b: GitCommitInfo, pattern: Seq<char>)
    requires
        texts(a.symbols@) == texts(b.symbols@),
    ensures
        crate::commits::symbol_pattern_allows(a, pattern)
            ==> crate::commits::symbol_pattern_allows(b, pattern),
{
    if crate::commits::symbol_pattern_allows(a, pattern) && regex_complaint(pattern, true) is None {
        assert(texts(a.symbols@).len() == a.symbols@.len());
        assert(texts(b.symbols@).len() == b.symbols@.len());
        let i = choose|i: int|
            0 <= i < a.symbols@.len() && crate::patterns::pattern_found(
                pattern,
                (#[trigger] a.symbols@[i])@,
            );
        assert(texts(a.symbols@)[i] == a.symbols@[i]@);
        assert(texts(b.symbols@)[i] == b.symbols@[i]@);
        assert(b.symbols@[i]@ == a.symbols@[i]@);
    }
}

/// A message or diff pattern does not look at the symbols: two commits with the
/// same message and the same diff are kept or dropped alike where there are no
/// symbol patterns.
pub proof fn patterns_look_at_message_and_diff_alone(
    a: GitCommitInfo,
    b: GitCommitInfo,
    patterns: Seq<Seq<char>>,
)
    requires
        a.message@ == b.message@,
        a.diff@ == b.diff@,
    ensures
        patterns_allow(a, patterns, Seq::empty()) == patterns_allow(b, patterns, Seq::empty()),
{
}

/// Whether an instant is no earlier than another.
pub open spec fn not_before(at: Instant, other: Instant) -> bool {
    other.0 < at.0 || (other.0 == at.0 && other.1 <= at.1)
}

/// A date is in a range from the first instant to the last, both included. Without
/// a range every text is; with one, a text that is no date is not.
pub proof fn a_range_includes_both_ends(
    date: Seq<char>,
    since: Option<Instant>,
    until: Option<Instant>,
)
    ensures
        since is None && until is None ==> in_range(date, since, until),
        (since is Some || until is Some) && mail_instant(date) is None ==> !in_range(
            date,
            since,
            until,
        ),
        (since is Some || until is Some) && mail_instant(date) is Some ==> (in_range(
            date,
            since,
            until,
        ) <==> (since is Some ==> not_before(mail_instant(date)->0, since->0)) && (until is Some
            ==> not_before(until->0, mail_instant(date)->0))),
{
}

/// The dates of a request are read as mail writes them; one that is not given, or is
/// no date, sets no bound.
pub proof fn bounds_are_the_dates_given(date: Seq<char>)
    ensures
        crate::dates::given_instant(Some(date)) == mail_instant(date),
        crate::dates::given_instant(None) is None,
        mail_instant(date) is Some ==> crate::dates::timestamp_of(date) == (mail_instant(
            date,
        )->0).0,
        mail_instant(date) is None ==> crate::dates::timestamp_of(date) == 0,
{
}

/// The filter for a range of dates bounds the timestamps below by the first and above
/// by the last second, and is the two one-sided filters put together; there is none
/// without a bound, nor for a table without timestamps.
pub proof fn a_range_filter_bounds_the_timestamps(since: Instant, until: Instant)
    ensures
        date_range(true, Some(since), None) == Some(
            "date_timestamp >= "@ + signed_decimal(since.0 as int),
        ),
        date_range(true, None, Some(until)) == Some(
            "date_timestamp <= "@ + signed_decimal(until.0 as int),
        ),
        date_range(true, Some(since), Some(until)) == Some(
            date_range(true, Some(since), None)->0 + " AND "@ + date_range(
                true,
                None,
                Some(until),
            )->0,
        ),
        date_range(true, None, None) is None,
        date_range(false, Some(since), Some(until)) is None,
        date_range(false, Some(since), None) is None,
        date_range(false, None, Some(until)) is None,
{
    reveal_strlit(" AND ");
    reveal_strlit(" AND date_timestamp <= ");
    reveal_strlit("date_timestamp <= ");
    assert(" AND date_timestamp <= "@ =~= " AND "@ + "date_timestamp <= "@);
    let a = "date_timestamp >= "@ + signed_decimal(since.0 as int);
    let b = signed_decimal(until.0 as int);
    assert(a + " AND date_timestamp <= "@ + b =~= a + " AND "@ + ("date_timestamp <= "@ + b));
}

/// Whether a message is a hit for a pattern: a candidate with its id has the pattern
/// in its text, ignoring case, and a date in the range.
pub open spec fn is_hit(
    hits: PatternHits,
    since: Option<Instant>,
    until: Option<Instant>,
    id: Seq<char>,
    i: int,
) -> bool {
    &&& 0 <= i < hits.hits@.len()
    &&& hits.hits@[i].message_id@ == id
    &&& regex_found(hits.pattern@, true, hits.hits@[i].text@)
    &&& (since is None && until is None) || (mail_instant(hits.hits@[i].date@) is Some && (
    since is Some ==> not_before(mail_instant(hits.hits@[i].date@)->0, since->0)) && (
    until is Some ==> not_before(until->0, mail_instant(hits.hits@[i].date@)->0)))
}

/// A message answers a search in several fields just when every field that has
/// patterns has one of which the message is a hit, and there is such a field.
pub proof fn messages_match_in_every_field(
    fields: Seq<Vec<PatternHits>>,
    since: Option<Instant>,
    until: Option<Instant>,
    id: Seq<char>,
)
    ensures
        matches_every_field(fields, since, until, id) <==> (exists|f: int|
            0 <= f < fields.len() && (#[trigger] fields[f])@.len() > 0) && forall|f: int|
            0 <= f < fields.len() && (#[trigger] fields[f])@.len() > 0 ==> exists|k: int, i: int|
                0 <= k < fields[f]@.len() && #[trigger] is_hit(fields[f]@[k], since, until, id, i),
{
    assert forall|f: int| 0 <= f < fields.len() implies (matches_some_pattern(
        (#[trigger] fields[f])@,
        since,
        until,
        id,
    ) <==> exists|k: int, i: int|
        0 <= k < fields[f]@.len() && #[trigger] is_hit(fields[f]@[k], since, until, id, i)) by {
        lemma_some_hit(fields[f]@, since, until, id);
    }
}

proof fn lemma_some_hit(
    field: Seq<PatternHits>,
    since: Option<Instant>,
    until: Option<Instant>,
    id: Seq<char>,
)
    ensures
        matches_some_pattern(field, since, until, id) <==> exists|k: int, i: int|
            0 <= k < field.len() && #[trigger] is_hit(field[k], since, until, id, i),
{
    if matches_some_pattern(field, since, until, id) {
        let k = choose|k: int|
            0 <= k < field.len() && matches_pattern(#[trigger] field[k], since, until, id);
        let hits = field[k];
        let i = choose|i: int|
            0 <= i < hits.hits@.len() && crate::lore_search::is_match(
                #[trigger] hits.hits@[i],
                hits.pattern@,
                since,
                until,
            ) && hits.hits@[i].message_id@ == id;
        a_range_includes_both_ends(hits.hits@[i].date@, since, until);
        assert(is_hit(field[k], since, until, id, i));
    }
    if exists|k: int, i: int|
        0 <= k < field.len() && #[trigger] is_hit(field[k], since, until, id, i) {
        let (k, i) = choose|k: int, i: int|
            0 <= k < field.len() && #[trigger] is_hit(field[k], since, until, id, i);
        let hits = field[k];
        a_range_includes_both_ends(hits.hits@[i].date@, since, until);
        assert(crate::lore_search::is_match(hits.hits@[i], hits.pattern@, since, until));
        assert(matches_pattern(field[k], since, until, id));
    }
}

/// A search in several fields is refused just when one of its patterns is no regular
/// expression, with what is wrong with the first such pattern.
pub proof fn the_first_broken_pattern_is_refused(fields: Seq<Vec<PatternHits>>)
    ensures
        fields_complaint(fields) is None <==> forall|f: int, k: int|
            0 <= f < fields.len() && 0 <= k < fields[f]@.len() ==> regex_complaint(
                (#[trigger] fields[f]@[k]).pattern@,
                true,
            ) is None,
        fields_complaint(fields) is Some ==> exists|f: int, k: int|
            0 <= f < fields.len() && 0 <= k < fields[f]@.len() && regex_complaint(
                (#[trigger] fields[f]@[k]).pattern@,
                true,
            ) == fields_complaint(fields),
    decreases fields.len(),
{
    if fields.len() > 0 {
        let init = fields.drop_last();
        let n = fields.len() - 1;
        the_first_broken_pattern_is_refused(init);
        lemma_field_complaint(fields.last()@);
        assert forall|f: int, k: int|
            0 <= f < init.len() && 0 <= k < init[f]@.len() implies #[trigger] init[f]@[k]
            == fields[f]@[k] by {}
        if fields_complaint(init) is Some {
            let (f, k) = choose|f: int, k: int|
                0 <= f < init.len() && 0 <= k < init[f]@.len() && regex_complaint(
                    (#[trigger] init[f]@[k]).pattern@,
                    true,
                ) == fields_complaint(init);
            assert(regex_complaint(fields[f]@[k].pattern@, true) == fields_complaint(fields));
        } else if field_complaint(fields.last()@) is Some {
            let k = choose|k: int|
                0 <= k < fields.last()@.len() && regex_complaint(
                    (#[trigger] fields.last()@[k]).pattern@,
                    true,
                ) == field_complaint(fields.last()@);
            assert(regex_complaint(fields[n]@[k].pattern@, true) == fields_complaint(fields));
        } else {
            assert forall|f: int, k: int|
                0 <= f < fields.len() && 0 <= k < fields[f]@.len() implies regex_complaint(
                (#[trigger] fields[f]@[k]).pattern@,
                true,
            ) is None by {
                if f < n {
                    assert(regex_complaint(init[f]@[k].pattern@, true) is None);
                } else {
                    assert(regex_complaint(fields.last()@[k].pattern@, true) is None);
                }
            }
        }
    }
}

proof fn lemma_field_complaint(field: Seq<PatternHits>)
    ensures
        field_complaint(field) is None <==> forall|k: int|
            0 <= k < field.len() ==> regex_complaint((#[trigger] field[k]).pattern@, true) is None,
        field_complaint(field) is Some ==> exists|k: int|
            0 <= k < field.len() && regex_complaint((#[trigger] field[k]).pattern@, true)
                == field_complaint(field),
    decreases field.len(),
{
    if field.len() > 0 {
        let init = field.drop_last();
        lemma_field_complaint(init);
        if field_complaint(init) is Some {
            let k = choose|k: int|
                0 <= k < init.len() && regex_complaint((#[trigger] init[k]).pattern@, true)
                    == field_complaint(init);
            assert(field[k] == init[k]);
        } else {
            assert(field[field.len() - 1] == field.last());
            assert forall|k: int| 0 <= k < init.len() implies regex_complaint(
                (#[trigger] field[k]).pattern@,
                true,
            ) is None by {
                assert(init[k] == field[k]);
            }
        }
    }
}

/// The patterns of a field are those given for it, in order.
pub proof fn patterns_are_those_given_for_the_field(
    conditions: Seq<(String, String)>,
    field: Seq<char>,
)
    ensures
        patterns_for(conditions, field) == conditions.filter(
            |c: (String, String)| c.0@ == field,
        ).map_values(|c: (String, String)| c.1@),
    decreases conditions.len(),
{
    reveal(Seq::filter);
    let given = |c: (String, String)| c.0@ == field;
    let text = |c: (String, String)| c.1@;
    if conditions.len() > 0 {
        let init = conditions.drop_last();
        patterns_are_those_given_for_the_field(init, field);
        assert(init.filter(given).push(conditions.last()).map_values(text) =~= init.filter(
            given,
        ).map_values(text).push(conditions.last().1@));
    } else {
        assert(conditions.filter(given).map_values(text) =~= Seq::empty());
    }
}

/// A search asks for what is asked for, or for what is usual where nothing is; and
/// it is over when it has enough, when another round found no more, or when it has
/// asked for very many.
pub proof fn a_search_is_over_when_more_would_not_help(
    search: crate::lore_search::LoreSearch,
    found: usize,
)
    ensures
        found >= search.target ==> search.is_last(found),
        !search.first_round && found == search.previous ==> search.is_last(found),
        search.candidates >= 1000000 ==> search.is_last(found),
        found < search.target && (search.first_round || found != search.previous)
            && search.candidates < 1000000 ==> !search.is_last(found),
{
}

/// A message id is looked up in angle brackets, which are added where one of them is
/// missing.
pub proof fn message_ids_are_looked_up_in_brackets(id: Seq<char>)
    ensures
        id.len() > 0 && id[0] == '<' && id.last() == '>' ==> crate::lore::bracketed(id) == id,
        id.len() == 0 || id[0] != '<' || id.last() != '>' ==> crate::lore::bracketed(id)
            == seq!['<'] + id + seq!['>'],
{
    reveal_strlit("<");
    reveal_strlit(">");
    assert("<"@ =~= seq!['<']);
    assert(">"@ =~= seq!['>']);
    if id.len() > 0 {
        assert(id.take(1)[0] == id[0]);
        assert(id.skip(id.len() - 1)[0] == id.last());
        if id[0] == '<' {
            assert(id.take(1) =~= "<"@);
        }
        if id.last() == '>' {
            assert(id.skip(id.len() - 1) =~= ">"@);
        }
    }
}

/// A full-text search looks for every letter and digit of the pattern, in order, and
/// for nothing else but spaces.
pub proof fn full_text_keeps_letters_and_digits(pattern: Seq<char>)
    ensures
        crate::lore_search::full_text(pattern).filter(
            |c: char| c != ' ' && crate::text::alphanumeric(c),
        ) == pattern.filter(|c: char| c != ' ' && crate::text::alphanumeric(c)),
        forall|i: int|
            0 <= i < crate::lore_search::full_text(pattern).len() ==> crate::text::alphanumeric(
                #[trigger] crate::lore_search::full_text(pattern)[i],
            ) || crate::lore_search::full_text(pattern)[i] == ' ',
    decreases pattern.len(),
{
    reveal(Seq::filter);
    reveal_strlit(" ");
    let wanted = |c: char| c != ' ' && crate::text::alphanumeric(c);
    if pattern.len() > 0 {
        let init = pattern.drop_last();
        let c = pattern.last();
        full_text_keeps_letters_and_digits(init);
        let before = crate::lore_search::searchable_runs(init);
        let held = crate::lore_search::full_text(init);
        let now = crate::lore_search::full_text(pattern);
        if !crate::lore_search::searchable(c) {
        } else if pattern.len() == 1 || !crate::lore_search::searchable(
            pattern[pattern.len() - 2],
        ) {
            lemma_joined_push(before, seq![c], " "@);
            if before.len() == 0 {
                assert(now =~= seq![c]);
                assert(seq![c].drop_last() =~= Seq::empty());
                lemma_filter_push(Seq::empty(), c, wanted);
                assert(seq![c] =~= Seq::<char>::empty().push(c));
            } else {
                assert(now =~= held.push(' ').push(c));
                lemma_filter_push(held.push(' '), c, wanted);
                lemma_filter_push(held, ' ', wanted);
            }
        } else {
            lemma_runs_end(init);
            lemma_joined_extend(before, c, " "@);
            assert(now =~= held.push(c));
            lemma_filter_push(held, c, wanted);
        }
    }
}

proof fn lemma_filter_push(s: Seq<char>, c: char, wanted: spec_fn(char) -> bool)
    ensures
        s.push(c).filter(wanted) == (if wanted(c) {
            s.filter(wanted).push(c)
        } else {
            s.filter(wanted)
        }),
{
    reveal(Seq::filter);
    assert(s.push(c).drop_last() =~= s);
}

proof fn lemma_runs_end(s: Seq<char>)
    requires
        s.len() > 0,
        crate::lore_search::searchable(s.last()),
    ensures
        crate::lore_search::searchable_runs(s).len() > 0,
    decreases s.len(),
{
    if s.len() > 1 && crate::lore_search::searchable(s[s.len() - 2]) {
        assert(s.drop_last().last() == s[s.len() - 2]);
        lemma_runs_end(s.drop_last());
    }
}

proof fn lemma_joined_push(parts: Seq<Seq<char>>, part: Seq<char>, sep: Seq<char>)
    ensures
        crate::text::joined(parts.push(part), sep) == (if parts.len() == 0 {
            part
        } else {
            crate::text::joined(parts, sep) + sep + part
        }),
{
    assert(parts.push(part).drop_last() =~= parts);
}

proof fn lemma_joined_extend(parts: Seq<Seq<char>>, c: char, sep: Seq<char>)
    requires
        parts.len() > 0,
    ensures
        crate::text::joined(parts.update(parts.len() - 1, parts.last().push(c)), sep)
            == crate::text::joined(parts, sep).push(c),
{
    let more = parts.update(parts.len() - 1, parts.last().push(c));
    assert(more.drop_last() =~= parts.drop_last());
    assert(more.last() == parts.last().push(c));
    if parts.len() > 1 {
        let lead = crate::text::joined(parts.drop_last(), sep) + sep;
        assert(lead + parts.last().push(c) =~= (lead + parts.last()).push(c));
    }
}

} // verus!
