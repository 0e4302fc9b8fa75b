//! The emails of mailing-list archives, and how they are stored.
use vstd::prelude::*;
use crate::chunks::{chunk_texts, chunked, texts_of};
use crate::dates::{get_date_timestamp, timestamp_of};
use crate::json::{json_names, json_of_names, parse_type_list, write_name_list};
use crate::keyed::{first_flags, first_of_key, keep_rows, kept};
use crate::sql::{equals, equals_filter, escape, escaped, one_of, one_of_filter};
use crate::text::{ends_with, has_prefix, has_suffix, lemma_texts_push};
use crate::text::{replace_char, replaced, starts_with, texts};

verus! {

/// An email of an archive.
#[derive(Debug, Clone)]
pub struct LoreEmailInfo {
    /// The commit of the archive that holds the email.
    pub git_commit_sha: String,
    pub from: String,
    pub date: String,
    /// The date in seconds since the epoch.
    pub date_timestamp: i64,
    pub message_id: String,
    pub in_reply_to: Option<String>,
    pub subject: String,
    pub references: Option<String>,
    pub recipients: String,
    pub body: String,
    /// The symbols that the email mentions.
    pub symbols: Vec<String>,
}

/// An email as it is stored. Databases that predate the timestamps have none.
#[derive(Debug, Clone)]
pub struct LoreRow {
    pub git_commit_sha: String,
    pub from: String,
    pub date: String,
    pub date_timestamp: Option<i64>,
    pub message_id: String,
    pub in_reply_to: Option<String>,
    pub subject: String,
    pub references: Option<String>,
    pub recipients: String,
    pub body: String,
    /// The symbols in JSON.
    pub symbols: String,
}

/// The symbols of a stored email; none where they cannot be read.
pub open spec fn symbols_of(json: Seq<char>) -> Seq<Seq<char>> {
    match json_names(json) {
        Ok(names) => names,
        Err(_) => Seq::empty(),
    }
}

/// Whether an email is what a row says.
pub open spec fn reads_as(row: LoreRow, email: LoreEmailInfo) -> bool {
    &&& email.git_commit_sha == row.git_commit_sha
    &&& email.from == row.from
    &&& email.date == row.date
    &&& email.date_timestamp == (match row.date_timestamp {
        Some(timestamp) => timestamp,
        None => timestamp_of(row.date@),
    })
    &&& email.message_id == row.message_id
    &&& email.in_reply_to == row.in_reply_to
    &&& email.subject == row.subject
    &&& email.references == row.references
    &&& email.recipients == row.recipients
    &&& email.body == row.body
    &&& texts(email.symbols@) == symbols_of(row.symbols@)
}

/// Reads a stored email.
pub fn read_email(row: LoreRow) -> (r: LoreEmailInfo)
    ensures
        reads_as(row, r),
{
    let symbols = match parse_type_list(row.symbols.as_str()) {
        Some(names) => names,
        None => {
            let none: Vec<String> = Vec::new();
            assert(texts(none@) =~= Seq::empty());
            none
        },
    };
    let date_timestamp: i64 = get_date_timestamp(row.date_timestamp, row.date.as_str());
    LoreEmailInfo {
        git_commit_sha: row.git_commit_sha,
        from: row.from,
        date: row.date,
        date_timestamp,
        message_id: row.message_id,
        in_reply_to: row.in_reply_to,
        subject: row.subject,
        references: row.references,
        recipients: row.recipients,
        body: row.body,
        symbols,
    }
}

/// Whether emails are what rows say, one for one.
pub open spec fn all_read_as(rows: Seq<LoreRow>, emails: Seq<LoreEmailInfo>) -> bool {
    emails.len() == rows.len() && forall|i: int|
        0 <= i < rows.len() ==> reads_as(#[trigger] rows[i], emails[i])
}

/// Reads stored emails.
pub fn read_emails(rows: Vec<LoreRow>) -> (r: Vec<LoreEmailInfo>)
    ensures
        all_read_as(rows@, r@),
{
    let ghost all = rows@;
    let mut out: Vec<LoreEmailInfo> = Vec::new();
    for row in it: rows
        invariant
            it.seq() == all,
            out@.len() == it.index(),
            forall|i: int| 0 <= i < it.index() ==> reads_as(#[trigger] all[i], out@[i]),
    {
        out.push(read_email(row));
    }
    out
}

/// Whether a row is how an email is stored.
pub open spec fn writes_as(email: LoreEmailInfo, row: LoreRow) -> bool {
    &&& row.git_commit_sha == email.git_commit_sha
    &&& row.from == email.from
    &&& row.date == email.date
    &&& row.date_timestamp == Some(email.date_timestamp)
    &&& row.message_id == email.message_id
    &&& row.in_reply_to == email.in_reply_to
    &&& row.subject == email.subject
    &&& row.references == email.references
    &&& row.recipients == email.recipients
    &&& row.body == email.body
    &&& row.symbols@ == json_of_names(texts(email.symbols@))
    &&& json_names(row.symbols@) matches Ok(names) && names == texts(email.symbols@)
}

/// The row that stores an email.
pub fn write_email(email: &LoreEmailInfo) -> (r: Result<LoreRow, String>)
    ensures
        match r {
            Ok(row) => writes_as(*email, row),
            Err(_) => false,
        },
{
    let symbols = match write_name_list(&email.symbols) {
        Ok(symbols) => symbols,
        Err(message) => {
            return Err(message);
        },
    };
    Ok(
        LoreRow {
            git_commit_sha: email.git_commit_sha.clone(),
            from: email.from.clone(),
            date: email.date.clone(),
            date_timestamp: Some(email.date_timestamp),
            message_id: email.message_id.clone(),
            in_reply_to: crate::revision::copy_maybe(&email.in_reply_to),
            subject: email.subject.clone(),
            references: crate::revision::copy_maybe(&email.references),
            recipients: email.recipients.clone(),
            body: email.body.clone(),
            symbols,
        },
    )
}

/// An email reads back as it was written.
pub proof fn emails_read_back(email: LoreEmailInfo, row: LoreRow, read: LoreEmailInfo)
    requires
        writes_as(email, row),
        reads_as(row, read),
    ensures
        read == (LoreEmailInfo { symbols: read.symbols, ..email }),
        texts(read.symbols@) == texts(email.symbols@),
{
}

/// The message id in angle brackets.
pub open spec fn bracketed(message_id: Seq<char>) -> Seq<char> {
    if has_prefix(message_id, "<"@) && has_suffix(message_id, ">"@) {
        message_id
    } else {
        "<"@ + message_id + ">"@
    }
}

/// Selects the email with a message id, which may be given without its angle
/// brackets.
pub fn message_id_filter(message_id: &str) -> (r: String)
    ensures
        r@ == equals("message_id"@, bracketed(message_id@)),
{
    if starts_with(message_id, "<") && ends_with(message_id, ">") {
        return equals_filter("message_id", message_id);
    }
    let mut id = String::from_str("<");
    id.append(message_id);
    id.append(">");
    equals_filter("message_id", id.as_str())
}

/// A message id in brackets is looked up as it is, and one without them as the
/// same id with them.
pub proof fn brackets_are_added_once(message_id: Seq<char>)
    ensures
        bracketed(bracketed(message_id)) == bracketed(message_id),
{
    reveal_strlit("<");
    reveal_strlit(">");
    let b = bracketed(message_id);
    if !(has_prefix(message_id, "<"@) && has_suffix(message_id, ">"@)) {
        assert(b.take(1) =~= "<"@);
        assert(b.skip(b.len() - 1) =~= ">"@);
        assert(has_prefix(b, "<"@));
        assert(has_suffix(b, ">"@));
    }
}

/// A message id as part of a pattern: a backslash is doubled, and then a quote.
pub open spec fn pattern_escaped(message_id: Seq<char>) -> Seq<char> {
    escaped(replaced(message_id, '\\', "\\\\"@))
}

/// Selects the emails that answer an email, and those that refer to it.
pub fn referencing_filters(message_id: &str) -> (r: (String, String))
    ensures
        r.0@ == "in_reply_to = '"@ + pattern_escaped(message_id@) + "'"@,
        r.1@ == "regexp_like(`references`, '"@ + pattern_escaped(message_id@) + "')"@,
{
    let doubled = replace_char(message_id, '\\', "\\\\");
    let id = escape(doubled.as_str());
    let mut first = String::from_str("in_reply_to = '");
    first.append(id.as_str());
    first.append("'");
    let mut second = String::from_str("regexp_like(`references`, '");
    second.append(id.as_str());
    second.append("')");
    (first, second)
}

/// The message ids of some rows.
pub open spec fn ids_of(rows: Seq<LoreRow>) -> Seq<Seq<char>> {
    rows.map_values(|row: LoreRow| row.message_id@)
}

/// The rows of two queries, each message once, at its first place.
pub fn get_lore_emails_referencing(answers: Vec<LoreRow>, referring: Vec<LoreRow>) -> (r: Vec<
    LoreEmailInfo,
>)
    ensures
        all_read_as(
            kept(answers@ + referring@, first_of_key(ids_of(answers@ + referring@))),
            r@,
        ),
{
    let mut rows = answers;
    let mut referring = referring;
    rows.append(&mut referring);
    let ghost ids = ids_of(rows@);
    let mut codes: Vec<String> = Vec::new();
    let mut i: usize = 0;
    assert(texts(codes@) =~= ids.take(0));
    while i < rows.len()
        invariant
            i <= rows@.len(),
            ids == ids_of(rows@),
            texts(codes@) == ids.take(i as int),
        decreases rows@.len() - i,
    {
        let id = rows[i].message_id.clone();
        proof {
            lemma_texts_push(codes@, id);
            assert(ids.take(i + 1) =~= ids.take(i as int).push(id@));
        }
        codes.push(id);
        i += 1;
    }
    assert(ids.take(i as int) =~= ids);
    let flags = first_flags(&codes);
    read_emails(keep_rows(rows, &flags))
}

/// The number of messages that one query asks for.
pub const IDS_PER_QUERY: usize = 500;

/// Selects the emails with some message ids, some at a time.
pub fn message_ids_filters(message_ids: &Vec<String>) -> (r: Vec<(String, usize)>)
    ensures
        r@.len() == chunked(texts(message_ids@), IDS_PER_QUERY as nat).len(),
        forall|i: int|
            0 <= i < r@.len() ==> (#[trigger] r@[i]).0@ == one_of(
                "message_id"@,
                chunked(texts(message_ids@), IDS_PER_QUERY as nat)[i],
                ", "@,
            ) && r@[i].1 == chunked(texts(message_ids@), IDS_PER_QUERY as nat)[i].len(),
{
    let chunks = chunk_texts(message_ids.as_slice(), IDS_PER_QUERY);
    let ghost lists = chunked(texts(message_ids@), IDS_PER_QUERY as nat);
    let mut out: Vec<(String, usize)> = Vec::new();
    let mut i: usize = 0;
    while i < chunks.len()
        invariant
            i <= chunks@.len(),
            texts_of(chunks@) == lists,
            out@.len() == i,
            forall|k: int|
                0 <= k < i ==> (#[trigger] out@[k]).0@ == one_of("message_id"@, lists[k], ", "@)
                    && out@[k].1 == lists[k].len(),
        decreases chunks@.len() - i,
    {
        assert(texts_of(chunks@)[i as int] == texts(chunks@[i as int]@));
        out.push(
            (one_of_filter("message_id", chunks[i].as_slice(), ", "), chunks[i].len()),
        );
        i += 1;
    }
    assert(texts_of(chunks@).len() == chunks@.len());
    out
}

/// Selects the emails of a commit of the archive.
pub fn of_archive_commit_filter(git_sha: &str) -> (r: String)
    ensures
        r@ == equals("git_commit_sha"@, git_sha@),
{
    equals_filter("git_commit_sha", git_sha)
}

} // verus!
