use semcode::commits::{
    commit_filter, commits_chunk_filter, get_all_git_commits, insert_git_commits,
    query_commits_chunk_filtered, read_commit, CommitRow, GitCommitInfo, Tags,
};
use semcode::dates::{date_filter, get_date_timestamp, is_in_range, parse_date_to_timestamp};
use semcode::lore::{
    get_lore_emails_referencing, message_id_filter, message_ids_filters, of_archive_commit_filter,
    read_email, referencing_filters, write_email, LoreEmailInfo, LoreRow,
};
use semcode::lore_insert::{
    filter_existing_lore_ids, places_to_store, rows_to_add, stored_ids_filter, LoreInsertion,
};
use semcode::lore_search::{
    effective_limit, full_text_pattern, matching_emails, messages_to_fetch, patterns_by_field,
    query_lore_by_fields_intersection, subject_filter, LoreHit, LoreSearch, PatternHits,
};
use semcode::names::NameSet;

const DATE: &str = "Tue, 1 Jul 2003 10:52:37 +0200";

fn email(id: &str) -> LoreEmailInfo {
    LoreEmailInfo {
        git_commit_sha: "c0ffee".to_string(),
        from: "A Person <a@example.org>".to_string(),
        date: DATE.to_string(),
        date_timestamp: 1057049557,
        message_id: id.to_string(),
        in_reply_to: Some("<parent@x>".to_string()),
        subject: "[PATCH] fix it".to_string(),
        references: None,
        recipients: "b@example.org".to_string(),
        body: "body".to_string(),
        symbols: vec!["vfs_read".to_string(), "a\"b".to_string()],
    }
}

fn row(id: &str, subject: &str) -> LoreRow {
    LoreRow { subject: subject.to_string(), ..write_email(&email(id)).unwrap() }
}

fn ids(emails: &[LoreEmailInfo]) -> Vec<&str> {
    emails.iter().map(|e| e.message_id.as_str()).collect()
}

#[test]
fn dates_are_read_after_rfc_2822() {
    assert_eq!(parse_date_to_timestamp(DATE), 1057049557);
    assert_eq!(parse_date_to_timestamp("yesterday"), 0);
    assert_eq!(get_date_timestamp(Some(7), DATE), 7);
    assert_eq!(get_date_timestamp(None, DATE), 1057049557);
}

#[test]
fn a_range_of_dates_is_a_filter_where_there_are_timestamps() {
    assert_eq!(
        date_filter(true, Some(DATE), Some("Thu, 1 Jan 1970 00:00:10 +0000")).unwrap(),
        "date_timestamp >= 1057049557 AND date_timestamp <= 10"
    );
    assert_eq!(
        date_filter(true, Some("Wed, 31 Dec 1969 23:59:50 +0000"), None).unwrap(),
        "date_timestamp >= -10"
    );
    assert_eq!(
        date_filter(true, Some("no date"), Some(DATE)).unwrap(),
        "date_timestamp <= 1057049557"
    );
    assert!(date_filter(true, None, Some("no date")).is_none());
    assert!(date_filter(false, Some(DATE), Some(DATE)).is_none());
}

#[test]
fn a_text_that_is_no_date_is_in_no_range() {
    let at = Some((1057049557, 0));
    assert!(is_in_range(DATE, at, at));
    assert!(!is_in_range(DATE, Some((1057049558, 0)), None));
    assert!(!is_in_range(DATE, None, Some((1057049556, 0))));
    assert!(!is_in_range("no date", at, None));
    assert!(is_in_range("no date", None, None));
}

#[test]
fn emails_are_read_back_as_they_were_written() {
    let stored = write_email(&email("<1@x>")).unwrap();
    assert_eq!(stored.symbols, r#"["vfs_read","a\"b"]"#);
    let read = read_email(stored);
    assert_eq!(format!("{read:?}"), format!("{:?}", email("<1@x>")));
}

#[test]
fn an_old_row_takes_its_timestamp_from_its_date() {
    let stored = LoreRow {
        date_timestamp: None,
        symbols: "not a list".to_string(),
        ..row("<1@x>", "s")
    };
    let read = read_email(stored);
    assert_eq!(read.date_timestamp, 1057049557);
    assert!(read.symbols.is_empty());
}

#[test]
fn a_message_id_is_looked_up_in_brackets() {
    assert_eq!(message_id_filter("<a'b@x>"), "message_id = '<a''b@x>'");
    assert_eq!(message_id_filter("a@x"), "message_id = '<a@x>'");
    assert_eq!(message_id_filter("<a@x"), "message_id = '<<a@x>'");
    assert_eq!(of_archive_commit_filter("c'0"), "git_commit_sha = 'c''0'");
}

#[test]
fn references_are_looked_up_as_patterns() {
    let (answers, refers) = referencing_filters(r"<a\.b'c>");
    assert_eq!(answers, r"in_reply_to = '<a\\.b''c>'");
    assert_eq!(refers, r"regexp_like(`references`, '<a\\.b''c>')");
}

#[test]
fn a_message_found_twice_is_one_answer() {
    let answers = vec![row("<1@x>", "first"), row("<2@x>", "s")];
    let refer = vec![row("<1@x>", "second"), row("<3@x>", "s")];
    let found = get_lore_emails_referencing(answers, refer);
    assert_eq!(ids(&found), ["<1@x>", "<2@x>", "<3@x>"]);
    assert_eq!(found[0].subject, "first");
}

#[test]
fn messages_are_fetched_some_at_a_time() {
    let many: Vec<String> = (0..501).map(|i| format!("m{i}")).collect();
    let filters = message_ids_filters(&many);
    assert_eq!(filters.len(), 2);
    assert_eq!(filters[0].1, 500);
    assert_eq!(filters[1], ("message_id IN ('m500')".to_string(), 1));
    let two = message_ids_filters(&vec!["a".to_string(), "b'".to_string()]);
    assert_eq!(two, [("message_id IN ('a', 'b''')".to_string(), 2)]);
    assert!(message_ids_filters(&vec![]).is_empty());
}

#[test]
fn special_characters_are_dropped_for_full_text_search() {
    assert_eq!(full_text_pattern("vfs_read.*(foo|bar)"), "vfs read foo bar");
    assert_eq!(full_text_pattern("a b  c"), "a b  c");
    assert_eq!(full_text_pattern("größe-2"), "größe 2");
    assert_eq!(full_text_pattern(".*"), "");
    assert_eq!(effective_limit(0), 100000);
    assert_eq!(effective_limit(7), 7);
}

#[test]
fn a_search_keeps_what_the_pattern_matches() {
    let rows = vec![row("1", "Fix vfs"), row("2", "add mm"), row("3", "FIX mm"), row("4", "fix x")];
    let found = matching_emails(rows.clone(), "subject", "^fix", 0).unwrap();
    assert_eq!(ids(&found), ["1", "3", "4"]);
    let found = matching_emails(rows.clone(), "subject", "^fix", 2).unwrap();
    assert_eq!(ids(&found), ["1", "3"]);
    let found = matching_emails(rows.clone(), "symbols", "vfs_READ", 1).unwrap();
    assert_eq!(ids(&found), ["1"]);
    assert!(matching_emails(rows.clone(), "unknown", ".", 0).unwrap().is_empty());
    let complaint = matching_emails(rows, "subject", "(", 0).unwrap_err();
    assert!(complaint.contains("unclosed group"), "{complaint}");
}

#[test]
fn a_search_asks_for_more_until_it_has_enough() {
    let mut search = LoreSearch::begin(3);
    assert_eq!((search.target, search.candidates), (3, 30));
    assert!(!search.round(0));
    assert_eq!(search.candidates, 150);
    assert!(!search.round(1));
    assert!(search.round(1));

    let mut enough = LoreSearch::begin(3);
    assert!(enough.round(3));

    let mut unlimited = LoreSearch::begin(0);
    assert_eq!((unlimited.target, unlimited.candidates), (10000, 10000));
    let mut rounds = 1;
    while !unlimited.round(rounds) {
        rounds += 1;
    }
    assert_eq!(rounds, 4);
    assert_eq!(unlimited.candidates, 1250000);
}

#[test]
fn a_search_for_one_email_ends_with_the_ninth_round() {
    // Never enough, and never the same number twice running.
    let mut search = LoreSearch::begin(1);
    search.target = 1000;
    let mut rounds = 1;
    while !search.round(rounds) {
        rounds += 1;
    }
    assert_eq!(rounds, 9);
}

fn hits(pattern: &str, list: &[(&str, &str, &str)]) -> PatternHits {
    PatternHits {
        pattern: pattern.to_string(),
        hits: list
            .iter()
            .map(|(id, text, date)| LoreHit {
                message_id: id.to_string(),
                text: text.to_string(),
                date: date.to_string(),
            })
            .collect(),
    }
}

fn found(fields: Vec<Vec<PatternHits>>, since: Option<&str>) -> Vec<String> {
    let ids = query_lore_by_fields_intersection(&fields, since, None).ok().unwrap();
    messages_to_fetch(&ids, 0)
}

#[test]
fn patterns_of_a_field_are_alternatives_and_fields_all_count() {
    let from = || {
        vec![
            hits("alice", &[("1", "Alice", DATE), ("2", "bob", DATE)]),
            hits("carol", &[("3", "carol", DATE)]),
        ]
    };
    let subject = || vec![hits("fix", &[("1", "Fix", DATE), ("2", "fix", DATE), ("3", "fix", "?")])];
    assert_eq!(found(vec![from()], None), ["1", "3"]);
    assert_eq!(found(vec![from(), vec![], subject()], None), ["1", "3"]);
    assert_eq!(found(vec![from(), subject()], Some(DATE)), ["1"]);
    assert!(found(vec![], None).is_empty());
    assert!(found(vec![vec![], vec![]], None).is_empty());
    let broken = vec![vec![hits("a", &[])], vec![hits("(", &[])]];
    assert!(query_lore_by_fields_intersection(&broken, None, None).is_err());
}

#[test]
fn a_limit_holds_for_the_messages_that_are_fetched() {
    let mut ids = NameSet::new();
    for id in ["a", "b", "c"] {
        ids.insert(id);
    }
    assert_eq!(messages_to_fetch(&ids, 2), ["a", "b"]);
    assert_eq!(messages_to_fetch(&ids, 9), ["a", "b", "c"]);
}

#[test]
fn conditions_are_put_under_their_fields() {
    let pair = |f: &str, p: &str| (f.to_string(), p.to_string());
    let by_field = patterns_by_field(&vec![
        pair("from", "a"),
        pair("body", "b"),
        pair("from", "c"),
        pair("elsewhere", "d"),
    ]);
    assert_eq!(by_field.from, ["a", "c"]);
    assert_eq!(by_field.body, ["b"]);
    assert!(by_field.subject.is_empty() && by_field.recipients.is_empty());
}

#[test]
fn a_subject_is_searched_as_it_is() {
    assert_eq!(subject_filter("it's", true, None, None), "subject LIKE '%it''s%'");
    assert_eq!(
        subject_filter("x", true, Some(DATE), Some(DATE)),
        "subject LIKE '%x%' AND date_timestamp >= 1057049557 AND date_timestamp <= 1057049557"
    );
    assert_eq!(subject_filter("x", false, Some(DATE), None), "subject LIKE '%x%'");
}

#[test]
fn each_message_is_stored_at_its_last_place() {
    let emails = vec![email("a"), email("b"), email("a"), email("c")];
    let places = places_to_store(&emails);
    assert_eq!(places, [1, 2, 3]);
    assert_eq!(
        stored_ids_filter(&emails, &places),
        "message_id IN ('b', 'a', 'c')"
    );
    let mut existing = NameSet::new();
    existing.insert("a");
    let new = filter_existing_lore_ids(&emails, &places, &existing);
    assert_eq!(new, [1, 3]);
    let rows = rows_to_add(&emails, &new).unwrap();
    assert_eq!(rows.len(), 2);
    assert_eq!(rows[1].message_id, "c");
}

#[test]
fn a_refused_batch_is_tried_in_pieces_and_no_email_is_lost() {
    // Emails 130 and 140 cannot be stored.
    let indices: Vec<usize> = (0..300).collect();
    let mut insertion = LoreInsertion::begin(indices.clone());
    let mut stored: Vec<usize> = Vec::new();
    let mut sizes: Vec<usize> = Vec::new();
    while let Some(batch) = insertion.next_batch() {
        sizes.push(batch.len());
        let added = !batch.contains(&130) && !batch.contains(&140);
        if added {
            stored.extend(batch);
        }
        insertion.record(added);
    }
    assert_eq!(&sizes[..3], [300, 128, 128]);
    assert_eq!(sizes.len(), 3 + 128 + 1);
    assert_eq!(sizes[sizes.len() - 1], 44);
    let failed = insertion.into_failed();
    assert_eq!(failed, [130, 140]);
    let mut all: Vec<usize> = stored.into_iter().chain(failed).collect();
    all.sort_unstable();
    assert_eq!(all, indices);
}

#[test]
fn an_accepted_batch_is_not_tried_again() {
    let mut insertion = LoreInsertion::begin(vec![4, 7]);
    assert_eq!(insertion.next_batch().unwrap(), [4, 7]);
    insertion.record(true);
    assert!(insertion.next_batch().is_none());
    assert!(insertion.into_failed().is_empty());
    assert!(LoreInsertion::begin(vec![]).next_batch().is_none());
}

fn commit(message: &str, diff: &str, symbols: &[&str]) -> GitCommitInfo {
    GitCommitInfo {
        git_sha: "abc".to_string(),
        parent_sha: vec!["p1".to_string(), "p2".to_string()],
        author: "A".to_string(),
        subject: "s".to_string(),
        message: message.to_string(),
        tags: Tags::read(r#"{"Cc":["b"]}"#.to_string()).unwrap(),
        diff: diff.to_string(),
        symbols: symbols.iter().map(|s| s.to_string()).collect(),
        files: vec!["fs/read_write.c".to_string()],
    }
}

#[test]
fn commits_are_read_back_as_they_were_stored() {
    let rows = insert_git_commits(vec![commit("m", "d", &["x"])]).unwrap();
    assert_eq!(rows[0].parent_sha, r#"["p1","p2"]"#);
    let read = get_all_git_commits(rows.clone()).unwrap();
    assert_eq!(format!("{:?}", read[0]), format!("{:?}", commit("m", "d", &["x"])));

    let broken = CommitRow { files: "?".to_string(), ..rows[0].clone() };
    assert!(read_commit(broken.clone()).is_err());
    assert!(get_all_git_commits(vec![rows[0].clone(), broken]).is_err());
    let worse = CommitRow {
        parent_sha: "[".to_string(),
        symbols: "true".to_string(),
        ..rows[0].clone()
    };
    assert!(read_commit(worse).unwrap_err().contains("EOF"));
}

#[test]
fn tags_of_a_commit_are_a_json_object() {
    let row = insert_git_commits(vec![commit("m", "d", &["x"])]).unwrap().remove(0);
    assert_eq!(row.tags, r#"{"Cc":["b"]}"#);
    let tagged = |tags: &str| CommitRow { tags: tags.to_string(), ..row.clone() };
    assert_eq!(read_commit(tagged("{ }")).unwrap().tags.into_json(), "{ }");

    let no_json = read_commit(tagged("Cc: b")).unwrap_err();
    assert!(no_json.starts_with("expected value"), "{no_json}");
    let no_object = read_commit(tagged("[]")).unwrap_err();
    assert!(no_object.contains("expected a map"), "{no_object}");
    assert!(read_commit(tagged("")).unwrap_err().contains("EOF"));
    assert!(get_all_git_commits(vec![row.clone(), tagged("[]")]).is_err());

    // The parents are read before the tags, and the tags before the symbols.
    let parents = CommitRow { parent_sha: "?".to_string(), ..tagged("[]") };
    assert!(!read_commit(parents).unwrap_err().contains("a map"));
    let symbols = CommitRow { symbols: "?".to_string(), files: "?".to_string(), ..tagged("[]") };
    assert!(read_commit(symbols).unwrap_err().contains("a map"));
}

#[test]
fn every_pattern_has_to_be_found_in_a_commit() {
    let commits = vec![
        commit("Fix vfs", "+ kmalloc()", &["vfs_read"]),
        commit("fix mm", "- kfree()", &["mm_init", "vfs_write"]),
        commit("other", "nothing", &[]),
    ];
    let kept = |patterns: &[&str], symbols: &[&str]| -> Vec<String> {
        let patterns: Vec<String> = patterns.iter().map(|p| p.to_string()).collect();
        let symbols: Vec<String> = symbols.iter().map(|p| p.to_string()).collect();
        query_commits_chunk_filtered(commits.clone(), &patterns, &symbols)
            .into_iter()
            .map(|c| c.message)
            .collect()
    };
    assert_eq!(kept(&["fix"], &[]), ["Fix vfs", "fix mm"]);
    assert_eq!(kept(&["fix", "KMALLOC"], &[]), ["Fix vfs"]);
    assert_eq!(kept(&[], &["^vfs_"]), ["Fix vfs", "fix mm"]);
    assert_eq!(kept(&[], &["^vfs_", "^mm_"]), ["fix mm"]);
    assert_eq!(kept(&["("], &["["]).len(), 3);
    assert_eq!(kept(&["(", "other"], &[]), ["other"]);
}

#[test]
fn commits_are_selected_by_hash() {
    assert_eq!(commit_filter("a'b"), "git_sha = 'a''b'");
    assert_eq!(
        commits_chunk_filter(&["a".to_string(), "b".to_string()]),
        "git_sha IN ('a', 'b')"
    );
}
