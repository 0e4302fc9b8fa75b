//! How many functions and types refer to a name.
use vstd::prelude::*;
use crate::call_rows::{at_manifest, has_text, in_manifest};
use crate::dates::{signed_decimal, signed_decimal_of};
use crate::json::{call_list_complaint, json_names, parse_call_list, parse_type_list};
use crate::names::{distinct, distinct_names, NameMap, NameSet};
use crate::text::{decimal, lemma_decimal_has_no_colon, lemma_decimals_differ};
use crate::text::{lemma_contains_push, lemma_texts_push, texts};

verus! {

/// A stored function or type, with what it calls and the types it refers to, both
/// in JSON.
#[derive(Debug, Clone)]
pub struct ReferenceRow {
    pub name: String,
    pub file_path: String,
    pub git_file_hash: String,
    pub line: i64,
    pub calls: Option<String>,
    pub types: Option<String>,
}

/// Selects the functions that may refer to what is asked for.
pub fn relationship_filter(asks_for_functions: bool, asks_for_types: bool) -> (r: Option<
    &'static str,
>)
    ensures
        match r {
            Some(filter) => filter@ == (if asks_for_functions && asks_for_types {
                "calls IS NOT NULL OR types IS NOT NULL"@
            } else if asks_for_functions {
                "calls IS NOT NULL"@
            } else {
                "types IS NOT NULL"@
            }) && (asks_for_functions || asks_for_types),
            None => !asks_for_functions && !asks_for_types,
        },
{
    match (asks_for_functions, asks_for_types) {
        (true, true) => Some("calls IS NOT NULL OR types IS NOT NULL"),
        (true, false) => Some("calls IS NOT NULL"),
        (false, true) => Some("types IS NOT NULL"),
        (false, false) => None,
    }
}

/// The text that tells one function or type from another.
pub open spec fn identity(
    kind: Seq<char>,
    path: Seq<char>,
    line: int,
    name: Seq<char>,
) -> Seq<char> {
    kind + ":"@ + path + ":"@ + signed_decimal(line) + ":"@ + name
}

fn identity_of(kind: &str, row: &ReferenceRow) -> (r: String)
    ensures
        r@ == identity(kind@, row.file_path@, row.line as int, row.name@),
{
    let mut out = String::from_str(kind);
    out.append(":");
    out.append(row.file_path.as_str());
    out.append(":");
    out.append(signed_decimal_of(row.line).as_str());
    out.append(":");
    out.append(row.name.as_str());
    out
}

/// Whether a row speaks for the revision: its file has that content there, and
/// the working tree did not change or delete it.
pub open spec fn speaks(
    row: ReferenceRow,
    manifest: Map<Seq<char>, String>,
    hidden: Set<Seq<char>>,
) -> bool {
    !hidden.contains(row.file_path@) && at_manifest(row.file_path@, row.git_file_hash@, manifest)
}

fn row_speaks(row: &ReferenceRow, manifest: &NameMap<String>, hidden: &NameSet) -> (r: bool)
    requires
        manifest.wf(),
        hidden.wf(),
    ensures
        r == speaks(*row, manifest@, hidden@),
{
    !hidden.contains(row.file_path.as_str()) && in_manifest(
        row.file_path.as_str(),
        row.git_file_hash.as_str(),
        manifest,
    )
}

/// The names of a stored list; none where it is null or no list.
pub open spec fn listed(list: Option<String>) -> Seq<Seq<char>> {
    match list {
        Some(json) => match json_names(json@) {
            Ok(names) => names,
            Err(_) => Seq::empty(),
        },
        None => Seq::empty(),
    }
}

/// What is wrong with a stored list of calls, if anything is.
pub open spec fn list_complaint(list: Option<String>) -> Option<Seq<char>> {
    match list {
        Some(json) => match json_names(json@) {
            Ok(_) => None,
            Err(complaint) => Some(call_list_complaint(complaint, json@)),
        },
        None => None,
    }
}

/// What is wrong with the calls of the first row that speaks and whose list of
/// calls is no list.
pub open spec fn reference_complaint(
    rows: Seq<ReferenceRow>,
    manifest: Map<Seq<char>, String>,
    hidden: Set<Seq<char>>,
) -> Option<Seq<char>>
    decreases rows.len(),
{
    if rows.len() == 0 {
        None
    } else {
        let before = reference_complaint(rows.drop_last(), manifest, hidden);
        if before is Some {
            before
        } else if speaks(rows.last(), manifest, hidden) {
            list_complaint(rows.last().calls)
        } else {
            None
        }
    }
}

proof fn lemma_complaint_stays(
    rows: Seq<ReferenceRow>,
    manifest: Map<Seq<char>, String>,
    hidden: Set<Seq<char>>,
    i: int,
)
    requires
        0 <= i <= rows.len(),
        reference_complaint(rows.take(i), manifest, hidden) is Some,
    ensures
        reference_complaint(rows, manifest, hidden) == reference_complaint(
            rows.take(i),
            manifest,
            hidden,
        ),
    decreases rows.len(),
{
    if i == rows.len() {
        assert(rows.take(i) =~= rows);
    } else {
        assert(rows.drop_last().take(i) =~= rows.take(i));
        lemma_complaint_stays(rows.drop_last(), manifest, hidden, i);
    }
}

/// Something that refers to names: what tells it apart, and the names.
pub struct Referrer {
    pub identity: String,
    pub names: Vec<String>,
}

/// The two parts of a referrer.
pub open spec fn referrer_view(r: Referrer) -> (Seq<char>, Seq<Seq<char>>) {
    (r.identity@, texts(r.names@))
}

/// The referrers of a list.
pub open spec fn referrer_views(list: Seq<Referrer>) -> Seq<(Seq<char>, Seq<Seq<char>>)> {
    list.map_values(|r: Referrer| referrer_view(r))
}

/// The rows that speak, with what each calls or the types it refers to.
pub open spec fn referrers(
    rows: Seq<ReferenceRow>,
    kind: Seq<char>,
    by_calls: bool,
    manifest: Map<Seq<char>, String>,
    hidden: Set<Seq<char>>,
) -> Seq<(Seq<char>, Seq<Seq<char>>)>
    decreases rows.len(),
{
    if rows.len() == 0 {
        Seq::empty()
    } else {
        let before = referrers(rows.drop_last(), kind, by_calls, manifest, hidden);
        let row = rows.last();
        if speaks(row, manifest, hidden) {
            before.push(
                (
                    identity(kind, row.file_path@, row.line as int, row.name@),
                    listed(
                        if by_calls {
                            row.calls
                        } else {
                            row.types
                        },
                    ),
                ),
            )
        } else {
            before
        }
    }
}

fn no_names() -> (r: Vec<String>)
    ensures
        texts(r@) == Seq::<Seq<char>>::empty(),
{
    let none: Vec<String> = Vec::new();
    assert(texts(none@) =~= Seq::empty());
    none
}

/// Reads what the rows that speak call.
fn read_calls(
    rows: &Vec<ReferenceRow>,
    kind: &str,
    manifest: &NameMap<String>,
    hidden: &NameSet,
) -> (r: Result<Vec<Referrer>, String>)
    requires
        manifest.wf(),
        hidden.wf(),
    ensures
        match r {
            Ok(list) => reference_complaint(rows@, manifest@, hidden@) is None && referrer_views(
                list@,
            ) == referrers(rows@, kind@, true, manifest@, hidden@),
            Err(message) => reference_complaint(rows@, manifest@, hidden@) == Some(message@),
        },
{
    let mut out: Vec<Referrer> = Vec::new();
    let mut i: usize = 0;
    assert(rows@.take(0) =~= Seq::empty());
    assert(referrer_views(out@) =~= Seq::empty());
    while i < rows.len()
        invariant
            i <= rows@.len(),
            manifest.wf(),
            hidden.wf(),
            reference_complaint(rows@.take(i as int), manifest@, hidden@) is None,
            referrer_views(out@) == referrers(
                rows@.take(i as int),
                kind@,
                true,
                manifest@,
                hidden@,
            ),
        decreases rows@.len() - i,
    {
        proof {
            assert(rows@.take(i + 1).drop_last() =~= rows@.take(i as int));
            assert(rows@.take(i + 1).last() == rows@[i as int]);
        }
        if row_speaks(&rows[i], manifest, hidden) {
            let names = match &rows[i].calls {
                Some(json) => match parse_call_list(json.as_str()) {
                    Ok(names) => names,
                    Err(message) => {
                        proof {
                            lemma_complaint_stays(rows@, manifest@, hidden@, i + 1);
                        }
                        return Err(message);
                    },
                },
                None => no_names(),
            };
            let one = Referrer { identity: identity_of(kind, &rows[i]), names };
            assert(referrer_views(out@.push(one)) =~= referrer_views(out@).push(
                referrer_view(one),
            ));
            out.push(one);
        }
        i += 1;
    }
    assert(rows@.take(i as int) =~= rows@);
    Ok(out)
}

/// Reads the types that the rows that speak refer to; a list that cannot be read
/// refers to none.
fn read_types(
    rows: &Vec<ReferenceRow>,
    kind: &str,
    manifest: &NameMap<String>,
    hidden: &NameSet,
) -> (r: Vec<Referrer>)
    requires
        manifest.wf(),
        hidden.wf(),
    ensures
        referrer_views(r@) == referrers(rows@, kind@, false, manifest@, hidden@),
{
    let mut out: Vec<Referrer> = Vec::new();
    let mut i: usize = 0;
    assert(rows@.take(0) =~= Seq::empty());
    assert(referrer_views(out@) =~= Seq::empty());
    while i < rows.len()
        invariant
            i <= rows@.len(),
            manifest.wf(),
            hidden.wf(),
            referrer_views(out@) == referrers(
                rows@.take(i as int),
                kind@,
                false,
                manifest@,
                hidden@,
            ),
        decreases rows@.len() - i,
    {
        proof {
            assert(rows@.take(i + 1).drop_last() =~= rows@.take(i as int));
            assert(rows@.take(i + 1).last() == rows@[i as int]);
        }
        if row_speaks(&rows[i], manifest, hidden) {
            let names = match &rows[i].types {
                Some(json) => match parse_type_list(json.as_str()) {
                    Some(names) => names,
                    None => no_names(),
                },
                None => no_names(),
            };
            let one = Referrer { identity: identity_of(kind, &rows[i]), names };
            assert(referrer_views(out@.push(one)) =~= referrer_views(out@).push(
                referrer_view(one),
            ));
            out.push(one);
        }
        i += 1;
    }
    assert(rows@.take(i as int) =~= rows@);
    out
}

/// What refers to a name, in order.
pub open spec fn referring(list: Seq<(Seq<char>, Seq<Seq<char>>)>, name: Seq<char>) -> Seq<
    Seq<char>,
>
    decreases list.len(),
{
    if list.len() == 0 {
        Seq::empty()
    } else {
        let before = referring(list.drop_last(), name);
        if list.last().1.contains(name) {
            before.push(list.last().0)
        } else {
            before
        }
    }
}

/// How many different things refer to a name.
pub open spec fn reference_count(list: Seq<(Seq<char>, Seq<Seq<char>>)>, name: Seq<char>) -> nat {
    distinct(referring(list, name)).len()
}

proof fn lemma_distinct_is_no_longer(list: Seq<Seq<char>>)
    ensures
        distinct(list).len() <= list.len(),
    decreases list.len(),
{
    if list.len() > 0 {
        lemma_distinct_is_no_longer(list.drop_last());
    }
}

fn count_references(list: &Vec<Referrer>, name: &str) -> (r: usize)
    ensures
        r == reference_count(referrer_views(list@), name@),
        r <= list@.len(),
{
    let ghost all = referrer_views(list@);
    let mut found: Vec<String> = Vec::new();
    let mut i: usize = 0;
    assert(all.take(0) =~= Seq::empty());
    assert(texts(found@) =~= Seq::empty());
    while i < list.len()
        invariant
            i <= list@.len(),
            all == referrer_views(list@),
            found@.len() <= i,
            texts(found@) == referring(all.take(i as int), name@),
        decreases list@.len() - i,
    {
        proof {
            assert(all.take(i + 1).drop_last() =~= all.take(i as int));
            assert(all.take(i + 1).last() == referrer_view(list@[i as int]));
        }
        if has_text(&list[i].names, name) {
            let copy = list[i].identity.clone();
            proof {
                lemma_texts_push(found@, copy);
            }
            found.push(copy);
        }
        i += 1;
    }
    assert(all.take(i as int) =~= all);
    proof {
        lemma_distinct_is_no_longer(texts(found@));
    }
    let different = distinct_names(found);
    assert(texts(different@).len() == different@.len());
    different.len()
}

/// The count that the working tree adds under a name.
pub open spec fn added(counts: Map<Seq<char>, usize>, name: Seq<char>) -> int {
    if counts.contains_key(name) {
        counts[name] as int
    } else {
        0
    }
}

/// Counts what refers to each of some names, in what is stored and in the working
/// tree.
fn count_all(list: &Vec<Referrer>, names: &Vec<String>, overlay: &NameMap<usize>) -> (r: NameMap<
    usize,
>)
    requires
        overlay.wf(),
        forall|name: Seq<char>| #[trigger]
            overlay@.contains_key(name) ==> overlay@[name] + list@.len() <= usize::MAX,
    ensures
        r.wf(),
        forall|name: Seq<char>| #[trigger]
            r@.contains_key(name) <==> texts(names@).contains(name),
        forall|name: Seq<char>| #[trigger]
            r@.contains_key(name) ==> r@[name] == reference_count(referrer_views(list@), name)
                + added(overlay@, name),
{
    let ghost all = texts(names@);
    let mut out: NameMap<usize> = NameMap::new();
    let mut i: usize = 0;
    while i < names.len()
        invariant
            i <= names@.len(),
            all == texts(names@),
            overlay.wf(),
            out.wf(),
            forall|name: Seq<char>| #[trigger]
                overlay@.contains_key(name) ==> overlay@[name] + list@.len() <= usize::MAX,
            forall|name: Seq<char>| #[trigger]
                out@.contains_key(name) <==> all.take(i as int).contains(name),
            forall|name: Seq<char>| #[trigger]
                out@.contains_key(name) ==> out@[name] == reference_count(
                    referrer_views(list@),
                    name,
                ) + added(overlay@, name),
        decreases names@.len() - i,
    {
        let ghost had = out@;
        let found: usize = count_references(list, names[i].as_str());
        let more: usize = match overlay.get(names[i].as_str()) {
            Some(count) => *count,
            None => 0,
        };
        let total: usize = found + more;
        out.insert(names[i].clone(), total);
        proof {
            assert(all.take(i + 1) =~= all.take(i as int).push(all[i as int]));
            assert forall|name: Seq<char>| #[trigger]
                out@.contains_key(name) <==> all.take(i + 1).contains(name) by {
                lemma_contains_push(all.take(i as int), all[i as int], name);
                assert(had.contains_key(name) <==> all.take(i as int).contains(name));
            }
            assert forall|name: Seq<char>| #[trigger] out@.contains_key(name) implies out@[name]
                == reference_count(referrer_views(list@), name) + added(overlay@, name) by {
                if name != all[i as int] {
                    assert(had.contains_key(name));
                }
            }
        }
        i += 1;
    }
    assert(all.take(i as int) =~= all);
    out
}

/// What refers to types: functions, and then types.
pub open spec fn type_referrers(
    functions: Seq<ReferenceRow>,
    types: Seq<ReferenceRow>,
    manifest: Map<Seq<char>, String>,
    hidden: Set<Seq<char>>,
) -> Seq<(Seq<char>, Seq<Seq<char>>)> {
    referrers(functions, "function"@, false, manifest, hidden) + referrers(
        types,
        "type"@,
        false,
        manifest,
        hidden,
    )
}

/// Whether counts are those of the distinct referrers of some names, with what
/// the working tree adds.
pub open spec fn counts_references(
    counts: Map<Seq<char>, usize>,
    names: Seq<Seq<char>>,
    list: Seq<(Seq<char>, Seq<Seq<char>>)>,
    overlay: Map<Seq<char>, usize>,
) -> bool {
    &&& forall|name: Seq<char>| #[trigger] counts.contains_key(name) <==> names.contains(name)
    &&& forall|name: Seq<char>| #[trigger]
        counts.contains_key(name) ==> counts[name] == reference_count(list, name) + added(
            overlay,
            name,
        )
}

/// Count distinct current-commit entities that call functions or reference types.
/// Embedded relationship arrays are deduplicated during indexing, so these are
/// referrer counts rather than raw source occurrence counts.
pub fn get_distinct_reference_counts_git_aware(
    functions: &Vec<ReferenceRow>,
    types: &Vec<ReferenceRow>,
    function_names: &Vec<String>,
    type_names: &Vec<String>,
    manifest: &NameMap<String>,
    hidden: &NameSet,
    overlay_functions: &NameMap<usize>,
    overlay_types: &NameMap<usize>,
) -> (r: Result<(NameMap<usize>, NameMap<usize>), String>)
    requires
        manifest.wf(),
        hidden.wf(),
        overlay_functions.wf(),
        overlay_types.wf(),
        functions@.len() + types@.len() <= usize::MAX,
        forall|name: Seq<char>| #[trigger]
            overlay_functions@.contains_key(name) ==> overlay_functions@[name] + functions@.len()
                <= usize::MAX,
        forall|name: Seq<char>| #[trigger]
            overlay_types@.contains_key(name) ==> overlay_types@[name] + functions@.len()
                + types@.len() <= usize::MAX,
    ensures
        match r {
            Ok((function_counts, type_counts)) => {
                &&& function_names@.len() > 0 || type_names@.len() > 0 ==> reference_complaint(
                    functions@,
                    manifest@,
                    hidden@,
                ) is None
                &&& function_counts.wf() && type_counts.wf()
                &&& counts_references(
                    function_counts@,
                    texts(function_names@),
                    referrers(functions@, "function"@, true, manifest@, hidden@),
                    overlay_functions@,
                )
                &&& counts_references(
                    type_counts@,
                    texts(type_names@),
                    type_referrers(functions@, types@, manifest@, hidden@),
                    overlay_types@,
                )
            },
            Err(message) => (function_names@.len() > 0 || type_names@.len() > 0)
                && reference_complaint(functions@, manifest@, hidden@) == Some(message@),
        },
{
    if function_names.len() == 0 && type_names.len() == 0 {
        assert(texts(function_names@) =~= Seq::empty());
        assert(texts(type_names@) =~= Seq::empty());
        return Ok((NameMap::new(), NameMap::new()));
    }
    let calling = match read_calls(functions, "function", manifest, hidden) {
        Ok(calling) => calling,
        Err(message) => {
            return Err(message);
        },
    };
    let mut using = read_types(functions, "function", manifest, hidden);
    let mut more = read_types(types, "type", manifest, hidden);
    proof {
        lemma_referrers_are_no_longer(functions@, "function"@, true, manifest@, hidden@);
        lemma_referrers_are_no_longer(functions@, "function"@, false, manifest@, hidden@);
        lemma_referrers_are_no_longer(types@, "type"@, false, manifest@, hidden@);
        assert(referrer_views(calling@).len() == calling@.len());
        assert(referrer_views(using@).len() == using@.len());
        assert(referrer_views(more@).len() == more@.len());
        assert(referrer_views(using@ + more@) =~= referrer_views(using@) + referrer_views(more@));
    }
    using.append(&mut more);
    let function_counts = count_all(&calling, function_names, overlay_functions);
    let type_counts = count_all(&using, type_names, overlay_types);
    Ok((function_counts, type_counts))
}

proof fn lemma_referrers_are_no_longer(
    rows: Seq<ReferenceRow>,
    kind: Seq<char>,
    by_calls: bool,
    manifest: Map<Seq<char>, String>,
    hidden: Set<Seq<char>>,
)
    ensures
        referrers(rows, kind, by_calls, manifest, hidden).len() <= rows.len(),
    decreases rows.len(),
{
    if rows.len() > 0 {
        lemma_referrers_are_no_longer(rows.drop_last(), kind, by_calls, manifest, hidden);
    }
}

proof fn lemma_signed_decimals_differ(a: int, b: int)
    requires
        signed_decimal(a) == signed_decimal(b),
    ensures
        a == b,
{
    reveal_strlit("-");
    let a_size: nat = if a < 0 {
        (-a) as nat
    } else {
        a as nat
    };
    let b_size: nat = if b < 0 {
        (-b) as nat
    } else {
        b as nat
    };
    lemma_decimal_has_no_colon(a_size);
    lemma_decimal_has_no_colon(b_size);
    if a < 0 && b < 0 {
        assert(signed_decimal(a).skip(1) =~= decimal(a_size));
        assert(signed_decimal(b).skip(1) =~= decimal(b_size));
        lemma_decimals_differ(a_size, b_size);
    } else if a < 0 {
        assert(signed_decimal(a)[0] == '-');
        assert(decimal(b_size)[0] == '-');
    } else if b < 0 {
        assert(signed_decimal(b)[0] == '-');
        assert(decimal(a_size)[0] == '-');
    } else {
        lemma_decimals_differ(a_size, b_size);
    }
}

proof fn lemma_signed_decimal_has_no_colon(n: int)
    ensures
        !signed_decimal(n).contains(':'),
{
    reveal_strlit("-");
    let size: nat = if n < 0 {
        (-n) as nat
    } else {
        n as nat
    };
    lemma_decimal_has_no_colon(size);
    assert forall|i: int| 0 <= i < signed_decimal(n).len() implies signed_decimal(n)[i] != ':' by {
        if n < 0 && i > 0 {
            assert(signed_decimal(n)[i] == decimal(size)[i - 1]);
        }
    }
}

proof fn lemma_last_part(a: Seq<char>, x: Seq<char>, b: Seq<char>, y: Seq<char>)
    requires
        a + ":"@ + x == b + ":"@ + y,
        !x.contains(':'),
        !y.contains(':'),
    ensures
        a == b,
        x == y,
{
    reveal_strlit(":");
    let whole = a + ":"@ + x;
    let other = b + ":"@ + y;
    assert(":"@.len() == 1);
    assert(whole.len() == a.len() + 1 + x.len());
    assert(other.len() == b.len() + 1 + y.len());
    assert(whole[a.len() as int] == ':');
    assert(other[b.len() as int] == ':');
    if a.len() < b.len() {
        let k = b.len() - a.len() - 1;
        assert(0 <= k < x.len());
        assert(whole[a.len() as int + 1 + k] == x[k]);
    } else if b.len() < a.len() {
        let k = a.len() - b.len() - 1;
        assert(0 <= k < y.len());
        assert(other[b.len() as int + 1 + k] == y[k]);
    }
    assert(a =~= whole.take(a.len() as int));
    assert(b =~= other.take(a.len() as int));
    assert(x =~= whole.skip(a.len() as int + 1));
    assert(y =~= other.skip(a.len() as int + 1));
}

/// Whether a word says what kind of thing refers to a name.
pub open spec fn referrer_kind(kind: Seq<char>) -> bool {
    kind == "function"@ || kind == "type"@
}

/// Two things with the same identity are the same: of one kind, in one file, on
/// one line, with one name. A name with a colon in it could be taken for the end
/// of a line number.
pub proof fn identities_tell_apart(
    kind: Seq<char>,
    path: Seq<char>,
    line: int,
    name: Seq<char>,
    other_kind: Seq<char>,
    other_path: Seq<char>,
    other_line: int,
    other_name: Seq<char>,
)
    requires
        referrer_kind(kind),
        referrer_kind(other_kind),
        !name.contains(':'),
        !other_name.contains(':'),
        identity(kind, path, line, name) == identity(other_kind, other_path, other_line, other_name),
    ensures
        kind == other_kind,
        path == other_path,
        line == other_line,
        name == other_name,
{
    lemma_last_part(
        kind + ":"@ + path + ":"@ + signed_decimal(line),
        name,
        other_kind + ":"@ + other_path + ":"@ + signed_decimal(other_line),
        other_name,
    );
    lemma_signed_decimal_has_no_colon(line);
    lemma_signed_decimal_has_no_colon(other_line);
    lemma_last_part(
        kind + ":"@ + path,
        signed_decimal(line),
        other_kind + ":"@ + other_path,
        signed_decimal(other_line),
    );
    lemma_signed_decimals_differ(line, other_line);
    reveal_strlit("function");
    reveal_strlit("type");
    reveal_strlit(":");
    let a = kind + ":"@ + path;
    let b = other_kind + ":"@ + other_path;
    assert(a[0] == kind[0] && b[0] == other_kind[0]);
    assert(kind =~= other_kind);
    assert(path =~= a.skip(kind.len() as int + 1));
    assert(other_path =~= b.skip(kind.len() as int + 1));
}

} // verus!
