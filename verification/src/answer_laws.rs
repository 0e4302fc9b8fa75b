//! What the written answers promise: that they show what was found, each thing where
//! it belongs.
use vstd::prelude::*;
use crate::answers::{
    attached, attached_text, callers_text, direct_callers_text, entry_points_text, handed_entries,
    handed_over_text, handed_sites, handover_text, implementor_entries, implementors_text,
    inside_text, listed_text, made_at_text, no_callers_text, registration_entries,
    registrations_text, unknown_function_text, verbose_text, when_text, CallersFound,
    HandedArgument,
};
use crate::callchain::CallNode;
use crate::callchain_text::{
    branch, confident_callers, definition_text, definitions_text, evidence_text, forest_text,
    green_heading, indent_text, indirect_entries_text, indirect_entry_text, indirect_text,
    node_line, number_text, numbered_text, per_definition_text, place_text, tree_text,
};
use crate::chain_answers::{
    all_paths_text, answering, callchain_answer, callees_text, chain_subject_text,
    direct_callees_text, dispatches_text, entries_text, entry_text, indirect_chain_text,
    only_callees, path_lines, paths_from, paths_total, unresolved_text, CalleesFound, ChainFound,
};
use crate::callchain::{CallRelationships, NamePath};
use crate::colors::{
    blue_text, bold_text, cyan_text, green_text, grey_text, magenta_text, red_text, yellow_text,
};
use crate::order::{sorted_set, sorted_set_has_the_same_texts};
use crate::resolution::{Evidence, IndirectCaller};
use crate::text::{decimal, has_part, joined, stands_at, texts};
use crate::types::{CalleeDefinition, FunctionInfo, Registration};

verus! {

proof fn lemma_within(lead: Seq<char>, mid: Seq<char>, tail: Seq<char>, part: Seq<char>)
    requires
        has_part(mid, part),
    ensures
        has_part(lead + mid + tail, part),
        has_part(lead + mid, part),
        has_part(mid + tail, part),
{
    let at = choose|at: int| stands_at(mid, part, at);
    let whole = lead + mid + tail;
    assert(whole.subrange(lead.len() + at, lead.len() + at + part.len()) =~= mid.subrange(
        at,
        at + part.len(),
    ));
    assert(stands_at(whole, part, lead.len() + at));
    let left = lead + mid;
    assert(left.subrange(lead.len() + at, lead.len() + at + part.len()) =~= mid.subrange(
        at,
        at + part.len(),
    ));
    assert(stands_at(left, part, lead.len() + at));
    let right = mid + tail;
    assert(right.subrange(at, at + part.len()) =~= mid.subrange(at, at + part.len()));
    assert(stands_at(right, part, at));
}

proof fn lemma_left(a: Seq<char>, b: Seq<char>, part: Seq<char>)
    requires
        has_part(a, part),
    ensures
        has_part(a + b, part),
{
    lemma_within(Seq::empty(), a, b, part);
}

proof fn lemma_right(a: Seq<char>, b: Seq<char>, part: Seq<char>)
    requires
        has_part(b, part),
    ensures
        has_part(a + b, part),
{
    lemma_within(a, b, Seq::empty(), part);
}

proof fn lemma_grouped(a: Seq<char>, b: Seq<char>, c: Seq<char>, d: Seq<char>)
    ensures
        a + b + c + d == a + (b + c + d),
        a + b + c + d == a + b + (c + d),
{
    assert(a + b + c + d =~= a + (b + c + d));
    assert(a + b + c + d =~= a + b + (c + d));
}

proof fn lemma_itself(part: Seq<char>)
    ensures
        has_part(part, part),
{
    assert(part.subrange(0, part.len() as int) =~= part);
    assert(stands_at(part, part, 0));
}

/// A text set in a color or in bold is shown.
pub proof fn colored_texts_are_shown(s: Seq<char>)
    ensures
        has_part(cyan_text(s), s),
        has_part(yellow_text(s), s),
        has_part(grey_text(s), s),
        has_part(green_text(s), s),
        has_part(red_text(s), s),
        has_part(blue_text(s), s),
        has_part(magenta_text(s), s),
        has_part(bold_text(s), s),
{
    lemma_itself(s);
    lemma_within("\x1b[36m"@, s, "\x1b[39m"@, s);
    lemma_within("\x1b[33m"@, s, "\x1b[39m"@, s);
    lemma_within("\x1b[90m"@, s, "\x1b[39m"@, s);
    lemma_within("\x1b[32m"@, s, "\x1b[39m"@, s);
    lemma_within("\x1b[31m"@, s, "\x1b[39m"@, s);
    lemma_within("\x1b[34m"@, s, "\x1b[39m"@, s);
    lemma_within("\x1b[35m"@, s, "\x1b[39m"@, s);
    lemma_within("\x1b[1m"@, s, "\x1b[0m"@, s);
}

/// The line of an entry of a numbered list.
pub open spec fn entry_line(i: int, name: Seq<char>) -> Seq<char> {
    "  "@ + yellow_text(decimal((i + 1) as nat)) + ". "@ + cyan_text(name)
}

proof fn lemma_listed(names: Seq<Seq<char>>, infos: Seq<Option<FunctionInfo>>, i: int)
    requires
        0 <= i < names.len(),
    ensures
        has_part(listed_text(names, infos), entry_line(i, names[i])),
    decreases names.len(),
{
    let init = names.drop_last();
    let lead = listed_text(init, infos);
    let line = entry_line(names.len() - 1, names.last());
    let info = if names.len() <= infos.len() {
        crate::answers::known_function_text(infos[names.len() - 1])
    } else {
        Seq::empty()
    };
    assert(listed_text(names, infos) =~= lead + line + ("\n"@ + info));
    if i < init.len() {
        lemma_listed(init, infos, i);
        lemma_within(Seq::empty(), lead, line + ("\n"@ + info), entry_line(i, names[i]));
        assert(Seq::<char>::empty() + lead + (line + ("\n"@ + info)) =~= lead + line + ("\n"@
            + info));
    } else {
        lemma_itself(line);
        lemma_within(lead, line, "\n"@ + info, line);
    }
}

/// Every caller is shown under its number, and how many there are is said.
pub proof fn every_caller_is_shown(
    name: Seq<char>,
    verbose: bool,
    git_sha: Seq<char>,
    found: CallersFound,
    known: Map<Seq<char>, String>,
    i: int,
)
    requires
        0 <= i < found.callers@.len(),
    ensures
        has_part(
            callers_text(name, verbose, git_sha, Some(found), known),
            entry_line(i, found.callers@[i]@),
        ),
        has_part(
            callers_text(name, verbose, git_sha, Some(found), known),
            decimal(found.callers@.len()) + " functions directly call '"@ + name + "':\n"@,
        ),
{
    let names = texts(found.callers@);
    assert(names[i] == found.callers@[i]@);
    let infos = if verbose {
        found.caller_infos@
    } else {
        Seq::empty()
    };
    lemma_listed(names, infos, i);
    let head = green_heading("=== Direct Callers ==="@) + (if verbose {
        verbose_text(name, found.func, git_sha)
    } else {
        Seq::empty()
    });
    let count = decimal(found.callers@.len()) + " functions directly call '"@ + name + "':\n"@;
    let list = listed_text(names, infos);
    let direct = direct_callers_text(name, verbose, git_sha, found);
    assert(direct =~= head + count + list);
    lemma_itself(count);
    lemma_within(head, count, list, count);
    lemma_within(head + count, list, Seq::empty(), entry_line(i, names[i]));
    let asked = "Finding all functions that call: "@ + cyan_text(name) + "\n"@;
    let lead = asked + entry_points_text(sorted_set(texts(found.boot_levels@)), known)
        + handed_over_text(found.handed@);
    let tail = indirect_text(found.indirect@);
    assert(callers_text(name, verbose, git_sha, Some(found), known) == lead + direct + tail);
    lemma_within(lead, direct, tail, count);
    lemma_within(lead, direct, tail, entry_line(i, names[i]));
}

proof fn lemma_entry_points(levels: Seq<Seq<char>>, known: Map<Seq<char>, String>, i: int)
    requires
        0 <= i < levels.len(),
    ensures
        has_part(
            entry_points_text(levels, known),
            when_text(levels[i], known) + ", filed as "@ + cyan_text(levels[i]),
        ),
    decreases levels.len(),
{
    let init = levels.drop_last();
    let before = entry_points_text(init, known);
    let lead = before + green_text(bold_text("Entry point:"@)) + " "@;
    let part = when_text(levels.last(), known) + ", filed as "@ + cyan_text(levels.last());
    assert(entry_points_text(levels, known) =~= lead + part + "\n"@);
    if i < init.len() {
        lemma_entry_points(init, known, i);
        let p = when_text(levels[i], known) + ", filed as "@ + cyan_text(levels[i]);
        let rest = green_text(bold_text("Entry point:"@)) + " "@ + part + "\n"@;
        lemma_within(Seq::empty(), before, rest, p);
        assert(before + rest =~= entry_points_text(levels, known));
    } else {
        lemma_itself(part);
        lemma_within(lead, part, "\n"@, part);
    }
}

/// Every level a function is entered at is shown, with when it is walked: as it is
/// known, or at boot.
pub proof fn every_entry_is_shown(
    name: Seq<char>,
    verbose: bool,
    git_sha: Seq<char>,
    found: CallersFound,
    known: Map<Seq<char>, String>,
    i: int,
)
    requires
        0 <= i < found.boot_levels@.len(),
    ensures
        has_part(
            callers_text(name, verbose, git_sha, Some(found), known),
            (if known.contains_key(found.boot_levels@[i]@) {
                known[found.boot_levels@[i]@]@
            } else {
                "runs at boot"@
            }) + ", filed as "@ + cyan_text(found.boot_levels@[i]@),
        ),
{
    let list = texts(found.boot_levels@);
    let level = found.boot_levels@[i]@;
    assert(list[i] == level);
    assert(list.contains(level));
    sorted_set_has_the_same_texts(list);
    let levels = sorted_set(list);
    assert(levels.contains(level));
    let k = choose|k: int| 0 <= k < levels.len() && levels[k] == level;
    lemma_entry_points(levels, known, k);
    let part = when_text(level, known) + ", filed as "@ + cyan_text(level);
    let asked = "Finding all functions that call: "@ + cyan_text(name) + "\n"@;
    let text = callers_text(name, verbose, git_sha, Some(found), known);
    let direct = if found.callers@.len() > 0 {
        direct_callers_text(name, verbose, git_sha, found)
    } else if found.indirect@.len() == 0 {
        no_callers_text(name, found.boot_levels@.len() > 0, found.handed@.len() > 0)
    } else {
        Seq::empty()
    };
    let rest = handed_over_text(found.handed@) + direct + indirect_text(found.indirect@);
    assert(text =~= asked + entry_points_text(levels, known) + rest);
    lemma_within(asked, entry_points_text(levels, known), rest, part);
}

/// That nothing calls a function is said where nothing does: neither by name nor
/// through a pointer, and it is neither entered nor handed over.
pub proof fn that_nothing_calls_is_said(
    name: Seq<char>,
    verbose: bool,
    git_sha: Seq<char>,
    found: CallersFound,
    known: Map<Seq<char>, String>,
)
    requires
        found.callers@.len() == 0,
        found.indirect@.len() == 0,
    ensures
        found.boot_levels@.len() == 0 && found.handed@.len() == 0 ==> has_part(
            callers_text(name, verbose, git_sha, Some(found), known),
            " No functions call '"@ + name + "'\n"@,
        ),
        found.boot_levels@.len() > 0 ==> has_part(
            callers_text(name, verbose, git_sha, Some(found), known),
            " nothing in the source calls it\n"@,
        ),
        found.boot_levels@.len() == 0 && found.handed@.len() > 0 ==> has_part(
            callers_text(name, verbose, git_sha, Some(found), known),
            " nothing calls '"@ + name + "' by name; follow the handover above\n"@,
        ),
{
    let asked = "Finding all functions that call: "@ + cyan_text(name) + "\n"@;
    let lead = asked + entry_points_text(sorted_set(texts(found.boot_levels@)), known)
        + handed_over_text(found.handed@);
    let tail = indirect_text(found.indirect@);
    let entered = found.boot_levels@.len() > 0;
    let handed = found.handed@.len() > 0;
    let said = no_callers_text(name, entered, handed);
    lemma_no_callers(name, entered, handed);
    let part = if entered {
        " nothing in the source calls it\n"@
    } else if handed {
        " nothing calls '"@ + name + "' by name; follow the handover above\n"@
    } else {
        " No functions call '"@ + name + "'\n"@
    };
    lemma_right(lead, said, part);
    lemma_left(lead + said, tail, part);
}

proof fn lemma_no_callers(name: Seq<char>, entered: bool, handed: bool)
    ensures
        has_part(
            no_callers_text(name, entered, handed),
            if entered {
                " nothing in the source calls it\n"@
            } else if handed {
                " nothing calls '"@ + name + "' by name; follow the handover above\n"@
            } else {
                " No functions call '"@ + name + "'\n"@
            },
        ),
{
    let info = yellow_text("Info:"@);
    let a = " No functions call '"@ + name + "'\n"@;
    let b = " nothing in the source calls it\n"@;
    let c = " nothing calls '"@ + name + "' by name; follow the handover above\n"@;
    if entered {
        lemma_itself(b);
        lemma_right(info, b, b);
    } else if handed {
        lemma_itself(c);
        lemma_right(info, c, c);
        lemma_grouped(
            info,
            " nothing calls '"@,
            name,
            "' by name; follow the handover above\n"@,
        );
    } else {
        lemma_itself(a);
        lemma_right(info, a, a);
        lemma_grouped(info, " No functions call '"@, name, "'\n"@);
    }
}

/// Of a name that is no function's, that is said.
pub proof fn that_there_is_no_function_is_said(
    name: Seq<char>,
    verbose: bool,
    git_sha: Seq<char>,
    known: Map<Seq<char>, String>,
)
    ensures
        has_part(
            callers_text(name, verbose, git_sha, None, known),
            " No function '"@ + name + "' found in database\n"@,
        ),
{
    let asked = "Finding all functions that call: "@ + cyan_text(name) + "\n"@;
    let part = " No function '"@ + name + "' found in database\n"@;
    let error = red_text("Error:"@);
    lemma_itself(part);
    lemma_right(error, part, part);
    lemma_grouped(error, " No function '"@, name, "' found in database\n"@);
    lemma_right(asked, unknown_function_text(name), part);
}

/// The line of a caller through a pointer: its number, its name and where it calls.
pub open spec fn indirect_line(n: int, c: IndirectCaller) -> Seq<char> {
    "  "@ + yellow_text(decimal(n as nat)) + ". "@ + cyan_text(
        if c.caller_name@.len() == 0 {
            "(file scope)"@
        } else {
            c.caller_name@
        },
    ) + " at "@ + (grey_text(c.site_file@) + ":"@ + decimal(c.site_line as nat))
}

/// What is shown of a registration behind a caller: the type and the member it is
/// made in, and its place.
pub open spec fn installed_line(c: IndirectCaller) -> Seq<char> {
    "     installed in "@ + cyan_text(c.evidence->container_type@) + "::"@ + cyan_text(c.member@)
        + " at "@ + (grey_text(c.evidence->registration_file@) + ":"@ + decimal(
        c.evidence->registration_line as nat,
    ))
}

proof fn lemma_indirect_entry(n: nat, c: IndirectCaller)
    ensures
        has_part(indirect_entry_text(n, c), indirect_line(n as int, c)),
        c.evidence is Registered ==> has_part(indirect_entry_text(n, c), installed_line(c)),
        c.evidence is StatedAtSite ==> has_part(
            indirect_entry_text(n, c),
            "names it at the call site"@,
        ),
{
    let line = indirect_line(n as int, c);
    let kind = grey_text(c.site_kind@);
    let evidence = evidence_text(c.member@, c.evidence);
    lemma_itself(line);
    lemma_left(line, " ["@, line);
    lemma_left(line + " ["@, kind, line);
    lemma_left(line + " ["@ + kind, "]\n"@, line);
    let lead = line + " ["@ + kind + "]\n"@;
    lemma_left(lead, evidence, line);
    lemma_evidence(c);
    if c.evidence is Registered {
        lemma_right(lead, evidence, installed_line(c));
    } else {
        lemma_right(lead, evidence, "names it at the call site"@);
    }
}

proof fn lemma_evidence(c: IndirectCaller)
    ensures
        c.evidence is Registered ==> has_part(
            evidence_text(c.member@, c.evidence),
            installed_line(c),
        ),
        c.evidence is StatedAtSite ==> has_part(
            evidence_text(c.member@, c.evidence),
            "names it at the call site"@,
        ),
{
    let evidence = evidence_text(c.member@, c.evidence);
    match c.evidence {
        Evidence::Registered { registration_count, type_matched, .. } => {
            let installed = installed_line(c);
            let others = grey_text(
                if registration_count == 1 {
                    ""@
                } else {
                    " and "@ + decimal((registration_count - 1) as nat) + " other places"@
                },
            );
            let why = grey_text(
                if type_matched {
                    "receiver type matches"@
                } else {
                    "member name matches, receiver type unknown"@
                },
            );
            lemma_itself(installed);
            lemma_left(installed, others, installed);
            lemma_left(installed + others, " ("@, installed);
            lemma_left(installed + others + " ("@, why, installed);
            lemma_left(installed + others + " ("@ + why, ")\n"@, installed);
        },
        Evidence::StatedAtSite => {
            let said = "names it at the call site"@;
            reveal_strlit("     names it at the call site\n");
            reveal_strlit("names it at the call site");
            assert(evidence.subrange(5, 5int + said.len()) =~= said);
            assert(stands_at(evidence, said, 5));
        },
    }
}

proof fn lemma_indirect_entries(list: Seq<IndirectCaller>, i: int, part: Seq<char>)
    requires
        0 <= i < list.len(),
        has_part(indirect_entry_text((i + 1) as nat, list[i]), part),
    ensures
        has_part(indirect_entries_text(list), part),
    decreases list.len(),
{
    let init = list.drop_last();
    let before = indirect_entries_text(init);
    let last = indirect_entry_text(list.len(), list.last());
    if i < init.len() {
        lemma_indirect_entries(init, i, part);
        lemma_within(Seq::empty(), before, last, part);
    } else {
        lemma_within(before, last, Seq::empty(), part);
    }
}

/// Every caller through a pointer that names the function, or whose receiver has the
/// type it is installed in, is shown with its evidence.
pub proof fn every_indirect_caller_is_shown(indirect: Seq<IndirectCaller>, c: IndirectCaller)
    requires
        indirect.contains(c),
        c.evidence is StatedAtSite || c.evidence->type_matched,
    ensures
        exists|n: int|
            0 < n <= indirect.len() && has_part(indirect_text(indirect), #[trigger] indirect_line(n, c)),
        c.evidence is Registered ==> has_part(indirect_text(indirect), installed_line(c)),
        c.evidence is StatedAtSite ==> has_part(
            indirect_text(indirect),
            "names it at the call site"@,
        ),
{
    let sure = |c: IndirectCaller| c.evidence.type_matched();
    let list = confident_callers(indirect);
    crate::overlay::lemma_filter_contains(indirect, sure, c);
    assert(list.contains(c));
    indirect.filter_lemma(sure);
    let i = choose|i: int| 0 <= i < list.len() && list[i] == c;
    lemma_indirect_entry((i + 1) as nat, c);
    let entries = indirect_entries_text(list);
    let head = green_heading("=== Indirect Callers ==="@) + (decimal(list.len())
        + " call sites can reach it through a function pointer:\n"@);
    let text = indirect_text(indirect);
    lemma_filter_len(indirect, sure);
    let tail = text.skip((head + entries).len() as int);
    assert(text =~= head + entries + tail);
    lemma_indirect_entries(list, i, indirect_line(i + 1, c));
    lemma_within(head, entries, tail, indirect_line(i + 1, c));
    if c.evidence is Registered {
        lemma_indirect_entries(list, i, installed_line(c));
        lemma_within(head, entries, tail, installed_line(c));
    } else {
        lemma_indirect_entries(list, i, "names it at the call site"@);
        lemma_within(head, entries, tail, "names it at the call site"@);
    }
}

proof fn lemma_filter_len<T>(rows: Seq<T>, wanted: spec_fn(T) -> bool)
    ensures
        rows.filter(wanted).len() <= rows.len(),
    decreases rows.len(),
{
    reveal(Seq::filter);
    if rows.len() > 0 {
        lemma_filter_len(rows.drop_last(), wanted);
    }
}

/// Where something is installed, in a line of its own.
pub open spec fn installed_at(r: Registration) -> Seq<char> {
    " at "@ + (grey_text(r.file_path@) + ":"@ + decimal(r.line as nat))
}

proof fn lemma_made_at(r: Registration)
    ensures
        made_at_text(r) == installed_at(r) + made_at_text(r).skip(installed_at(r).len() as int),
{
    assert(made_at_text(r) =~= installed_at(r) + (grey_text(inside_text(r.enclosing_function@))
        + " ["@ + grey_text(r.kind.text()) + "]\n"@));
}

proof fn lemma_implementors(found: Seq<Registration>, i: int)
    requires
        0 <= i < found.len(),
    ensures
        has_part(
            implementor_entries(found),
            entry_line(i, found[i].target@) + installed_at(found[i]),
        ),
    decreases found.len(),
{
    let init = found.drop_last();
    let before = implementor_entries(init);
    let last = found.last();
    lemma_made_at(last);
    let line = entry_line(found.len() - 1, last.target@) + installed_at(last);
    let rest = made_at_text(last).skip(installed_at(last).len() as int);
    assert(implementor_entries(found) =~= before + line + rest);
    if i < init.len() {
        lemma_implementors(init, i);
        let part = entry_line(i, found[i].target@) + installed_at(found[i]);
        lemma_within(Seq::empty(), before, line + rest, part);
        assert(before + (line + rest) =~= implementor_entries(found));
    } else {
        lemma_itself(line);
        lemma_within(before, line, rest, line);
    }
}

/// Every function installed in a member is shown with its place, and how many there
/// are is said.
pub proof fn every_implementor_is_shown(
    container_type: Seq<char>,
    member: Seq<char>,
    found: Seq<Registration>,
    i: int,
)
    requires
        0 <= i < found.len(),
    ensures
        has_part(
            implementors_text(container_type, member, found),
            entry_line(i, found[i].target@) + installed_at(found[i]),
        ),
        has_part(
            implementors_text(container_type, member, found),
            decimal(found.len()) + " installed:\n"@,
        ),
{
    lemma_implementors(found, i);
    let asked = "Finding functions installed in "@ + cyan_text(container_type) + "::"@ + cyan_text(
        member,
    ) + "\n"@;
    let head = asked + green_heading("=== Implementors ==="@);
    let count = decimal(found.len()) + " installed:\n"@;
    let entries = implementor_entries(found);
    let part = entry_line(i, found[i].target@) + installed_at(found[i]);
    assert(implementors_text(container_type, member, found) =~= head + count + entries);
    lemma_itself(count);
    lemma_within(head, count, entries, count);
    lemma_within(head + count, entries, Seq::empty(), part);
}

/// The line of a registration: its number, the type and member, and its place.
pub open spec fn registration_line(i: int, r: Registration) -> Seq<char> {
    entry_line(i, r.container_type@) + "::"@ + cyan_text(r.member@) + installed_at(r)
}

proof fn lemma_registrations(found: Seq<Registration>, i: int)
    requires
        0 <= i < found.len(),
    ensures
        has_part(registration_entries(found), registration_line(i, found[i])),
    decreases found.len(),
{
    let init = found.drop_last();
    let before = registration_entries(init);
    let last = found.last();
    lemma_made_at(last);
    let line = registration_line(found.len() - 1, last);
    let rest = made_at_text(last).skip(installed_at(last).len() as int);
    assert(registration_entries(found) =~= before + line + rest);
    if i < init.len() {
        lemma_registrations(init, i);
        lemma_within(Seq::empty(), before, line + rest, registration_line(i, found[i]));
        assert(before + (line + rest) =~= registration_entries(found));
    } else {
        lemma_itself(line);
        lemma_within(before, line, rest, line);
    }
}

/// The line of a call that is handed a function: the callee, which argument, and
/// where.
pub open spec fn handed_line(i: int, h: HandedArgument) -> Seq<char> {
    entry_line(i, h.argument.callee@) + "() argument "@ + decimal(
        h.argument.argument_index as nat,
    ) + " at "@ + (grey_text(h.argument.file_path@) + ":"@ + decimal(h.argument.line as nat))
}

proof fn lemma_eight(
    s: Seq<char>,
    a: Seq<char>,
    b: Seq<char>,
    c: Seq<char>,
    d: Seq<char>,
    e: Seq<char>,
    f: Seq<char>,
    g: Seq<char>,
    h: Seq<char>,
)
    ensures
        s + a + b + c + d + e + f + g + h == s + (a + b + c + d + e + f + g + h),
{
    lemma_grouped(s, a, b, c);
    lemma_grouped(s, a + b + c, d, e);
    lemma_grouped(s, a + b + c + d + e, f, g);
    assert(s + (a + b + c + d + e + f + g) + h =~= s + (a + b + c + d + e + f + g + h));
}

proof fn lemma_handed(handed: Seq<HandedArgument>, i: int)
    requires
        0 <= i < handed.len(),
    ensures
        has_part(handed_entries(handed), handed_line(i, handed[i])),
    decreases handed.len(),
{
    let init = handed.drop_last();
    let before = handed_entries(init);
    let h = handed.last();
    let line = handed_line(handed.len() - 1, h);
    lemma_eight(
        before,
        "  "@,
        number_text(handed.len()),
        ". "@,
        cyan_text(h.argument.callee@),
        "() argument "@,
        decimal(h.argument.argument_index as nat),
        " at "@,
        place_text(h.argument.file_path@, h.argument.line),
    );
    let inside = grey_text(inside_text(h.argument.enclosing_function@));
    let part = handed_line(i, handed[i]);
    if i < init.len() {
        lemma_handed(init, i);
        lemma_left(before, line, part);
    } else {
        lemma_itself(line);
        lemma_right(before, line, line);
    }
    lemma_left(before + line, inside, part);
    lemma_left(before + line + inside, "\n"@, part);
    lemma_left(before + line + inside + "\n"@, attached_text(h), part);
    lemma_left(
        before + line + inside + "\n"@ + attached_text(h),
        handover_text(h.handover),
        part,
    );
}

/// Every place that installs a function and every call that is handed it is shown.
pub proof fn every_registration_is_shown(
    name: Seq<char>,
    found: Seq<Registration>,
    handed: Seq<HandedArgument>,
    i: int,
)
    ensures
        0 <= i < found.len() ==> has_part(
            registrations_text(name, found, handed),
            registration_line(i, found[i]),
        ),
        0 <= i < handed.len() ==> has_part(
            registrations_text(name, found, handed),
            handed_line(i, handed[i]),
        ),
{
    let asked = "Finding where "@ + cyan_text(name) + " is installed\n"@;
    let text = registrations_text(name, found, handed);
    let head = asked + (if found.len() == 0 {
        Seq::empty()
    } else {
        green_heading("=== Registrations ==="@) + decimal(found.len()) + " places install it:\n"@
    });
    let entries = registration_entries(found);
    if found.len() > 0 || handed.len() > 0 {
        let tail = if handed.len() == 0 {
            Seq::empty()
        } else {
            green_heading("=== Handed to ==="@) + decimal(handed.len())
                + " calls are handed it as an argument:\n"@ + handed_entries(handed)
        };
        assert(text =~= head + entries + tail);
        if 0 <= i < found.len() {
            lemma_registrations(found, i);
            lemma_within(head, entries, tail, registration_line(i, found[i]));
        }
        if 0 <= i < handed.len() {
            lemma_handed(handed, i);
            let lead = green_heading("=== Handed to ==="@) + decimal(handed.len())
                + " calls are handed it as an argument:\n"@;
            lemma_within(lead, handed_entries(handed), Seq::empty(), handed_line(i, handed[i]));
            lemma_within(head + entries, tail, Seq::empty(), handed_line(i, handed[i]));
        }
    }
}

/// A tree shows its function, and below it the tree of each function it leads to, one
/// level deeper.
pub proof fn a_tree_shows_its_branches(node: CallNode, indent: nat, i: int)
    ensures
        has_part(tree_text(node, indent), yellow_text(node.name@)),
        node.file@.len() > 0 ==> has_part(
            tree_text(node, indent),
            yellow_text(node.name@) + " ("@ + grey_text(node.file@) + ":"@ + decimal(
                node.line as nat,
            ) + ")\n"@,
        ),
        0 <= i < node.children@.len() ==> has_part(
            tree_text(node, indent),
            tree_text(node.children@[i], indent + 1),
        ),
{
    let lead = branch(indent);
    let name = yellow_text(node.name@);
    let line = node_line(lead, node);
    let below = forest_text(node.children@, indent + 1);
    let text = tree_text(node, indent);
    let tail = text.skip((line + below).len() as int);
    assert(text =~= line + below + tail);
    lemma_itself(name);
    let rest = line.skip((lead + name).len() as int);
    assert(line =~= lead + name + rest);
    lemma_within(lead, name, rest, name);
    lemma_within(Seq::empty(), line, below + tail, name);
    assert(line + (below + tail) =~= text);
    if node.file@.len() > 0 {
        let whole = name + " ("@ + grey_text(node.file@) + ":"@ + decimal(node.line as nat)
            + ")\n"@;
        assert(line =~= lead + whole);
        lemma_itself(whole);
        lemma_within(lead, whole, Seq::empty(), whole);
        lemma_within(Seq::empty(), line, below + tail, whole);
    }
    if 0 <= i < node.children@.len() {
        lemma_forest(node.children@, indent + 1, i);
        lemma_within(line, below, tail, tree_text(node.children@[i], indent + 1));
    }
}

proof fn lemma_forest(nodes: Seq<CallNode>, indent: nat, i: int)
    requires
        0 <= i < nodes.len(),
    ensures
        has_part(forest_text(nodes, indent), tree_text(nodes[i], indent)),
    decreases nodes.len(),
{
    let init = nodes.drop_last();
    let before = forest_text(init, indent);
    let last = tree_text(nodes.last(), indent);
    if i < init.len() {
        lemma_forest(init, indent, i);
        lemma_within(Seq::empty(), before, last, tree_text(nodes[i], indent));
    } else {
        lemma_itself(last);
        lemma_within(before, last, Seq::empty(), last);
    }
}

/// A level of a tree is set two columns deeper than the one above it.
pub proof fn levels_are_indented(n: nat)
    ensures
        indent_text(n).len() == 2 * n,
        forall|i: int| 0 <= i < indent_text(n).len() ==> #[trigger] indent_text(n)[i] == ' ',
    decreases n,
{
    reveal_strlit("  ");
    if n > 0 {
        levels_are_indented((n - 1) as nat);
    }
}

/// What a function that has one definition calls is shown, each callee under its
/// number, and how many there are is said.
pub proof fn every_callee_is_shown(
    name: Seq<char>,
    verbose: bool,
    git_sha: Seq<char>,
    found: CalleesFound,
    d: CalleeDefinition,
    i: int,
)
    requires
        answering(found.definitions@) == seq![d],
        0 <= i < d.callees@.len(),
    ensures
        has_part(
            callees_text(name, verbose, git_sha, Some(found)),
            entry_line(i, d.callees@[i]@),
        ),
        has_part(
            callees_text(name, verbose, git_sha, Some(found)),
            "'"@ + name + "' directly calls "@ + decimal(d.callees@.len()) + " functions:\n"@,
        ),
{
    let text = callees_text(name, verbose, git_sha, Some(found));
    let defs = answering(found.definitions@);
    let callees = texts(d.callees@);
    assert(callees.len() == d.callees@.len());
    assert(callees[i] == d.callees@[i]@);
    assert(only_callees(defs) == callees);
    let infos = if verbose {
        found.callee_infos@
    } else {
        Seq::empty()
    };
    lemma_listed(callees, infos, i);
    let direct = direct_callees_text(
        name,
        verbose,
        git_sha,
        found.func,
        callees,
        found.callee_infos@,
    );
    let head = green_heading("=== Direct Callees ==="@) + (if verbose {
        verbose_text(name, found.func, git_sha)
    } else {
        Seq::empty()
    });
    let count = "'"@ + name + "' directly calls "@ + decimal(callees.len()) + " functions:\n"@;
    let list = listed_text(callees, infos);
    assert(direct =~= head + count + list);
    lemma_itself(count);
    lemma_within(head, count, list, count);
    lemma_within(head + count, list, Seq::empty(), entry_line(i, callees[i]));
    let lead = text.take(text.len() - direct.len());
    let known = "Finding all functions called by: "@ + cyan_text(name) + "\n"@ + dispatches_text(
        found.dispatches@,
    ) + unresolved_text(found.unresolved@);
    let rows = found.definitions@.len();
    let note = if rows > defs.len() {
        yellow_text("Note:"@) + " "@ + decimal((rows - defs.len()) as nat) + " of the "@ + decimal(
            rows,
        ) + " rows for '"@ + name + "' declare it without defining it.\n"@
    } else {
        Seq::empty()
    };
    assert(text =~= (known + note) + direct);
    lemma_within(known + note, direct, Seq::empty(), count);
    lemma_within(known + note, direct, Seq::empty(), entry_line(i, callees[i]));
}

/// Of several definitions of a name each is shown, with its place and what it calls.
pub proof fn every_definition_is_shown(
    name: Seq<char>,
    verbose: bool,
    git_sha: Seq<char>,
    found: CalleesFound,
    i: int,
    j: int,
)
    requires
        answering(found.definitions@).len() > 1,
        0 <= i < answering(found.definitions@).len(),
    ensures
        ({
            let d = answering(found.definitions@)[i];
            let text = callees_text(name, verbose, git_sha, Some(found));
            &&& has_part(text, grey_text(d.file_path@) + ":"@ + decimal(d.line_start as nat))
            &&& 0 <= j < d.callees@.len() ==> has_part(
                text,
                "    "@ + yellow_text(decimal((j + 1) as nat)) + ". "@ + cyan_text(
                    d.callees@[j]@,
                ),
            )
        }),
{
    let defs = answering(found.definitions@);
    let d = defs[i];
    let text = callees_text(name, verbose, git_sha, Some(found));
    let known = "Finding all functions called by: "@ + cyan_text(name) + "\n"@ + dispatches_text(
        found.dispatches@,
    ) + unresolved_text(found.unresolved@);
    let per = per_definition_text(name, found.definitions@.len(), defs);
    assert(text == known + per);
    let all = definitions_text(defs);
    let lead = per.take(per.len() - all.len());
    assert(per =~= lead + all);
    let place = grey_text(d.file_path@) + ":"@ + decimal(d.line_start as nat);
    let one = definition_text(d);
    let rest = one.skip(("\n  "@ + place).len() as int);
    assert(one =~= "\n  "@ + place + rest);
    lemma_itself(place);
    lemma_within("\n  "@, place, rest, place);
    lemma_definitions(defs, i, place);
    lemma_within(lead, all, Seq::empty(), place);
    lemma_within(known, per, Seq::empty(), place);
    if 0 <= j < d.callees@.len() {
        let names = texts(d.callees@);
        assert(names.len() == d.callees@.len());
        assert(names[j] == d.callees@[j]@);
        lemma_numbered("    "@, names, j);
        let line = "    "@ + yellow_text(decimal((j + 1) as nat)) + ". "@ + cyan_text(names[j]);
        let list = numbered_text("    "@, names);
        let head = "\n  "@ + place + "\n"@;
        assert(one =~= head + list);
        lemma_within(head, list, Seq::empty(), line);
        lemma_definitions(defs, i, line);
        lemma_within(lead, all, Seq::empty(), line);
        lemma_within(known, per, Seq::empty(), line);
    }
}

proof fn lemma_numbered(lead: Seq<char>, names: Seq<Seq<char>>, j: int)
    requires
        0 <= j < names.len(),
    ensures
        has_part(
            numbered_text(lead, names),
            lead + yellow_text(decimal((j + 1) as nat)) + ". "@ + cyan_text(names[j]),
        ),
    decreases names.len(),
{
    let init = names.drop_last();
    let before = numbered_text(lead, init);
    let line = lead + yellow_text(decimal(names.len())) + ". "@ + cyan_text(names.last());
    assert(numbered_text(lead, names) =~= before + line + "\n"@);
    if j < init.len() {
        lemma_numbered(lead, init, j);
        let part = lead + yellow_text(decimal((j + 1) as nat)) + ". "@ + cyan_text(names[j]);
        lemma_within(Seq::empty(), before, line + "\n"@, part);
        assert(before + (line + "\n"@) =~= numbered_text(lead, names));
    } else {
        lemma_itself(line);
        lemma_within(before, line, "\n"@, line);
    }
}

proof fn lemma_definitions(defs: Seq<CalleeDefinition>, i: int, part: Seq<char>)
    requires
        0 <= i < defs.len(),
        has_part(definition_text(defs[i]), part),
    ensures
        has_part(definitions_text(defs), part),
    decreases defs.len(),
{
    let init = defs.drop_last();
    let before = definitions_text(init);
    let last = definition_text(defs.last());
    if i < init.len() {
        lemma_definitions(init, i, part);
        lemma_within(Seq::empty(), before, last, part);
    } else {
        lemma_within(before, last, Seq::empty(), part);
    }
}

/// The definitions of a name are those of its rows that define it.
pub proof fn declarations_answer_nothing(
    definitions: Seq<CalleeDefinition>,
    d: CalleeDefinition,
)
    ensures
        answering(definitions).contains(d) <==> definitions.contains(d) && d.is_definition,
{
    crate::overlay::lemma_filter_contains(
        definitions,
        |d: CalleeDefinition| d.is_definition,
        d,
    );
}

/// A call chain shows the callers above a function under their heading, and what it
/// calls under theirs.
pub proof fn both_chains_are_shown(name: Seq<char>, found: ChainFound)
    ensures
        found.reverse is Some ==> has_part(
            callchain_answer(name, Some(found)),
            magenta_text(bold_text("=== Reverse Chain (Callers) ==="@)) + "\n"@ + tree_text(
                found.reverse->0,
                0,
            ),
        ),
        found.forward is Some ==> has_part(
            callchain_answer(name, Some(found)),
            blue_text(bold_text("=== Forward Chain (Callees) ==="@)) + "\n"@ + tree_text(
                found.forward->0,
                0,
            ),
        ),
        found.reverse is None && found.forward is None && found.indirect@.len() == 0 ==> has_part(
            callchain_answer(name, Some(found)),
            " This function is isolated (no callers or callees)\n"@,
        ),
{
    let text = callchain_answer(name, Some(found));
    let asked = "Building call chain for: "@ + cyan_text(name) + "\n"@;
    let subject = asked + chain_subject_text(found.func);
    let up = match found.reverse {
        Some(chain) => "\n"@ + magenta_text(bold_text("=== Reverse Chain (Callers) ==="@)) + "\n"@
            + tree_text(chain, 0),
        None => Seq::empty(),
    };
    let aside = indirect_chain_text(found.indirect@, found.aboves@, 2, 10);
    let down = match found.forward {
        Some(chain) => "\n"@ + blue_text(bold_text("=== Forward Chain (Callees) ==="@)) + "\n"@
            + tree_text(chain, 0),
        None => Seq::empty(),
    };
    let last = if found.reverse is None && found.forward is None && found.indirect@.len() == 0 {
        "\n"@ + yellow_text("Info:"@) + " This function is isolated (no callers or callees)\n"@
    } else {
        Seq::empty()
    };
    assert(text == subject + up + aside + down + last);
    if found.reverse is Some {
        let part = magenta_text(bold_text("=== Reverse Chain (Callers) ==="@)) + "\n"@ + tree_text(
            found.reverse->0,
            0,
        );
        assert(up =~= "\n"@ + part);
        lemma_itself(part);
        lemma_within("\n"@, part, Seq::empty(), part);
        lemma_within(subject, up, aside + down + last, part);
        assert(subject + up + (aside + down + last) =~= text);
    }
    if found.forward is Some {
        let part = blue_text(bold_text("=== Forward Chain (Callees) ==="@)) + "\n"@ + tree_text(
            found.forward->0,
            0,
        );
        assert(down =~= "\n"@ + part);
        lemma_itself(part);
        lemma_within("\n"@, part, Seq::empty(), part);
        lemma_within(subject + up + aside, down, last, part);
    }
    if found.reverse is None && found.forward is None && found.indirect@.len() == 0 {
        let part = " This function is isolated (no callers or callees)\n"@;
        let lead = "\n"@ + yellow_text("Info:"@);
        lemma_itself(part);
        lemma_within(lead, part, Seq::empty(), part);
        lemma_within(subject + up + aside + down, last, Seq::empty(), part);
    }
}

/// A path as it is written: the functions with arrows between them.
pub open spec fn written_path(path: NamePath) -> Seq<char> {
    joined(path, " → "@)
}

proof fn lemma_path_lines(paths: Seq<NamePath>, i: int)
    requires
        0 <= i < paths.len(),
    ensures
        has_part(path_lines(paths), entry_line(i, written_path(paths[i]))),
    decreases paths.len(),
{
    let init = paths.drop_last();
    let before = path_lines(init);
    let line = entry_line(paths.len() - 1, written_path(paths.last()));
    assert(path_lines(paths) =~= before + line + "\n"@);
    if i < init.len() {
        lemma_path_lines(init, i);
        lemma_within(Seq::empty(), before, line + "\n"@, entry_line(i, written_path(paths[i])));
        assert(before + (line + "\n"@) =~= path_lines(paths));
    } else {
        lemma_itself(line);
        lemma_within(before, line, "\n"@, line);
    }
}

proof fn lemma_entries(
    functions: Map<Seq<char>, Vec<FunctionInfo>>,
    calls: CallRelationships,
    entries: Seq<Seq<char>>,
    target: Seq<char>,
    e: int,
    part: Seq<char>,
)
    requires
        0 <= e < entries.len(),
        has_part(entry_text(entries[e], paths_from(functions, calls, entries[e], target)), part),
    ensures
        has_part(entries_text(functions, calls, entries, target), part),
    decreases entries.len(),
{
    let init = entries.drop_last();
    let before = entries_text(functions, calls, init, target);
    let last = entry_text(
        entries.last(),
        paths_from(functions, calls, entries.last(), target),
    );
    if e < init.len() {
        lemma_entries(functions, calls, init, target, e, part);
        lemma_within(Seq::empty(), before, last, part);
    } else {
        lemma_within(before, last, Seq::empty(), part);
    }
}

/// Every path that is found from an entry point to a function is shown, and the
/// number of them from each entry point and from all is said.
pub proof fn every_path_is_shown(
    target: Seq<char>,
    entries: Seq<Seq<char>>,
    functions: Map<Seq<char>, Vec<FunctionInfo>>,
    calls: CallRelationships,
    e: int,
    i: int,
)
    requires
        0 <= e < entries.len(),
        0 <= i < paths_from(functions, calls, entries[e], target).len(),
    ensures
        has_part(
            all_paths_text(target, true, entries, functions, calls),
            entry_line(
                i,
                written_path(paths_from(functions, calls, entries[e], target)[i]),
            ),
        ),
        has_part(
            all_paths_text(target, true, entries, functions, calls),
            " From '"@ + entries[e] + "' ("@ + decimal(
                paths_from(functions, calls, entries[e], target).len(),
            ) + " paths found):\n"@,
        ),
{
    let paths = paths_from(functions, calls, entries[e], target);
    lemma_path_lines(paths, i);
    let part = entry_line(i, written_path(paths[i]));
    let head = "\n"@ + cyan_text(bold_text("Entry:"@));
    let from = " From '"@ + entries[e] + "' ("@ + decimal(paths.len()) + " paths found):\n"@;
    let lines = path_lines(paths);
    let one = entry_text(entries[e], paths);
    assert(one =~= head + from + lines);
    lemma_itself(from);
    lemma_within(head, from, lines, from);
    lemma_within(head + from, lines, Seq::empty(), part);
    lemma_entries(functions, calls, entries, target, e, from);
    lemma_entries(functions, calls, entries, target, e, part);
    let text = all_paths_text(target, true, entries, functions, calls);
    let lead = "Finding all paths that lead to function: "@ + cyan_text(target) + "\n"@
        + green_text(bold_text("=== Path Analysis ==="@)) + "\n"@ + "Target function: "@ + target
        + "\n"@ + "Found "@ + decimal(entries.len()) + " potential entry points\n"@;
    let all = entries_text(functions, calls, entries, target);
    let tail = text.skip((lead + all).len() as int);
    assert(text =~= lead + all + tail);
    lemma_within(lead, all, tail, from);
    lemma_within(lead, all, tail, part);
}

/// Whether a function is attached to the object it is handed over with: there is one,
/// the function is stored, and the object's member is declared as the very type it is
/// stored in.
pub proof fn attachments_are_of_the_same_type(h: HandedArgument)
    ensures
        attached(h) <==> h.argument.subject_type is Some && h.argument.subject_member is Some
            && h.handover is Some && h.handover->0 is StoredIn && h.holds is Some && (h.holds->0)@
            == (h.handover->0)->container_type@,
{
}

} // verus!
