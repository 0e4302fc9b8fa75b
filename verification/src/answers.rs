//! The answers to questions about calls, as text: what is asked, what was found,
//! and what follows from finding nothing.
use vstd::prelude::*;
use crate::callchain_text::{
    counted, green_heading, green_heading_string, indirect_string, indirect_text, number_string,
    number_text, place_string, place_text,
};
use crate::colors::{
    bold, bold_text, cyan, cyan_text, green, green_text, grey, grey_text, red, red_text, yellow,
    yellow_text,
};
use crate::names::NameMap;
use crate::order::{sort_texts, sorted_set};
use crate::resolution::IndirectCaller;
use crate::text::{decimal, decimal_of, join, joined, lemma_texts_push, str_eq, texts};
use crate::types::{ArgumentFunction, FunctionInfo, Handover, Registration};

verus! {

/// The function something stands in, where it stands in one.
pub open spec fn inside_text(function: Seq<char>) -> Seq<char> {
    if function.len() == 0 {
        Seq::empty()
    } else {
        " in "@ + function
    }
}

fn inside_string(function: &str) -> (r: String)
    ensures
        r@ == inside_text(function@),
{
    if function.is_empty() {
        String::new()
    } else {
        let mut out = String::from_str(" in ");
        out.append(function);
        out
    }
}

/// Where a registration is made, and how.
pub open spec fn made_at_text(r: Registration) -> Seq<char> {
    " at "@ + place_text(r.file_path@, r.line) + grey_text(inside_text(r.enclosing_function@))
        + " ["@ + grey_text(r.kind.text()) + "]\n"@
}

fn made_at_string(r: &Registration) -> (out: String)
    ensures
        out@ == made_at_text(*r),
{
    let mut out = String::from_str(" at ");
    out.append(place_string(r.file_path.as_str(), r.line).as_str());
    out.append(grey(inside_string(r.enclosing_function.as_str()).as_str()).as_str());
    out.append(" [");
    out.append(grey(r.kind.as_str()).as_str());
    out.append("]\n");
    out
}

pub open spec fn implementor_entries(found: Seq<Registration>) -> Seq<char>
    decreases found.len(),
{
    if found.len() == 0 {
        Seq::empty()
    } else {
        implementor_entries(found.drop_last()) + "  "@ + number_text(found.len()) + ". "@
            + cyan_text(found.last().target@) + made_at_text(found.last())
    }
}

/// Functions installed in one member of one type.
pub open spec fn implementors_text(
    container_type: Seq<char>,
    member: Seq<char>,
    found: Seq<Registration>,
) -> Seq<char> {
    let asked = "Finding functions installed in "@ + cyan_text(container_type) + "::"@ + cyan_text(
        member,
    ) + "\n"@;
    if found.len() == 0 {
        asked + yellow_text("Info:"@) + " Nothing is installed in "@ + container_type + "::"@
            + member + "\n"@
    } else {
        asked + green_heading("=== Implementors ==="@) + decimal(found.len()) + " installed:\n"@
            + implementor_entries(found)
    }
}

/// Writes the functions installed in one member of one type: the other side of
/// the question that callers answer.
pub fn show_implementors_to_writer(
    container_type: &str,
    member: &str,
    found: &[Registration],
    writer: &mut String,
)
    ensures
        final(writer)@ == old(writer)@ + implementors_text(container_type@, member@, found@),
{
    let mut out = String::from_str("Finding functions installed in ");
    out.append(cyan(container_type).as_str());
    out.append("::");
    out.append(cyan(member).as_str());
    out.append("\n");
    if found.len() == 0 {
        out.append(yellow("Info:").as_str());
        out.append(" Nothing is installed in ");
        out.append(container_type);
        out.append("::");
        out.append(member);
        out.append("\n");
    } else {
        out.append(green_heading_string("=== Implementors ===").as_str());
        out.append(decimal_of(found.len() as u64).as_str());
        out.append(" installed:\n");
        let mut entries = String::new();
        let mut i: usize = 0;
        assert(found@.take(0) =~= Seq::empty());
        while i < found.len()
            invariant
                i <= found@.len(),
                entries@ == implementor_entries(found@.take(i as int)),
            decreases found@.len() - i,
        {
            proof {
                assert(found@.take(i + 1).drop_last() =~= found@.take(i as int));
                assert(found@.take(i + 1).last() == found@[i as int]);
            }
            entries.append("  ");
            entries.append(number_string(i + 1).as_str());
            entries.append(". ");
            entries.append(cyan(found[i].target.as_str()).as_str());
            entries.append(made_at_string(&found[i]).as_str());
            i += 1;
        }
        assert(found@.take(i as int) =~= found@);
        out.append(entries.as_str());
    }
    writer.append(out.as_str());
}

/// A call that is handed a function, with what is known of what becomes of it.
pub struct HandedArgument {
    pub argument: ArgumentFunction,
    pub handover: Option<Handover>,
    /// The aggregate that the subject's member is declared as.
    pub holds: Option<String>,
}

/// The member whose declared aggregate decides whether a handover is attached to
/// a subject: asked only where there is a subject and the function is stored.
pub open spec fn subject_in_question(
    argument: ArgumentFunction,
    handover: Option<Handover>,
) -> bool {
    argument.subject_type is Some && argument.subject_member is Some && handover is Some
        && handover->0 is StoredIn
}

/// Whether the declared aggregate of the subject's member has to be looked up.
pub fn asks_for_subject(argument: &ArgumentFunction, handover: &Option<Handover>) -> (r: bool)
    ensures
        r == subject_in_question(*argument, *handover),
{
    if argument.subject_type.is_none() || argument.subject_member.is_none() {
        return false;
    }
    match handover {
        Some(Handover::StoredIn { .. }) => true,
        _ => false,
    }
}

/// Whether the object a function is handed over with is the one it is attached
/// to: it holds the thing the callee stores into.
pub open spec fn attached(h: HandedArgument) -> bool {
    &&& subject_in_question(h.argument, h.handover)
    &&& h.holds is Some
    &&& h.holds->0@ == h.handover->0->container_type@
}

/// The line that says what a handed function is attached to.
pub open spec fn attached_text(h: HandedArgument) -> Seq<char> {
    if attached(h) {
        "     attached to "@ + cyan_text(h.argument.subject_type->0@) + "::"@ + cyan_text(
            h.argument.subject_member->0@,
        ) + "\n"@
    } else {
        Seq::empty()
    }
}

/// The line that says what becomes of a handed function.
pub open spec fn handover_text(handover: Option<Handover>) -> Seq<char> {
    match handover {
        Some(Handover::StoredIn { path, container_type, member }) => "     installs it in "@
            + cyan_text(container_type@) + "::"@ + cyan_text(member@) + ", "@ + yellow_text(
            "called later"@,
        ) + " through "@ + grey_text(joined(texts(path@), " -> "@)) + "\n"@,
        Some(Handover::Invoked { path }) => "     calls it "@ + yellow_text("before returning"@)
            + " through "@ + grey_text(joined(texts(path@), " -> "@)) + "\n"@,
        None => Seq::empty(),
    }
}

fn attached_string(h: &HandedArgument) -> (r: String)
    ensures
        r@ == attached_text(*h),
{
    if let Some(subject_type) = &h.argument.subject_type {
        if let Some(subject_member) = &h.argument.subject_member {
            if let Some(Handover::StoredIn { path: _, container_type, member: _ }) = &h.handover {
                if let Some(holds) = &h.holds {
                    if str_eq(holds.as_str(), container_type.as_str()) {
                        let mut out = String::from_str("     attached to ");
                        out.append(cyan(subject_type.as_str()).as_str());
                        out.append("::");
                        out.append(cyan(subject_member.as_str()).as_str());
                        out.append("\n");
                        return out;
                    }
                }
            }
        }
    }
    String::new()
}

fn handover_string(handover: &Option<Handover>) -> (r: String)
    ensures
        r@ == handover_text(*handover),
{
    match handover {
        Some(Handover::StoredIn { path, container_type, member }) => {
            let mut out = String::from_str("     installs it in ");
            out.append(cyan(container_type.as_str()).as_str());
            out.append("::");
            out.append(cyan(member.as_str()).as_str());
            out.append(", ");
            out.append(yellow("called later").as_str());
            out.append(" through ");
            out.append(grey(join(path, " -> ").as_str()).as_str());
            out.append("\n");
            out
        },
        Some(Handover::Invoked { path }) => {
            let mut out = String::from_str("     calls it ");
            out.append(yellow("before returning").as_str());
            out.append(" through ");
            out.append(grey(join(path, " -> ").as_str()).as_str());
            out.append("\n");
            out
        },
        None => String::new(),
    }
}

pub open spec fn registration_entries(found: Seq<Registration>) -> Seq<char>
    decreases found.len(),
{
    if found.len() == 0 {
        Seq::empty()
    } else {
        registration_entries(found.drop_last()) + "  "@ + number_text(found.len()) + ". "@
            + cyan_text(found.last().container_type@) + "::"@ + cyan_text(found.last().member@)
            + made_at_text(found.last())
    }
}

pub open spec fn handed_entries(handed: Seq<HandedArgument>) -> Seq<char>
    decreases handed.len(),
{
    if handed.len() == 0 {
        Seq::empty()
    } else {
        let h = handed.last();
        handed_entries(handed.drop_last()) + "  "@ + number_text(handed.len()) + ". "@ + cyan_text(
            h.argument.callee@,
        ) + "() argument "@ + decimal(h.argument.argument_index as nat) + " at "@ + place_text(
            h.argument.file_path@,
            h.argument.line,
        ) + grey_text(inside_text(h.argument.enclosing_function@)) + "\n"@ + attached_text(h)
            + handover_text(h.handover)
    }
}

/// Where a function is installed, which is how it can be reached without being
/// named.
pub open spec fn registrations_text(
    name: Seq<char>,
    found: Seq<Registration>,
    handed: Seq<HandedArgument>,
) -> Seq<char> {
    let asked = "Finding where "@ + cyan_text(name) + " is installed\n"@;
    if found.len() == 0 && handed.len() == 0 {
        asked + yellow_text("Info:"@) + " "@ + name
            + " is not installed in any struct member, and no call is handed it\n"@
    } else {
        asked + (if found.len() == 0 {
            Seq::empty()
        } else {
            green_heading("=== Registrations ==="@) + decimal(found.len())
                + " places install it:\n"@
        }) + registration_entries(found) + (if handed.len() == 0 {
            Seq::empty()
        } else {
            green_heading("=== Handed to ==="@) + decimal(handed.len())
                + " calls are handed it as an argument:\n"@ + handed_entries(handed)
        })
    }
}

fn registration_entries_string(found: &[Registration]) -> (r: String)
    ensures
        r@ == registration_entries(found@),
{
    let mut entries = String::new();
    let mut i: usize = 0;
    assert(found@.take(0) =~= Seq::empty());
    while i < found.len()
        invariant
            i <= found@.len(),
            entries@ == registration_entries(found@.take(i as int)),
        decreases found@.len() - i,
    {
        proof {
            assert(found@.take(i + 1).drop_last() =~= found@.take(i as int));
            assert(found@.take(i + 1).last() == found@[i as int]);
        }
        entries.append("  ");
        entries.append(number_string(i + 1).as_str());
        entries.append(". ");
        entries.append(cyan(found[i].container_type.as_str()).as_str());
        entries.append("::");
        entries.append(cyan(found[i].member.as_str()).as_str());
        entries.append(made_at_string(&found[i]).as_str());
        i += 1;
    }
    assert(found@.take(i as int) =~= found@);
    entries
}

fn handed_entries_string(handed: &[HandedArgument]) -> (r: String)
    ensures
        r@ == handed_entries(handed@),
{
    let mut entries = String::new();
    let mut i: usize = 0;
    assert(handed@.take(0) =~= Seq::empty());
    while i < handed.len()
        invariant
            i <= handed@.len(),
            entries@ == handed_entries(handed@.take(i as int)),
        decreases handed@.len() - i,
    {
        proof {
            assert(handed@.take(i + 1).drop_last() =~= handed@.take(i as int));
            assert(handed@.take(i + 1).last() == handed@[i as int]);
        }
        let h = &handed[i];
        entries.append("  ");
        entries.append(number_string(i + 1).as_str());
        entries.append(". ");
        entries.append(cyan(h.argument.callee.as_str()).as_str());
        entries.append("() argument ");
        entries.append(decimal_of(h.argument.argument_index as u64).as_str());
        entries.append(" at ");
        entries.append(place_string(h.argument.file_path.as_str(), h.argument.line).as_str());
        entries.append(grey(inside_string(h.argument.enclosing_function.as_str()).as_str()).as_str());
        entries.append("\n");
        entries.append(attached_string(h).as_str());
        entries.append(handover_string(&h.handover).as_str());
        i += 1;
    }
    assert(handed@.take(i as int) =~= handed@);
    entries
}

/// Writes where a function is installed, and which calls are handed it.
pub fn show_registrations_to_writer(
    name: &str,
    found: &[Registration],
    handed: &[HandedArgument],
    writer: &mut String,
)
    ensures
        final(writer)@ == old(writer)@ + registrations_text(name@, found@, handed@),
{
    let mut out = String::from_str("Finding where ");
    out.append(cyan(name).as_str());
    out.append(" is installed\n");
    if found.len() == 0 && handed.len() == 0 {
        out.append(yellow("Info:").as_str());
        out.append(" ");
        out.append(name);
        out.append(" is not installed in any struct member, and no call is handed it\n");
    } else {
        let mut installed = String::new();
        if found.len() != 0 {
            installed = green_heading_string("=== Registrations ===");
            installed.append(decimal_of(found.len() as u64).as_str());
            installed.append(" places install it:\n");
        }
        out.append(installed.as_str());
        out.append(registration_entries_string(found).as_str());
        let mut given = String::new();
        if handed.len() != 0 {
            given = green_heading_string("=== Handed to ===");
            given.append(decimal_of(handed.len() as u64).as_str());
            given.append(" calls are handed it as an argument:\n");
            given.append(handed_entries_string(handed).as_str());
        }
        out.append(given.as_str());
    }
    writer.append(out.as_str());
}

/// When the section a function is filed in gets walked, as far as it is known.
pub open spec fn when_text(level: Seq<char>, known: Map<Seq<char>, String>) -> Seq<char> {
    if known.contains_key(level) {
        known[level]@
    } else {
        "runs at boot"@
    }
}

/// When the section a function is filed in gets walked. A module's exit function
/// runs when the module is removed; what nothing is known of runs at boot.
pub fn when_it_runs(level: &str, known: &NameMap<String>) -> (r: String)
    requires
        known.wf(),
    ensures
        r@ == when_text(level@, known@),
{
    match known.get(level) {
        Some(when) => when.clone(),
        None => String::from_str("runs at boot"),
    }
}

pub open spec fn entry_points_text(
    levels: Seq<Seq<char>>,
    known: Map<Seq<char>, String>,
) -> Seq<char>
    decreases levels.len(),
{
    if levels.len() == 0 {
        Seq::empty()
    } else {
        entry_points_text(levels.drop_last(), known) + green_text(bold_text("Entry point:"@)) + " "@
            + when_text(levels.last(), known) + ", filed as "@ + cyan_text(levels.last()) + "\n"@
    }
}

fn entry_points_string(levels: &Vec<String>, known: &NameMap<String>) -> (r: String)
    requires
        known.wf(),
    ensures
        r@ == entry_points_text(texts(levels@), known@),
{
    let mut out = String::new();
    let mut i: usize = 0;
    assert(texts(levels@).take(0) =~= Seq::empty());
    while i < levels.len()
        invariant
            i <= levels@.len(),
            known.wf(),
            out@ == entry_points_text(texts(levels@).take(i as int), known@),
        decreases levels@.len() - i,
    {
        proof {
            assert(texts(levels@).take(i + 1).drop_last() =~= texts(levels@).take(i as int));
            assert(texts(levels@).take(i + 1).last() == levels@[i as int]@);
        }
        out.append(green(bold("Entry point:").as_str()).as_str());
        out.append(" ");
        out.append(when_it_runs(levels[i].as_str(), known).as_str());
        out.append(", filed as ");
        out.append(cyan(levels[i].as_str()).as_str());
        out.append("\n");
        i += 1;
    }
    assert(texts(levels@).take(i as int) =~= texts(levels@));
    out
}

/// One call that is handed a function, in a line.
pub open spec fn handed_site(a: ArgumentFunction) -> Seq<char> {
    a.callee@ + "() argument "@ + decimal(a.argument_index as nat) + " at "@ + a.file_path@ + ":"@
        + decimal(a.line as nat) + inside_text(a.enclosing_function@)
}

/// The calls that are handed a function, in order, each once.
pub open spec fn handed_sites(handed: Seq<ArgumentFunction>) -> Seq<Seq<char>> {
    sorted_set(handed.map_values(|a: ArgumentFunction| handed_site(a)))
}

fn handed_site_list(handed: &[ArgumentFunction]) -> (r: Vec<String>)
    ensures
        texts(r@) == handed_sites(handed@),
{
    let ghost form = |a: ArgumentFunction| handed_site(a);
    let mut sites: Vec<String> = Vec::new();
    let mut i: usize = 0;
    while i < handed.len()
        invariant
            i <= handed@.len(),
            form == (|a: ArgumentFunction| handed_site(a)),
            texts(sites@) == handed@.take(i as int).map_values(form),
        decreases handed@.len() - i,
    {
        let a = &handed[i];
        let mut site = a.callee.clone();
        site.append("() argument ");
        site.append(decimal_of(a.argument_index as u64).as_str());
        site.append(" at ");
        site.append(a.file_path.as_str());
        site.append(":");
        site.append(decimal_of(a.line as u64).as_str());
        site.append(inside_string(a.enclosing_function.as_str()).as_str());
        proof {
            lemma_texts_push(sites@, site);
            assert(site@ == form(handed@[i as int]));
        }
        sites.push(site);
        i += 1;
        assert(texts(sites@) =~= handed@.take(i as int).map_values(form));
    }
    assert(handed@.take(i as int) =~= handed@);
    sort_texts(sites)
}

pub open spec fn grey_lines(lines: Seq<Seq<char>>) -> Seq<char>
    decreases lines.len(),
{
    if lines.len() == 0 {
        Seq::empty()
    } else {
        grey_lines(lines.drop_last()) + "  "@ + grey_text(lines.last()) + "\n"@
    }
}

/// How many of a list are shown, at most.
pub open spec fn at_most(n: nat, limit: nat) -> nat {
    if n < limit {
        n
    } else {
        limit
    }
}

/// What is said of a function that is handed to other calls: nothing calls it by
/// name there, but a caller of those reaches it.
pub open spec fn handed_over_text(handed: Seq<ArgumentFunction>) -> Seq<char> {
    if handed.len() == 0 {
        Seq::empty()
    } else {
        let sites = handed_sites(handed);
        green_text(bold_text("Handed over:"@)) + " it is handed to "@ + (if sites.len() == 1 {
            "another call"@
        } else {
            decimal(sites.len()) + " calls"@
        }) + " as an argument, so a caller of that reaches it:\n"@ + grey_lines(
            sites.take(at_most(sites.len(), 10) as int),
        ) + (if sites.len() > 10 {
            "  ... and "@ + decimal((sites.len() - 10) as nat) + " more\n"@
        } else {
            Seq::empty()
        })
    }
}

fn handed_over_string(handed: &[ArgumentFunction]) -> (r: String)
    ensures
        r@ == handed_over_text(handed@),
{
    if handed.len() == 0 {
        return String::new();
    }
    let sites = handed_site_list(handed);
    let ghost all = texts(sites@);
    let mut out = green(bold("Handed over:").as_str());
    out.append(" it is handed to ");
    if sites.len() == 1 {
        out.append("another call");
    } else {
        let mut count = decimal_of(sites.len() as u64);
        count.append(" calls");
        out.append(count.as_str());
    }
    out.append(" as an argument, so a caller of that reaches it:\n");
    let mut lines = String::new();
    let mut i: usize = 0;
    assert(all.take(0) =~= Seq::empty());
    while i < sites.len() && i < 10
        invariant
            i <= sites@.len(),
            i <= 10,
            all == texts(sites@),
            lines@ == grey_lines(all.take(i as int)),
        decreases sites@.len() - i,
    {
        proof {
            assert(all.take(i + 1).drop_last() =~= all.take(i as int));
            assert(all.take(i + 1).last() == sites@[i as int]@);
        }
        lines.append("  ");
        lines.append(grey(sites[i].as_str()).as_str());
        lines.append("\n");
        i += 1;
    }
    out.append(lines.as_str());
    let mut more = String::new();
    if sites.len() > 10 {
        more = String::from_str("  ... and ");
        more.append(decimal_of((sites.len() - 10) as u64).as_str());
        more.append(" more\n");
    }
    out.append(more.as_str());
    out
}

/// What is known of a function that a list names.
pub open spec fn known_function_text(info: Option<FunctionInfo>) -> Seq<char> {
    match info {
        Some(f) => "     "@ + grey_text(f.return_type@) + " ("@ + place_text(
            f.file_path@,
            f.line_start,
        ) + ") [file SHA: "@ + grey_text(f.git_file_hash@) + "]\n"@,
        None => Seq::empty(),
    }
}

/// A numbered list of functions, each with what is known of it where that was
/// looked up.
pub open spec fn listed_text(names: Seq<Seq<char>>, infos: Seq<Option<FunctionInfo>>) -> Seq<char>
    decreases names.len(),
{
    if names.len() == 0 {
        Seq::empty()
    } else {
        listed_text(names.drop_last(), infos) + "  "@ + number_text(names.len()) + ". "@
            + cyan_text(names.last()) + "\n"@ + (if names.len() <= infos.len() {
            known_function_text(infos[names.len() - 1])
        } else {
            Seq::empty()
        })
    }
}

fn known_function_string(info: &Option<FunctionInfo>) -> (r: String)
    ensures
        r@ == known_function_text(*info),
{
    match info {
        Some(f) => {
            let mut out = String::from_str("     ");
            out.append(grey(f.return_type.as_str()).as_str());
            out.append(" (");
            out.append(place_string(f.file_path.as_str(), f.line_start).as_str());
            out.append(") [file SHA: ");
            out.append(grey(f.git_file_hash.as_str()).as_str());
            out.append("]\n");
            out
        },
        None => String::new(),
    }
}

pub(crate) fn listed_string(names: &Vec<String>, infos: &Vec<Option<FunctionInfo>>) -> (r: String)
    ensures
        r@ == listed_text(texts(names@), infos@),
{
    let mut out = String::new();
    let mut i: usize = 0;
    assert(texts(names@).take(0) =~= Seq::empty());
    while i < names.len()
        invariant
            i <= names@.len(),
            out@ == listed_text(texts(names@).take(i as int), infos@),
        decreases names@.len() - i,
    {
        proof {
            assert(texts(names@).take(i + 1).drop_last() =~= texts(names@).take(i as int));
            assert(texts(names@).take(i + 1).last() == names@[i as int]@);
        }
        out.append("  ");
        out.append(number_string(i + 1).as_str());
        out.append(". ");
        out.append(cyan(names[i].as_str()).as_str());
        out.append("\n");
        let mut known = String::new();
        if i < infos.len() {
            known = known_function_string(&infos[i]);
        }
        out.append(known.as_str());
        i += 1;
    }
    assert(texts(names@).take(i as int) =~= texts(names@));
    out
}

/// What the answer is about, in full: the commit, and the function's own file.
pub open spec fn verbose_text(name: Seq<char>, func: FunctionInfo, git_sha: Seq<char>) -> Seq<char> {
    "Using git commit: "@ + yellow_text(git_sha) + "\n"@ + "Target function '"@ + cyan_text(name)
        + "' defined in: "@ + grey_text(func.file_path@) + " [file SHA: "@ + grey_text(
        func.git_file_hash@,
    ) + "]\n"@
}

pub(crate) fn verbose_string(name: &str, func: &FunctionInfo, git_sha: &str) -> (r: String)
    ensures
        r@ == verbose_text(name@, *func, git_sha@),
{
    let mut out = String::from_str("Using git commit: ");
    out.append(yellow(git_sha).as_str());
    out.append("\n");
    out.append("Target function '");
    out.append(cyan(name).as_str());
    out.append("' defined in: ");
    out.append(grey(func.file_path.as_str()).as_str());
    out.append(" [file SHA: ");
    out.append(grey(func.git_file_hash.as_str()).as_str());
    out.append("]\n");
    out
}

/// That a name is not that of any function.
pub open spec fn unknown_function_text(name: Seq<char>) -> Seq<char> {
    red_text("Error:"@) + " No function '"@ + name + "' found in database\n"@
}

pub(crate) fn unknown_function_string(name: &str) -> (r: String)
    ensures
        r@ == unknown_function_text(name@),
{
    let mut out = red("Error:");
    out.append(" No function '");
    out.append(name);
    out.append("' found in database\n");
    out
}

/// What was found of the callers of a function.
pub struct CallersFound {
    pub func: FunctionInfo,
    pub callers: Vec<String>,
    /// What is known of each caller, where it was asked for.
    pub caller_infos: Vec<Option<FunctionInfo>>,
    pub indirect: Vec<IndirectCaller>,
    /// The initcall sections the function is filed in.
    pub boot_levels: Vec<String>,
    /// The calls that are handed the function.
    pub handed: Vec<ArgumentFunction>,
}

/// What is said where nothing calls a function: that nothing does reads as dead
/// code, which is wrong for an entry point and for a function that is handed
/// over.
pub open spec fn no_callers_text(name: Seq<char>, is_entry: bool, is_handed: bool) -> Seq<char> {
    if is_entry {
        yellow_text("Info:"@) + " nothing in the source calls it\n"@
    } else if is_handed {
        yellow_text("Info:"@) + " nothing calls '"@ + name
            + "' by name; follow the handover above\n"@
    } else {
        yellow_text("Info:"@) + " No functions call '"@ + name + "'\n"@
    }
}

fn no_callers_string(name: &str, is_entry: bool, is_handed: bool) -> (r: String)
    ensures
        r@ == no_callers_text(name@, is_entry, is_handed),
{
    let mut out = yellow("Info:");
    if is_entry {
        out.append(" nothing in the source calls it\n");
    } else if is_handed {
        out.append(" nothing calls '");
        out.append(name);
        out.append("' by name; follow the handover above\n");
    } else {
        out.append(" No functions call '");
        out.append(name);
        out.append("'\n");
    }
    out
}

/// The functions that call a function by name.
pub open spec fn direct_callers_text(
    name: Seq<char>,
    verbose: bool,
    git_sha: Seq<char>,
    found: CallersFound,
) -> Seq<char> {
    green_heading("=== Direct Callers ==="@) + (if verbose {
        verbose_text(name, found.func, git_sha)
    } else {
        Seq::empty()
    }) + decimal(found.callers@.len()) + " functions directly call '"@ + name + "':\n"@
        + listed_text(
        texts(found.callers@),
        if verbose {
            found.caller_infos@
        } else {
            Seq::empty()
        },
    )
}

fn direct_callers_string(name: &str, verbose: bool, git_sha: &str, found: &CallersFound) -> (r:
    String)
    ensures
        r@ == direct_callers_text(name@, verbose, git_sha@, *found),
{
    let mut out = green_heading_string("=== Direct Callers ===");
    let mut full = String::new();
    if verbose {
        full = verbose_string(name, &found.func, git_sha);
    }
    out.append(full.as_str());
    out.append(decimal_of(found.callers.len() as u64).as_str());
    out.append(" functions directly call '");
    out.append(name);
    out.append("':\n");
    if verbose {
        out.append(listed_string(&found.callers, &found.caller_infos).as_str());
    } else {
        let none: Vec<Option<FunctionInfo>> = Vec::new();
        assert(none@ =~= Seq::empty());
        out.append(listed_string(&found.callers, &none).as_str());
    }
    out
}

/// Who calls a function: how it is entered without a call, who is handed it, who
/// calls it by name, and who reaches it through a pointer.
pub open spec fn callers_text(
    name: Seq<char>,
    verbose: bool,
    git_sha: Seq<char>,
    found: Option<CallersFound>,
    known_levels: Map<Seq<char>, String>,
) -> Seq<char> {
    let asked = "Finding all functions that call: "@ + cyan_text(name) + "\n"@;
    match found {
        None => asked + unknown_function_text(name),
        Some(found) => asked + entry_points_text(
            sorted_set(texts(found.boot_levels@)),
            known_levels,
        ) + handed_over_text(found.handed@) + (if found.callers@.len() > 0 {
            direct_callers_text(name, verbose, git_sha, found)
        } else if found.indirect@.len() == 0 {
            no_callers_text(name, found.boot_levels@.len() > 0, found.handed@.len() > 0)
        } else {
            Seq::empty()
        }) + indirect_text(found.indirect@),
    }
}

fn copies(list: &Vec<String>) -> (r: Vec<String>)
    ensures
        texts(r@) == texts(list@),
{
    let mut out: Vec<String> = Vec::new();
    let mut i: usize = 0;
    while i < list.len()
        invariant
            i <= list@.len(),
            texts(out@) == texts(list@).take(i as int),
        decreases list@.len() - i,
    {
        let copy = list[i].clone();
        proof {
            lemma_texts_push(out@, copy);
            assert(copy@ == texts(list@)[i as int]);
        }
        out.push(copy);
        i += 1;
        assert(texts(out@) =~= texts(list@).take(i as int));
    }
    assert(texts(list@).take(i as int) =~= texts(list@));
    out
}

/// Writes who calls a function. `known_levels` says when the sections that
/// initcalls are filed in get walked.
pub fn show_callers_to_writer(
    name: &str,
    verbose: bool,
    git_sha: &str,
    found: &Option<CallersFound>,
    known_levels: &NameMap<String>,
    writer: &mut String,
)
    requires
        known_levels.wf(),
        found matches Some(found) ==> counted(found.indirect@),
    ensures
        final(writer)@ == old(writer)@ + callers_text(
            name@,
            verbose,
            git_sha@,
            *found,
            known_levels@,
        ),
{
    let mut out = String::from_str("Finding all functions that call: ");
    out.append(cyan(name).as_str());
    out.append("\n");
    match found {
        None => {
            out.append(unknown_function_string(name).as_str());
        },
        Some(found) => {
            let levels = sort_texts(copies(&found.boot_levels));
            out.append(entry_points_string(&levels, known_levels).as_str());
            out.append(handed_over_string(found.handed.as_slice()).as_str());
            let mut direct = String::new();
            if found.callers.len() > 0 {
                direct = direct_callers_string(name, verbose, git_sha, found);
            } else if found.indirect.len() == 0 {
                direct =
                no_callers_string(name, found.boot_levels.len() > 0, found.handed.len() > 0);
            }
            out.append(direct.as_str());
            out.append(indirect_string(found.indirect.as_slice()).as_str());
        },
    }
    writer.append(out.as_str());
}

} // verus!
