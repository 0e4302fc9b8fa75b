//! What is said of call chains: the text of each answer.
use vstd::prelude::*;
use crate::callchain::{lemma_forest_height, tree_height, CallNode};
use crate::colors::{
    bold, bold_text, cyan, cyan_text, green, green_text, grey, grey_text, yellow, yellow_text,
};
use crate::resolution::{Evidence, IndirectCaller};
use crate::text::{decimal, decimal_of, join, joined, lemma_texts_push, texts};
use crate::types::{CalleeDefinition, EdgeLocation};

verus! {

/// Two spaces for each level.
pub open spec fn indent_text(n: nat) -> Seq<char>
    decreases n,
{
    if n == 0 {
        Seq::empty()
    } else {
        indent_text((n - 1) as nat) + "  "@
    }
}

fn indentation(n: usize) -> (r: String)
    ensures
        r@ == indent_text(n as nat),
{
    let mut out = String::new();
    let mut i: usize = 0;
    while i < n
        invariant
            i <= n,
            out@ == indent_text(i as nat),
        decreases n - i,
    {
        out.append("  ");
        i += 1;
    }
    out
}

/// The line of one function: what leads to it, its name, and where it is if
/// that is known.
pub open spec fn node_line(lead: Seq<char>, node: CallNode) -> Seq<char> {
    if node.file@.len() == 0 {
        lead + yellow_text(node.name@) + "\n"@
    } else {
        lead + yellow_text(node.name@) + " ("@ + grey_text(node.file@) + ":"@ + decimal(
            node.line as nat,
        ) + ")\n"@
    }
}

fn node_string(lead: String, node: &CallNode) -> (r: String)
    ensures
        r@ == node_line(lead@, *node),
{
    let mut out = lead;
    out.append(yellow(node.name.as_str()).as_str());
    if node.file.as_str().is_empty() {
        out.append("\n");
    } else {
        out.append(" (");
        out.append(grey(node.file.as_str()).as_str());
        out.append(":");
        out.append(decimal_of(node.line as u64).as_str());
        out.append(")\n");
    }
    out
}

/// What stands before a function at a level of a tree.
pub open spec fn branch(indent: nat) -> Seq<char> {
    if indent == 0 {
        Seq::empty()
    } else {
        indent_text(indent) + "└─ "@
    }
}

/// A call chain as a tree: a function, then those it leads to one level deeper.
/// A function below the top of which nothing more is known is marked.
pub open spec fn tree_text(node: CallNode, indent: nat) -> Seq<char>
    decreases node, 1int,
{
    let body = node_line(branch(indent), node) + forest_text(node.children@, indent + 1);
    if indent > 0 && node.children@.len() == 0 && node.file@.len() == 0 {
        body + indent_text(indent) + "  "@ + grey_text("(...)"@) + "\n"@
    } else {
        body
    }
}

/// Some call chains as trees, one after the other.
pub open spec fn forest_text(nodes: Seq<CallNode>, indent: nat) -> Seq<char>
    decreases nodes, 0int,
{
    if nodes.len() == 0 {
        Seq::empty()
    } else {
        forest_text(nodes.drop_last(), indent) + tree_text(nodes.last(), indent)
    }
}

pub(crate) fn tree_string(node: &CallNode, indent: usize) -> (r: String)
    requires
        indent + tree_height(*node) <= usize::MAX,
    ensures
        r@ == tree_text(*node, indent as nat),
    decreases tree_height(*node),
{
    let mut lead = indentation(indent);
    if indent > 0 {
        lead.append("└─ ");
    }
    let mut out = node_string(lead, node);
    let mut forest = String::new();
    let mut i: usize = 0;
    assert(node.children@.take(0) =~= Seq::empty());
    while i < node.children.len()
        invariant
            i <= node.children@.len(),
            indent + tree_height(*node) <= usize::MAX,
            forest@ == forest_text(node.children@.take(i as int), (indent + 1) as nat),
        decreases node.children@.len() - i,
    {
        proof {
            lemma_forest_height(node.children@, i as int);
            assert(node.children@.take(i + 1).drop_last() =~= node.children@.take(i as int));
            assert(node.children@.take(i + 1).last() == node.children@[i as int]);
        }
        forest.append(tree_string(&node.children[i], indent + 1).as_str());
        i += 1;
    }
    assert(node.children@.take(i as int) =~= node.children@);
    out.append(forest.as_str());
    if indent > 0 && node.children.len() == 0 && node.file.as_str().is_empty() {
        out.append(indentation(indent).as_str());
        out.append("  ");
        out.append(grey("(...)").as_str());
        out.append("\n");
    }
    out
}

/// Writes a call chain as a tree.
pub fn print_callchain_tree_to_writer(node: &CallNode, indent: usize, writer: &mut String)
    requires
        indent + tree_height(*node) <= usize::MAX,
    ensures
        final(writer)@ == old(writer)@ + tree_text(*node, indent as nat),
{
    writer.append(tree_string(node, indent).as_str());
}

/// One caller above a dispatching site, and the callers above it, to a number of
/// levels. Unlike in the tree of a direct chain, what is not followed further is
/// not marked: here every entry is one.
pub open spec fn above_text(node: CallNode, indent: nat, remaining: nat) -> Seq<char>
    decreases node, 1int,
{
    let line = node_line(indent_text(indent) + "└─ "@, node);
    if remaining > 1 {
        line + above_all_text(node.children@, indent + 1, (remaining - 1) as nat)
    } else {
        line
    }
}

pub open spec fn above_all_text(nodes: Seq<CallNode>, indent: nat, remaining: nat) -> Seq<char>
    decreases nodes, 0int,
{
    if nodes.len() == 0 {
        Seq::empty()
    } else {
        above_all_text(nodes.drop_last(), indent, remaining) + above_text(
            nodes.last(),
            indent,
            remaining,
        )
    }
}

fn above_string(node: &CallNode, indent: usize, remaining: usize) -> (r: String)
    requires
        indent + remaining <= usize::MAX,
    ensures
        r@ == above_text(*node, indent as nat, remaining as nat),
    decreases remaining, 0int,
{
    let mut lead = indentation(indent);
    lead.append("└─ ");
    let mut out = node_string(lead, node);
    if remaining > 1 {
        out.append(above_all_string(&node.children, indent + 1, remaining - 1).as_str());
    }
    out
}

pub(crate) fn above_all_string(nodes: &Vec<CallNode>, indent: usize, remaining: usize) -> (r: String)
    requires
        indent + remaining <= usize::MAX,
        remaining > 0,
    ensures
        r@ == above_all_text(nodes@, indent as nat, remaining as nat),
    decreases remaining, 1int,
{
    let mut out = String::new();
    let mut i: usize = 0;
    assert(nodes@.take(0) =~= Seq::empty());
    while i < nodes.len()
        invariant
            i <= nodes@.len(),
            indent + remaining <= usize::MAX,
            out@ == above_all_text(nodes@.take(i as int), indent as nat, remaining as nat),
        decreases nodes@.len() - i,
    {
        proof {
            assert(nodes@.take(i + 1).drop_last() =~= nodes@.take(i as int));
            assert(nodes@.take(i + 1).last() == nodes@[i as int]);
        }
        out.append(above_string(&nodes[i], indent, remaining).as_str());
        i += 1;
    }
    assert(nodes@.take(i as int) =~= nodes@);
    out
}

/// Writes one caller above a dispatching site, and the callers above it.
pub fn write_caller_above(node: &CallNode, indent: usize, remaining: usize, writer: &mut String)
    requires
        indent + remaining <= usize::MAX,
    ensures
        final(writer)@ == old(writer)@ + above_text(*node, indent as nat, remaining as nat),
{
    writer.append(above_string(node, indent, remaining).as_str());
}

/// The place of something, with its file set back.
pub open spec fn place_text(file: Seq<char>, line: u32) -> Seq<char> {
    grey_text(file) + ":"@ + decimal(line as nat)
}

pub(crate) fn place_string(file: &str, line: u32) -> (r: String)
    ensures
        r@ == place_text(file@, line),
{
    let mut out = grey(file);
    out.append(":");
    out.append(decimal_of(line as u64).as_str());
    out
}

/// The number of an entry.
pub open spec fn number_text(n: nat) -> Seq<char> {
    yellow_text(decimal(n))
}

pub(crate) fn number_string(n: usize) -> (r: String)
    ensures
        r@ == number_text(n as nat),
{
    yellow(decimal_of(n as u64).as_str())
}

/// Where to look, as one line: role and place, in the order stored.
pub open spec fn locations_text(locations: Seq<EdgeLocation>) -> Seq<char> {
    joined(
        locations.map_values(
            |l: EdgeLocation| l.role@ + " "@ + l.file_path@ + ":"@ + decimal(l.line as nat),
        ),
        ", "@,
    )
}

/// Where to look, as one line: role and place, in the order stored.
pub fn describe_locations(locations: &[EdgeLocation]) -> (r: String)
    ensures
        r@ == locations_text(locations@),
{
    let ghost form = |l: EdgeLocation|
        l.role@ + " "@ + l.file_path@ + ":"@ + decimal(l.line as nat);
    let mut parts: Vec<String> = Vec::new();
    let mut i: usize = 0;
    while i < locations.len()
        invariant
            i <= locations@.len(),
            form == (|l: EdgeLocation|
                l.role@ + " "@ + l.file_path@ + ":"@ + decimal(l.line as nat)),
            texts(parts@) == locations@.take(i as int).map_values(form),
        decreases locations@.len() - i,
    {
        let l = &locations[i];
        let mut part = l.role.clone();
        part.append(" ");
        part.append(l.file_path.as_str());
        part.append(":");
        part.append(decimal_of(l.line as u64).as_str());
        proof {
            lemma_texts_push(parts@, part);
            assert(part@ == form(locations@[i as int]));
        }
        parts.push(part);
        i += 1;
        assert(texts(parts@) =~= locations@.take(i as int).map_values(form));
    }
    assert(locations@.take(i as int) =~= locations@);
    join(&parts, ", ")
}

/// A numbered list of names, each line with the same lead.
pub open spec fn numbered_text(lead: Seq<char>, names: Seq<Seq<char>>) -> Seq<char>
    decreases names.len(),
{
    if names.len() == 0 {
        Seq::empty()
    } else {
        numbered_text(lead, names.drop_last()) + lead + number_text(names.len()) + ". "@
            + cyan_text(names.last()) + "\n"@
    }
}

pub(crate) fn numbered_string(lead: &str, names: &Vec<String>) -> (r: String)
    ensures
        r@ == numbered_text(lead@, texts(names@)),
{
    let mut out = String::new();
    let mut i: usize = 0;
    assert(texts(names@).take(0) =~= Seq::empty());
    while i < names.len()
        invariant
            i <= names@.len(),
            out@ == numbered_text(lead@, texts(names@).take(i as int)),
        decreases names@.len() - i,
    {
        proof {
            assert(texts(names@).take(i + 1).drop_last() =~= texts(names@).take(i as int));
            assert(texts(names@).take(i + 1).last() == names@[i as int]@);
        }
        out.append(lead);
        out.append(number_string(i + 1).as_str());
        out.append(". ");
        out.append(cyan(names[i].as_str()).as_str());
        out.append("\n");
        i += 1;
    }
    assert(texts(names@).take(i as int) =~= texts(names@));
    out
}

/// One definition of a name, with what it calls.
pub open spec fn definition_text(d: CalleeDefinition) -> Seq<char> {
    "\n  "@ + place_text(d.file_path@, d.line_start) + "\n"@ + (if d.callees@.len() == 0 {
        "    calls nothing\n"@
    } else {
        numbered_text("    "@, texts(d.callees@))
    })
}

pub open spec fn definitions_text(definitions: Seq<CalleeDefinition>) -> Seq<char>
    decreases definitions.len(),
{
    if definitions.len() == 0 {
        Seq::empty()
    } else {
        definitions_text(definitions.drop_last()) + definition_text(definitions.last())
    }
}

/// The callees of each definition of a name, kept apart.
pub open spec fn per_definition_text(
    name: Seq<char>,
    total: nat,
    answering: Seq<CalleeDefinition>,
) -> Seq<char> {
    "\n"@ + bold_text("This revision"@) + " defines '"@ + cyan_text(name) + "' "@ + decimal(total)
        + " times, "@ + decimal(answering.len())
        + " of them definitions. Which one a call\nreaches depends on the file it is written in and on the configuration\nit is built with, so each is reported separately:\n"@
        + definitions_text(answering)
}

fn definition_string(d: &CalleeDefinition) -> (r: String)
    ensures
        r@ == definition_text(*d),
{
    let mut out = String::from_str("\n  ");
    out.append(place_string(d.file_path.as_str(), d.line_start).as_str());
    out.append("\n");
    if d.callees.len() == 0 {
        out.append("    calls nothing\n");
    } else {
        out.append(numbered_string("    ", &d.callees).as_str());
    }
    out
}

pub(crate) fn per_definition_string(name: &str, total: usize, answering: &[CalleeDefinition]) -> (r: String)
    ensures
        r@ == per_definition_text(name@, total as nat, answering@),
{
    let mut out = String::from_str("\n");
    out.append(bold("This revision").as_str());
    out.append(" defines '");
    out.append(cyan(name).as_str());
    out.append("' ");
    out.append(decimal_of(total as u64).as_str());
    out.append(" times, ");
    out.append(decimal_of(answering.len() as u64).as_str());
    out.append(
        " of them definitions. Which one a call\nreaches depends on the file it is written in and on the configuration\nit is built with, so each is reported separately:\n",
    );
    let mut list = String::new();
    let mut i: usize = 0;
    assert(answering@.take(0) =~= Seq::empty());
    while i < answering.len()
        invariant
            i <= answering@.len(),
            list@ == definitions_text(answering@.take(i as int)),
        decreases answering@.len() - i,
    {
        proof {
            assert(answering@.take(i + 1).drop_last() =~= answering@.take(i as int));
            assert(answering@.take(i + 1).last() == answering@[i as int]);
        }
        list.append(definition_string(&answering[i]).as_str());
        i += 1;
    }
    assert(answering@.take(i as int) =~= answering@);
    out.append(list.as_str());
    out
}

/// Writes the callees of each definition of a name, kept apart.
pub fn write_callees_per_definition(
    name: &str,
    total: usize,
    answering: &[CalleeDefinition],
    writer: &mut String,
)
    ensures
        final(writer)@ == old(writer)@ + per_definition_text(name@, total as nat, answering@),
{
    writer.append(per_definition_string(name, total, answering).as_str());
}

/// A heading in bold green, set off by a blank line.
pub open spec fn green_heading(title: Seq<char>) -> Seq<char> {
    "\n"@ + green_text(bold_text(title)) + "\n"@
}

pub(crate) fn green_heading_string(title: &str) -> (r: String)
    ensures
        r@ == green_heading(title@),
{
    let mut out = String::from_str("\n");
    out.append(green(bold(title).as_str()).as_str());
    out.append("\n");
    out
}

/// The evidence behind one indirect caller, in words.
pub open spec fn evidence_text(member: Seq<char>, evidence: Evidence) -> Seq<char> {
    match evidence {
        Evidence::StatedAtSite => "     names it at the call site\n"@,
        Evidence::Registered {
            container_type,
            registration_file,
            registration_line,
            registration_count,
            type_matched,
        } => "     installed in "@ + cyan_text(container_type@) + "::"@ + cyan_text(member)
            + " at "@ + place_text(registration_file@, registration_line) + grey_text(
            if registration_count == 1 {
                ""@
            } else {
                " and "@ + decimal((registration_count - 1) as nat) + " other places"@
            },
        ) + " ("@ + grey_text(
            if type_matched {
                "receiver type matches"@
            } else {
                "member name matches, receiver type unknown"@
            },
        ) + ")\n"@,
    }
}

/// One indirect caller, with the evidence for it.
pub open spec fn indirect_entry_text(n: nat, caller: IndirectCaller) -> Seq<char> {
    "  "@ + number_text(n) + ". "@ + cyan_text(
        if caller.caller_name@.len() == 0 {
            "(file scope)"@
        } else {
            caller.caller_name@
        },
    ) + " at "@ + place_text(caller.site_file@, caller.site_line) + " ["@ + grey_text(
        caller.site_kind@,
    ) + "]\n"@ + evidence_text(caller.member@, caller.evidence)
}

pub open spec fn indirect_entries_text(confident: Seq<IndirectCaller>) -> Seq<char>
    decreases confident.len(),
{
    if confident.len() == 0 {
        Seq::empty()
    } else {
        indirect_entries_text(confident.drop_last()) + indirect_entry_text(
            confident.len(),
            confident.last(),
        )
    }
}

/// The callers whose evidence is more than a member of the same name.
pub open spec fn confident_callers(indirect: Seq<IndirectCaller>) -> Seq<IndirectCaller> {
    indirect.filter(|c: IndirectCaller| c.evidence.type_matched())
}

/// What is said of callers that reach a function without naming it. Those known
/// by the name of a member alone are reported as a count, not as an answer.
pub open spec fn indirect_text(indirect: Seq<IndirectCaller>) -> Seq<char> {
    if indirect.len() == 0 {
        Seq::empty()
    } else {
        let confident = confident_callers(indirect);
        let by_name_only = (indirect.len() - confident.len()) as nat;
        green_heading("=== Indirect Callers ==="@) + (if confident.len() > 0 {
            decimal(confident.len()) + " call sites can reach it through a function pointer:\n"@
        } else {
            Seq::empty()
        }) + indirect_entries_text(confident) + (if by_name_only > 0 {
            "\n"@ + yellow_text("Note:"@) + " "@ + decimal(by_name_only) + " "@ + (
            if confident.len() == 0 {
                ""@
            } else {
                "further "@
            })
                + "call sites go through a member of the same name, but nothing says their receiver has the type the function was installed in.\n"@
        } else {
            Seq::empty()
        })
    }
}

fn evidence_string(member: &str, evidence: &Evidence) -> (r: String)
    requires
        evidence matches Evidence::Registered { registration_count, .. } ==> registration_count > 0,
    ensures
        r@ == evidence_text(member@, *evidence),
{
    match evidence {
        Evidence::StatedAtSite => String::from_str("     names it at the call site\n"),
        Evidence::Registered {
            container_type,
            registration_file,
            registration_line,
            registration_count,
            type_matched,
        } => {
            let mut out = String::from_str("     installed in ");
            out.append(cyan(container_type.as_str()).as_str());
            out.append("::");
            out.append(cyan(member).as_str());
            out.append(" at ");
            out.append(place_string(registration_file.as_str(), *registration_line).as_str());
            if *registration_count == 1 {
                out.append(grey("").as_str());
            } else {
                let mut elsewhere = String::from_str(" and ");
                elsewhere.append(decimal_of((*registration_count - 1) as u64).as_str());
                elsewhere.append(" other places");
                out.append(grey(elsewhere.as_str()).as_str());
            }
            out.append(" (");
            if *type_matched {
                out.append(grey("receiver type matches").as_str());
            } else {
                out.append(grey("member name matches, receiver type unknown").as_str());
            }
            out.append(")\n");
            out
        },
    }
}

fn indirect_entry_string(n: usize, caller: &IndirectCaller) -> (r: String)
    requires
        caller.evidence matches Evidence::Registered { registration_count, .. }
            ==> registration_count > 0,
    ensures
        r@ == indirect_entry_text(n as nat, *caller),
{
    let mut out = String::from_str("  ");
    out.append(number_string(n).as_str());
    out.append(". ");
    if caller.caller_name.as_str().is_empty() {
        out.append(cyan("(file scope)").as_str());
    } else {
        out.append(cyan(caller.caller_name.as_str()).as_str());
    }
    out.append(" at ");
    out.append(place_string(caller.site_file.as_str(), caller.site_line).as_str());
    out.append(" [");
    out.append(grey(caller.site_kind.as_str()).as_str());
    out.append("]\n");
    out.append(evidence_string(caller.member.as_str(), &caller.evidence).as_str());
    out
}

/// Whether every registered caller counts at least the place it shows.
pub open spec fn counted(indirect: Seq<IndirectCaller>) -> bool {
    forall|i: int|
        0 <= i < indirect.len() ==> ((#[trigger] indirect[i]).evidence matches Evidence::Registered {
            registration_count,
            ..
        } ==> registration_count > 0)
}

pub(crate) fn indirect_string(indirect: &[IndirectCaller]) -> (r: String)
    requires
        counted(indirect@),
    ensures
        r@ == indirect_text(indirect@),
{
    if indirect.len() == 0 {
        return String::new();
    }
    let ghost wanted = |c: IndirectCaller| c.evidence.type_matched();
    let mut entries = String::new();
    let mut confident: usize = 0;
    let mut i: usize = 0;
    proof {
        reveal(Seq::filter);
        assert(indirect@.take(0) =~= Seq::empty());
    }
    while i < indirect.len()
        invariant
            i <= indirect@.len(),
            counted(indirect@),
            wanted == (|c: IndirectCaller| c.evidence.type_matched()),
            confident <= i,
            confident == indirect@.take(i as int).filter(wanted).len(),
            entries@ == indirect_entries_text(indirect@.take(i as int).filter(wanted)),
        decreases indirect@.len() - i,
    {
        let caller = &indirect[i];
        proof {
            reveal(Seq::filter);
            assert(indirect@.take(i + 1).drop_last() =~= indirect@.take(i as int));
            assert(indirect@.take(i + 1).last() == *caller);
        }
        let ghost before = indirect@.take(i as int).filter(wanted);
        if caller.evidence.is_type_matched() {
            assert(before.push(*caller).drop_last() =~= before);
            confident += 1;
            entries.append(indirect_entry_string(confident, caller).as_str());
        }
        i += 1;
    }
    assert(indirect@.take(i as int) =~= indirect@);
    let by_name_only: usize = indirect.len() - confident;
    let mut out = green_heading_string("=== Indirect Callers ===");
    if confident > 0 {
        let mut count = decimal_of(confident as u64);
        count.append(" call sites can reach it through a function pointer:\n");
        out.append(count.as_str());
    } else {
        out.append(String::new().as_str());
    }
    out.append(entries.as_str());
    if by_name_only > 0 {
        let mut note = String::from_str("\n");
        note.append(yellow("Note:").as_str());
        note.append(" ");
        note.append(decimal_of(by_name_only as u64).as_str());
        note.append(" ");
        if confident == 0 {
            note.append("");
        } else {
            note.append("further ");
        }
        note.append(
            "call sites go through a member of the same name, but nothing says their receiver has the type the function was installed in.\n",
        );
        out.append(note.as_str());
    } else {
        out.append(String::new().as_str());
    }
    out
}

/// Writes the callers that reach a function without naming it, with the evidence
/// for each: a reader has to be able to check the claim, since a member call can
/// reach anything installed in that member.
pub fn show_indirect_callers(indirect: &[IndirectCaller], writer: &mut String)
    requires
        counted(indirect@),
    ensures
        final(writer)@ == old(writer)@ + indirect_text(indirect@),
{
    writer.append(indirect_string(indirect).as_str());
}

} // verus!
