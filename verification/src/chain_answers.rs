//! The answers to what a function calls, how it is reached, and along which
//! paths, as text.
use vstd::prelude::*;
use crate::answers::{
    at_most, listed_string, listed_text, unknown_function_string, unknown_function_text,
    verbose_string, verbose_text,
};
use crate::callchain::{
    find_paths_bfs, path_texts, search_after, tree_height, CallNode, CallRelationships, NamePath,
};
use crate::callchain_text::{
    above_all_string, above_all_text, describe_locations, green_heading, green_heading_string,
    locations_text, number_string, number_text, per_definition_string, per_definition_text,
    place_string, place_text, tree_string, tree_text,
};
use crate::colors::{
    blue, blue_text, bold, bold_text, cyan, cyan_text, green, green_text, grey, grey_text, magenta,
    magenta_text, red, red_text, yellow, yellow_text,
};
use crate::keyed::{keep_rows, kept_is_a_filter, occurrences};
use crate::names::NameMap;
use crate::resolution::IndirectCaller;
use crate::text::{decimal, decimal_of, decimal_of_wide, join, joined, str_eq, texts};
use crate::types::{
    CalleeDefinition, FunctionInfo, ParameterDispatch, ParameterInfo, UnresolvedEdge,
};

verus! {

pub open spec fn candidate_lines(candidates: Seq<(String, String, u32)>) -> Seq<char>
    decreases candidates.len(),
{
    if candidates.len() == 0 {
        Seq::empty()
    } else {
        let c = candidates.last();
        candidate_lines(candidates.drop_last()) + "  "@ + cyan_text(c.0@) + " "@ + grey_text(
            "("@ + c.1@ + ":"@ + decimal(c.2 as nat) + ")"@,
        ) + "\n"@
    }
}

/// A call through a parameter, with the first of what callers hand to it.
pub open spec fn dispatch_text(d: ParameterDispatch) -> Seq<char> {
    green_text(bold_text("Through a parameter:"@)) + " "@ + place_text(d.file_path@, d.line)
        + " calls through "@ + cyan_text(d.parameter@) + " (parameter "@ + decimal(
        d.position as nat,
    ) + "), which its callers hand:\n"@ + candidate_lines(
        d.candidates@.take(at_most(d.candidates@.len(), 12) as int),
    ) + (if d.candidates@.len() > 12 {
        "  ... and "@ + decimal((d.candidates@.len() - 12) as nat) + " more\n"@
    } else {
        Seq::empty()
    })
}

pub open spec fn dispatches_text(dispatches: Seq<ParameterDispatch>) -> Seq<char>
    decreases dispatches.len(),
{
    if dispatches.len() == 0 {
        Seq::empty()
    } else {
        dispatches_text(dispatches.drop_last()) + dispatch_text(dispatches.last())
    }
}

fn dispatch_string(d: &ParameterDispatch) -> (r: String)
    ensures
        r@ == dispatch_text(*d),
{
    let mut out = green(bold("Through a parameter:").as_str());
    out.append(" ");
    out.append(place_string(d.file_path.as_str(), d.line).as_str());
    out.append(" calls through ");
    out.append(cyan(d.parameter.as_str()).as_str());
    out.append(" (parameter ");
    out.append(decimal_of(d.position as u64).as_str());
    out.append("), which its callers hand:\n");
    let mut lines = String::new();
    let mut i: usize = 0;
    assert(d.candidates@.take(0) =~= Seq::empty());
    while i < d.candidates.len() && i < 12
        invariant
            i <= d.candidates@.len(),
            i <= 12,
            lines@ == candidate_lines(d.candidates@.take(i as int)),
        decreases d.candidates@.len() - i,
    {
        proof {
            assert(d.candidates@.take(i + 1).drop_last() =~= d.candidates@.take(i as int));
            assert(d.candidates@.take(i + 1).last() == d.candidates@[i as int]);
        }
        let c = &d.candidates[i];
        let mut place = String::from_str("(");
        place.append(c.1.as_str());
        place.append(":");
        place.append(decimal_of(c.2 as u64).as_str());
        place.append(")");
        lines.append("  ");
        lines.append(cyan(c.0.as_str()).as_str());
        lines.append(" ");
        lines.append(grey(place.as_str()).as_str());
        lines.append("\n");
        i += 1;
    }
    out.append(lines.as_str());
    let mut more = String::new();
    if d.candidates.len() > 12 {
        more = String::from_str("  ... and ");
        more.append(decimal_of((d.candidates.len() - 12) as u64).as_str());
        more.append(" more\n");
    }
    out.append(more.as_str());
    out
}

fn dispatches_string(dispatches: &Vec<ParameterDispatch>) -> (r: String)
    ensures
        r@ == dispatches_text(dispatches@),
{
    let mut out = String::new();
    let mut i: usize = 0;
    assert(dispatches@.take(0) =~= Seq::empty());
    while i < dispatches.len()
        invariant
            i <= dispatches@.len(),
            out@ == dispatches_text(dispatches@.take(i as int)),
        decreases dispatches@.len() - i,
    {
        proof {
            assert(dispatches@.take(i + 1).drop_last() =~= dispatches@.take(i as int));
            assert(dispatches@.take(i + 1).last() == dispatches@[i as int]);
        }
        out.append(dispatch_string(&dispatches[i]).as_str());
        i += 1;
    }
    assert(dispatches@.take(i as int) =~= dispatches@);
    out
}

/// The edges out of a function that the index cannot record.
pub open spec fn unresolved_text(edges: Seq<UnresolvedEdge>) -> Seq<char>
    decreases edges.len(),
{
    if edges.len() == 0 {
        Seq::empty()
    } else {
        let before = unresolved_text(edges.drop_last());
        let e = edges.last();
        if e.direction@ == "out"@ {
            before + green_text(bold_text("Unresolved:"@)) + " a call here goes to "@ + cyan_text(
                e.evidence@,
            ) + ", which this file does not name: "@ + grey_text(locations_text(e.locations@))
                + "\n"@
        } else {
            before
        }
    }
}

fn unresolved_string(edges: &Vec<UnresolvedEdge>) -> (r: String)
    ensures
        r@ == unresolved_text(edges@),
{
    let mut out = String::new();
    let mut i: usize = 0;
    assert(edges@.take(0) =~= Seq::empty());
    while i < edges.len()
        invariant
            i <= edges@.len(),
            out@ == unresolved_text(edges@.take(i as int)),
        decreases edges@.len() - i,
    {
        proof {
            assert(edges@.take(i + 1).drop_last() =~= edges@.take(i as int));
            assert(edges@.take(i + 1).last() == edges@[i as int]);
        }
        let e = &edges[i];
        if str_eq(e.direction.as_str(), "out") {
            out.append(green(bold("Unresolved:").as_str()).as_str());
            out.append(" a call here goes to ");
            out.append(cyan(e.evidence.as_str()).as_str());
            out.append(", which this file does not name: ");
            out.append(grey(describe_locations(e.locations.as_slice()).as_str()).as_str());
            out.append("\n");
        }
        i += 1;
    }
    assert(edges@.take(i as int) =~= edges@);
    out
}

/// What was found of what a function calls.
pub struct CalleesFound {
    pub func: FunctionInfo,
    pub dispatches: Vec<ParameterDispatch>,
    pub unresolved: Vec<UnresolvedEdge>,
    /// Every row for the name: definitions and declarations.
    pub definitions: Vec<CalleeDefinition>,
    /// What is known of each callee of the only definition, where it was asked
    /// for.
    pub callee_infos: Vec<Option<FunctionInfo>>,
}

/// The definitions of a name: a declaration answers nothing about what it calls.
pub open spec fn answering(definitions: Seq<CalleeDefinition>) -> Seq<CalleeDefinition> {
    definitions.filter(|d: CalleeDefinition| d.is_definition)
}

/// The definitions of a name.
pub fn keep_definitions(definitions: Vec<CalleeDefinition>) -> (r: Vec<CalleeDefinition>)
    ensures
        r@ == answering(definitions@),
{
    let mut flags: Vec<bool> = Vec::new();
    let mut i: usize = 0;
    while i < definitions.len()
        invariant
            i <= definitions@.len(),
            flags@.len() == i,
            forall|j: int| 0 <= j < i ==> #[trigger] flags@[j] == definitions@[j].is_definition,
        decreases definitions@.len() - i,
    {
        flags.push(definitions[i].is_definition);
        i += 1;
    }
    proof {
        kept_is_a_filter(definitions@, flags@, |d: CalleeDefinition| d.is_definition);
    }
    keep_rows(definitions, &flags)
}

/// What the only definition calls.
pub open spec fn only_callees(answering: Seq<CalleeDefinition>) -> Seq<Seq<char>> {
    if answering.len() == 0 {
        Seq::empty()
    } else {
        texts(answering[0].callees@)
    }
}

/// The functions that the only definition calls by name.
pub open spec fn direct_callees_text(
    name: Seq<char>,
    verbose: bool,
    git_sha: Seq<char>,
    func: FunctionInfo,
    callees: Seq<Seq<char>>,
    infos: Seq<Option<FunctionInfo>>,
) -> Seq<char> {
    if callees.len() == 0 {
        yellow_text("Info:"@) + " Function '"@ + name + "' doesn't call any other functions\n"@
    } else {
        green_heading("=== Direct Callees ==="@) + (if verbose {
            verbose_text(name, func, git_sha)
        } else {
            Seq::empty()
        }) + "'"@ + name + "' directly calls "@ + decimal(callees.len()) + " functions:\n"@
            + listed_text(
            callees,
            if verbose {
                infos
            } else {
                Seq::empty()
            },
        )
    }
}

/// What a function calls. A name with more than one definition has more than one
/// answer, and each is reported.
pub open spec fn callees_text(
    name: Seq<char>,
    verbose: bool,
    git_sha: Seq<char>,
    found: Option<CalleesFound>,
) -> Seq<char> {
    let asked = "Finding all functions called by: "@ + cyan_text(name) + "\n"@;
    match found {
        None => asked + unknown_function_text(name),
        Some(found) => {
            let rows = found.definitions@.len();
            let defs = answering(found.definitions@);
            let known = asked + dispatches_text(found.dispatches@) + unresolved_text(
                found.unresolved@,
            );
            if defs.len() > 1 {
                known + per_definition_text(name, rows, defs)
            } else {
                known + (if rows > defs.len() {
                    yellow_text("Note:"@) + " "@ + decimal((rows - defs.len()) as nat) + " of the "@
                        + decimal(rows) + " rows for '"@ + name
                        + "' declare it without defining it.\n"@
                } else {
                    Seq::empty()
                }) + direct_callees_text(
                    name,
                    verbose,
                    git_sha,
                    found.func,
                    only_callees(defs),
                    found.callee_infos@,
                )
            }
        },
    }
}

fn direct_callees_string(
    name: &str,
    verbose: bool,
    git_sha: &str,
    func: &FunctionInfo,
    callees: &Vec<String>,
    infos: &Vec<Option<FunctionInfo>>,
) -> (r: String)
    ensures
        r@ == direct_callees_text(name@, verbose, git_sha@, *func, texts(callees@), infos@),
{
    if callees.len() == 0 {
        let mut out = yellow("Info:");
        out.append(" Function '");
        out.append(name);
        out.append("' doesn't call any other functions\n");
        out
    } else {
        let mut out = green_heading_string("=== Direct Callees ===");
        let mut full = String::new();
        if verbose {
            full = verbose_string(name, func, git_sha);
        }
        out.append(full.as_str());
        out.append("'");
        out.append(name);
        out.append("' directly calls ");
        out.append(decimal_of(callees.len() as u64).as_str());
        out.append(" functions:\n");
        if verbose {
            out.append(listed_string(callees, infos).as_str());
        } else {
            let none: Vec<Option<FunctionInfo>> = Vec::new();
            assert(none@ =~= Seq::empty());
            out.append(listed_string(callees, &none).as_str());
        }
        out
    }
}

/// Writes what a function calls.
pub fn show_callees_to_writer(
    name: &str,
    verbose: bool,
    git_sha: &str,
    found: Option<CalleesFound>,
    writer: &mut String,
)
    ensures
        final(writer)@ == old(writer)@ + callees_text(name@, verbose, git_sha@, found),
{
    let mut out = String::from_str("Finding all functions called by: ");
    out.append(cyan(name).as_str());
    out.append("\n");
    match found {
        None => {
            out.append(unknown_function_string(name).as_str());
        },
        Some(found) => {
            out.append(dispatches_string(&found.dispatches).as_str());
            out.append(unresolved_string(&found.unresolved).as_str());
            let rows: usize = found.definitions.len();
            let defs = keep_definitions(found.definitions);
            if defs.len() > 1 {
                out.append(per_definition_string(name, rows, defs.as_slice()).as_str());
            } else {
                let mut note = String::new();
                if rows > defs.len() {
                    note = yellow("Note:");
                    note.append(" ");
                    note.append(decimal_of((rows - defs.len()) as u64).as_str());
                    note.append(" of the ");
                    note.append(decimal_of(rows as u64).as_str());
                    note.append(" rows for '");
                    note.append(name);
                    note.append("' declare it without defining it.\n");
                }
                out.append(note.as_str());
                let none: Vec<String> = Vec::new();
                assert(texts(none@) =~= Seq::empty());
                let callees = if defs.len() == 0 {
                    &none
                } else {
                    &defs[0].callees
                };
                out.append(
                    direct_callees_string(
                        name,
                        verbose,
                        git_sha,
                        &found.func,
                        callees,
                        &found.callee_infos,
                    ).as_str(),
                );
            }
        },
    }
    writer.append(out.as_str());
}

/// What an entry of the chain through function pointers is filed under: the
/// dispatching function, or the place of a dispatch outside any.
pub open spec fn dispatch_key(caller: IndirectCaller) -> Seq<char> {
    if caller.caller_name@.len() == 0 {
        caller.site_file@ + ":"@ + decimal(caller.site_line as nat)
    } else {
        caller.caller_name@
    }
}

pub open spec fn dispatch_keys(indirect: Seq<IndirectCaller>) -> Seq<Seq<char>> {
    indirect.map_values(|c: IndirectCaller| dispatch_key(c))
}

/// Dispatches of one function through a pointer: one way in, however many sites.
pub struct DispatchGroup {
    /// The first site.
    pub first: usize,
    /// How many sites there are.
    pub sites: usize,
}

/// The places where a key occurs for the first time, in order.
pub open spec fn first_places(keys: Seq<Seq<char>>) -> Seq<int>
    decreases keys.len(),
{
    if keys.len() == 0 {
        Seq::empty()
    } else if keys.drop_last().contains(keys.last()) {
        first_places(keys.drop_last())
    } else {
        first_places(keys.drop_last()).push(keys.len() - 1)
    }
}

fn dispatch_key_string(caller: &IndirectCaller) -> (r: String)
    ensures
        r@ == dispatch_key(*caller),
{
    if caller.caller_name.as_str().is_empty() {
        let mut out = caller.site_file.clone();
        out.append(":");
        out.append(decimal_of(caller.site_line as u64).as_str());
        out
    } else {
        caller.caller_name.clone()
    }
}

/// The dispatching functions, in the order they were found, each with how many
/// sites it has.
pub fn dispatch_groups(indirect: &[IndirectCaller]) -> (r: Vec<DispatchGroup>)
    ensures
        r@.map_values(|g: DispatchGroup| g.first as int) == first_places(dispatch_keys(indirect@)),
        forall|i: int|
            0 <= i < r@.len() ==> (#[trigger] r@[i]).first < indirect@.len() && r@[i].sites
                == occurrences(
                dispatch_keys(indirect@),
                dispatch_keys(indirect@)[r@[i].first as int],
            ),
{
    let ghost keys = dispatch_keys(indirect@);
    let mut names: Vec<String> = Vec::new();
    let mut i: usize = 0;
    while i < indirect.len()
        invariant
            i <= indirect@.len(),
            keys == dispatch_keys(indirect@),
            names@.len() == i,
            forall|j: int| 0 <= j < i ==> (#[trigger] names@[j])@ == keys[j],
        decreases indirect@.len() - i,
    {
        names.push(dispatch_key_string(&indirect[i]));
        i += 1;
    }
    let mut out: Vec<DispatchGroup> = Vec::new();
    let ghost place = |g: DispatchGroup| g.first as int;
    let mut at: usize = 0;
    assert(keys.take(0) =~= Seq::empty());
    assert(out@.map_values(place) =~= Seq::empty());
    while at < names.len()
        invariant
            at <= names@.len(),
            names@.len() == indirect@.len(),
            keys == dispatch_keys(indirect@),
            keys.len() == indirect@.len(),
            place == (|g: DispatchGroup| g.first as int),
            forall|j: int| 0 <= j < names@.len() ==> (#[trigger] names@[j])@ == keys[j],
            out@.map_values(place) == first_places(keys.take(at as int)),
            forall|k: int|
                0 <= k < out@.len() ==> (#[trigger] out@[k]).first < indirect@.len()
                    && out@[k].sites == occurrences(keys, keys[out@[k].first as int]),
        decreases names@.len() - at,
    {
        let ghost next = keys.take(at + 1);
        assert(next.drop_last() =~= keys.take(at as int));
        let mut known = false;
        let mut sites: usize = 0;
        let mut j: usize = 0;
        assert(keys.take(0) =~= Seq::empty());
        while j < names.len()
            invariant
                j <= names@.len(),
                at < names@.len(),
                keys.len() == names@.len(),
                forall|k: int| 0 <= k < names@.len() ==> (#[trigger] names@[k])@ == keys[k],
                sites <= j,
                sites == occurrences(keys.take(j as int), keys[at as int]),
                known == (exists|k: int| 0 <= k < j && k < at && #[trigger] keys[k] == keys[at as int]),
            decreases names@.len() - j,
        {
            assert(keys.take(j + 1).drop_last() =~= keys.take(j as int));
            assert(keys.take(j + 1).last() == keys[j as int]);
            if str_eq(names[j].as_str(), names[at].as_str()) {
                sites += 1;
                if j < at {
                    assert(keys[j as int] == keys[at as int]);
                    known = true;
                }
            }
            j += 1;
        }
        assert(keys.take(j as int) =~= keys);
        assert(known == next.drop_last().contains(next.last())) by {
            if known {
                let k = choose|k: int| 0 <= k < at && #[trigger] keys[k] == keys[at as int];
                assert(next.drop_last()[k] == next.last());
            }
            if next.drop_last().contains(next.last()) {
                let k = choose|k: int|
                    0 <= k < next.drop_last().len() && next.drop_last()[k] == next.last();
                assert(keys[k] == keys[at as int]);
            }
        }
        if !known {
            let ghost held = out@;
            let group = DispatchGroup { first: at, sites };
            out.push(group);
            assert(out@.map_values(place) =~= held.map_values(place).push(at as int));
        }
        at += 1;
    }
    assert(keys.take(at as int) =~= keys);
    out
}

/// How many dispatching functions are shown: as many as asked for, and at least
/// one.
pub open spec fn shown_of(groups: nat, limit: nat) -> nat {
    at_most(
        groups,
        if limit == 0 {
            1
        } else {
            limit
        },
    )
}

/// How many dispatching functions are shown.
pub fn shown_count(groups: usize, limit: usize) -> (r: usize)
    ensures
        r == shown_of(groups as nat, limit as nat),
{
    let wanted: usize = if limit == 0 {
        1
    } else {
        limit
    };
    if groups < wanted {
        groups
    } else {
        wanted
    }
}

/// Whether the name of a dispatching function belongs to the code its site is
/// in: it has one definition, in the same file. A chain above the site can only
/// be walked by name, so otherwise there is none.
pub fn names_the_site(definitions: &[FunctionInfo], site_file: &str) -> (r: bool)
    ensures
        r == (definitions@.len() == 1 && definitions@[0].file_path@ == site_file@),
{
    definitions.len() == 1 && str_eq(definitions[0].file_path.as_str(), site_file)
}

/// One dispatching function, with the callers above it where they are known.
pub open spec fn dispatch_entry(
    first: IndirectCaller,
    sites: nat,
    above: Option<CallNode>,
    depth: nat,
) -> Seq<char> {
    let more = if sites > 1 {
        " ("@ + decimal(sites) + " sites)"@
    } else {
        ""@
    };
    if first.caller_name@.len() == 0 {
        yellow_text("STORE"@) + " at "@ + place_text(first.site_file@, first.site_line)
            + " dispatches "@ + first.member@ + more + "\n"@
    } else {
        yellow_text(first.caller_name@) + " ("@ + place_text(first.site_file@, first.site_line)
            + ") dispatches "@ + first.member@ + more + "\n"@ + (match above {
            Some(chain) => if depth > 0 {
                above_all_text(chain.children@, 1, depth)
            } else {
                Seq::empty()
            },
            None => Seq::empty(),
        })
    }
}

fn dispatch_entry_string(
    first: &IndirectCaller,
    sites: usize,
    above: &Option<CallNode>,
    depth: usize,
) -> (r: String)
    requires
        depth < usize::MAX,
    ensures
        r@ == dispatch_entry(*first, sites as nat, *above, depth as nat),
{
    let mut more = String::from_str("");
    if sites > 1 {
        more = String::from_str(" (");
        more.append(decimal_of(sites as u64).as_str());
        more.append(" sites)");
    }
    if first.caller_name.as_str().is_empty() {
        let mut out = yellow("STORE");
        out.append(" at ");
        out.append(place_string(first.site_file.as_str(), first.site_line).as_str());
        out.append(" dispatches ");
        out.append(first.member.as_str());
        out.append(more.as_str());
        out.append("\n");
        out
    } else {
        let mut out = yellow(first.caller_name.as_str());
        out.append(" (");
        out.append(place_string(first.site_file.as_str(), first.site_line).as_str());
        out.append(") dispatches ");
        out.append(first.member.as_str());
        out.append(more.as_str());
        out.append("\n");
        let mut chain_text = String::new();
        if let Some(chain) = above {
            if depth > 0 {
                chain_text = above_all_string(&chain.children, 1, depth);
            }
        }
        out.append(chain_text.as_str());
        out
    }
}

/// The entries of the first dispatching functions.
pub open spec fn dispatch_entries(
    indirect: Seq<IndirectCaller>,
    aboves: Seq<Option<CallNode>>,
    depth: nat,
    shown: nat,
) -> Seq<char>
    decreases shown,
{
    if shown == 0 {
        Seq::empty()
    } else {
        let i = shown - 1;
        let keys = dispatch_keys(indirect);
        let first = first_places(keys)[i];
        dispatch_entries(indirect, aboves, depth, (shown - 1) as nat) + dispatch_entry(
            indirect[first],
            occurrences(keys, keys[first]),
            if i < aboves.len() {
                aboves[i]
            } else {
                None
            },
            depth,
        )
    }
}

/// The sites that reach a function through a pointer, and the chain above each.
pub open spec fn indirect_chain_text(
    indirect: Seq<IndirectCaller>,
    aboves: Seq<Option<CallNode>>,
    depth: nat,
    limit: nat,
) -> Seq<char> {
    let groups = first_places(dispatch_keys(indirect)).len();
    let shown = shown_of(groups, limit);
    if indirect.len() == 0 {
        Seq::empty()
    } else {
        "\n"@ + magenta_text(bold_text("=== Reverse Chain (Through a Function Pointer) ==="@))
            + "\n"@ + dispatch_entries(indirect, aboves, depth, shown) + (if groups > shown {
            grey_text("... and "@ + decimal((groups - shown) as nat) + " more dispatching sites"@)
                + "\n"@
        } else {
            Seq::empty()
        })
    }
}

/// Writes the sites that reach a function through a pointer, and the chain above
/// each, and says how many dispatching functions it showed. `aboves` holds the
/// reverse chains of the dispatching functions, in order, where they are known.
pub fn write_indirect_reverse_chain(
    indirect: &[IndirectCaller],
    aboves: &Vec<Option<CallNode>>,
    depth: usize,
    limit: usize,
    writer: &mut String,
) -> (shown: usize)
    requires
        depth < usize::MAX,
    ensures
        final(writer)@ == old(writer)@ + indirect_chain_text(
            indirect@,
            aboves@,
            depth as nat,
            limit as nat,
        ),
        shown == (if indirect@.len() == 0 {
            0
        } else {
            shown_of(first_places(dispatch_keys(indirect@)).len(), limit as nat)
        }),
{
    if indirect.len() == 0 {
        assert(writer@ + Seq::<char>::empty() =~= writer@);
        return 0;
    }
    let groups = dispatch_groups(indirect);
    let ghost places = groups@.map_values(|g: DispatchGroup| g.first as int);
    let shown = shown_count(groups.len(), limit);
    let mut out = String::from_str("\n");
    out.append(
        magenta(bold("=== Reverse Chain (Through a Function Pointer) ===").as_str()).as_str(),
    );
    out.append("\n");
    let mut entries = String::new();
    let none: Option<CallNode> = None;
    let mut i: usize = 0;
    while i < shown
        invariant
            i <= shown <= groups@.len(),
            depth < usize::MAX,
            none is None,
            places == groups@.map_values(|g: DispatchGroup| g.first as int),
            places == first_places(dispatch_keys(indirect@)),
            forall|k: int|
                0 <= k < groups@.len() ==> (#[trigger] groups@[k]).first < indirect@.len()
                    && groups@[k].sites == occurrences(
                    dispatch_keys(indirect@),
                    dispatch_keys(indirect@)[groups@[k].first as int],
                ),
            entries@ == dispatch_entries(indirect@, aboves@, depth as nat, i as nat),
        decreases shown - i,
    {
        let group = &groups[i];
        assert(places[i as int] == group.first);
        let above = if i < aboves.len() {
            &aboves[i]
        } else {
            &none
        };
        entries.append(
            dispatch_entry_string(&indirect[group.first], group.sites, above, depth).as_str(),
        );
        i += 1;
    }
    out.append(entries.as_str());
    let mut rest = String::new();
    if groups.len() > shown {
        let mut left = String::from_str("... and ");
        left.append(decimal_of((groups.len() - shown) as u64).as_str());
        left.append(" more dispatching sites");
        rest = grey(left.as_str());
        rest.append("\n");
    }
    out.append(rest.as_str());
    writer.append(out.as_str());
    shown
}

pub open spec fn parameter_lines(parameters: Seq<ParameterInfo>) -> Seq<char>
    decreases parameters.len(),
{
    if parameters.len() == 0 {
        Seq::empty()
    } else {
        parameter_lines(parameters.drop_last()) + "  - "@ + parameters.last().declared_type@ + " "@
            + parameters.last().name@ + "\n"@
    }
}

/// The function that a call chain is about.
pub open spec fn chain_subject_text(func: FunctionInfo) -> Seq<char> {
    green_text(bold_text("=== Function Call Chain ==="@)) + "\n"@ + "Function: "@ + func.name@
        + " ("@ + func.file_path@ + ":"@ + decimal(func.line_start as nat) + ")\n"@
        + "Return Type: "@ + func.return_type@ + "\n"@ + (if func.parameters@.len() == 0 {
        Seq::empty()
    } else {
        "Parameters:\n"@ + parameter_lines(func.parameters@)
    })
}

fn chain_subject_string(func: &FunctionInfo) -> (r: String)
    ensures
        r@ == chain_subject_text(*func),
{
    let mut out = green(bold("=== Function Call Chain ===").as_str());
    out.append("\n");
    out.append("Function: ");
    out.append(func.name.as_str());
    out.append(" (");
    out.append(func.file_path.as_str());
    out.append(":");
    out.append(decimal_of(func.line_start as u64).as_str());
    out.append(")\n");
    out.append("Return Type: ");
    out.append(func.return_type.as_str());
    out.append("\n");
    let mut parameters = String::new();
    if func.parameters.len() != 0 {
        parameters = String::from_str("Parameters:\n");
        let mut lines = String::new();
        let mut i: usize = 0;
        assert(func.parameters@.take(0) =~= Seq::empty());
        while i < func.parameters.len()
            invariant
                i <= func.parameters@.len(),
                lines@ == parameter_lines(func.parameters@.take(i as int)),
            decreases func.parameters@.len() - i,
        {
            proof {
                assert(func.parameters@.take(i + 1).drop_last() =~= func.parameters@.take(
                    i as int,
                ));
                assert(func.parameters@.take(i + 1).last() == func.parameters@[i as int]);
            }
            lines.append("  - ");
            lines.append(func.parameters[i].declared_type.as_str());
            lines.append(" ");
            lines.append(func.parameters[i].name.as_str());
            lines.append("\n");
            i += 1;
        }
        assert(func.parameters@.take(i as int) =~= func.parameters@);
        parameters.append(lines.as_str());
    }
    out.append(parameters.as_str());
    out
}

/// What was found of the chain a function stands in.
pub struct ChainFound {
    pub func: FunctionInfo,
    /// The chain of callers, where the function has callers.
    pub reverse: Option<CallNode>,
    /// The sites that reach it through a pointer.
    pub indirect: Vec<IndirectCaller>,
    pub aboves: Vec<Option<CallNode>>,
    /// The chain of callees, where the function calls others.
    pub forward: Option<CallNode>,
}

/// How many levels are shown above a dispatching function.
pub const DISPATCH_DEPTH: usize = 2;

/// How many dispatching functions are shown in a call chain.
pub const DISPATCH_LIMIT: usize = 10;

/// The chain a function stands in: who leads to it, directly and through a
/// pointer, and what it leads to.
pub open spec fn callchain_answer(name: Seq<char>, found: Option<ChainFound>) -> Seq<char> {
    let asked = "Building call chain for: "@ + cyan_text(name) + "\n"@;
    match found {
        None => asked + red_text("Error:"@) + " Function '"@ + name + "' not found in database\n"@,
        Some(found) => asked + chain_subject_text(found.func) + (match found.reverse {
            Some(chain) => "\n"@ + magenta_text(bold_text("=== Reverse Chain (Callers) ==="@))
                + "\n"@ + tree_text(chain, 0),
            None => Seq::empty(),
        }) + indirect_chain_text(found.indirect@, found.aboves@, 2, 10) + (match found.forward {
            Some(chain) => "\n"@ + blue_text(bold_text("=== Forward Chain (Callees) ==="@)) + "\n"@
                + tree_text(chain, 0),
            None => Seq::empty(),
        }) + (if found.reverse is None && found.forward is None && found.indirect@.len() == 0 {
            "\n"@ + yellow_text("Info:"@)
                + " This function is isolated (no callers or callees)\n"@
        } else {
            Seq::empty()
        }),
    }
}

proof fn lemma_some_group(keys: Seq<Seq<char>>)
    requires
        keys.len() > 0,
    ensures
        first_places(keys).len() > 0,
    decreases keys.len(),
{
    if keys.drop_last().len() > 0 {
        lemma_some_group(keys.drop_last());
    }
}

/// Writes the chain a function stands in.
pub fn show_callchain_to_writer(name: &str, found: &Option<ChainFound>, writer: &mut String)
    requires
        found matches Some(found) ==> {
            &&& (found.reverse matches Some(chain) ==> tree_height(chain) <= usize::MAX)
            &&& (found.forward matches Some(chain) ==> tree_height(chain) <= usize::MAX)
        },
    ensures
        final(writer)@ == old(writer)@ + callchain_answer(name@, *found),
{
    let mut out = String::from_str("Building call chain for: ");
    out.append(cyan(name).as_str());
    out.append("\n");
    match found {
        None => {
            out.append(red("Error:").as_str());
            out.append(" Function '");
            out.append(name);
            out.append("' not found in database\n");
        },
        Some(found) => {
            out.append(chain_subject_string(&found.func).as_str());
            let mut callers = String::new();
            if let Some(chain) = &found.reverse {
                callers = String::from_str("\n");
                callers.append(magenta(bold("=== Reverse Chain (Callers) ===").as_str()).as_str());
                callers.append("\n");
                callers.append(tree_string(chain, 0).as_str());
            }
            out.append(callers.as_str());
            let dispatched = write_indirect_reverse_chain(
                found.indirect.as_slice(),
                &found.aboves,
                DISPATCH_DEPTH,
                DISPATCH_LIMIT,
                &mut out,
            );
            proof {
                if found.indirect@.len() > 0 {
                    lemma_some_group(dispatch_keys(found.indirect@));
                }
            }
            let mut callees = String::new();
            if let Some(chain) = &found.forward {
                callees = String::from_str("\n");
                callees.append(blue(bold("=== Forward Chain (Callees) ===").as_str()).as_str());
                callees.append("\n");
                callees.append(tree_string(chain, 0).as_str());
            }
            out.append(callees.as_str());
            let mut isolated = String::new();
            if found.reverse.is_none() && found.forward.is_none() && dispatched == 0 {
                isolated = String::from_str("\n");
                isolated.append(yellow("Info:").as_str());
                isolated.append(" This function is isolated (no callers or callees)\n");
            }
            out.append(isolated.as_str());
        },
    }
    writer.append(out.as_str());
}

/// How many calls a path to a function may have.
pub const PATH_DEPTH: usize = 10;

/// The paths from an entry point to a function.
pub open spec fn paths_from(
    functions: Map<Seq<char>, Vec<FunctionInfo>>,
    calls: CallRelationships,
    entry: Seq<char>,
    target: Seq<char>,
) -> Seq<NamePath> {
    if entry == target {
        seq![seq![entry]]
    } else {
        search_after(functions, calls, entry, target, 10, 10).found
    }
}

pub open spec fn path_lines(paths: Seq<NamePath>) -> Seq<char>
    decreases paths.len(),
{
    if paths.len() == 0 {
        Seq::empty()
    } else {
        path_lines(paths.drop_last()) + "  "@ + number_text(paths.len()) + ". "@ + cyan_text(
            joined(paths.last(), " → "@),
        ) + "\n"@
    }
}

/// The paths from one entry point, where there are any.
pub open spec fn entry_text(entry: Seq<char>, paths: Seq<NamePath>) -> Seq<char> {
    if paths.len() == 0 {
        Seq::empty()
    } else {
        "\n"@ + cyan_text(bold_text("Entry:"@)) + " From '"@ + entry + "' ("@ + decimal(paths.len())
            + " paths found):\n"@ + path_lines(paths)
    }
}

pub open spec fn entries_text(
    functions: Map<Seq<char>, Vec<FunctionInfo>>,
    calls: CallRelationships,
    entries: Seq<Seq<char>>,
    target: Seq<char>,
) -> Seq<char>
    decreases entries.len(),
{
    if entries.len() == 0 {
        Seq::empty()
    } else {
        entries_text(functions, calls, entries.drop_last(), target) + entry_text(
            entries.last(),
            paths_from(functions, calls, entries.last(), target),
        )
    }
}

/// How many paths there are from all entry points together.
pub open spec fn paths_total(
    functions: Map<Seq<char>, Vec<FunctionInfo>>,
    calls: CallRelationships,
    entries: Seq<Seq<char>>,
    target: Seq<char>,
) -> nat
    decreases entries.len(),
{
    if entries.len() == 0 {
        0
    } else {
        paths_total(functions, calls, entries.drop_last(), target) + paths_from(
            functions,
            calls,
            entries.last(),
            target,
        ).len()
    }
}

/// All paths from entry points to a function.
pub open spec fn all_paths_text(
    target: Seq<char>,
    target_exists: bool,
    entries: Seq<Seq<char>>,
    functions: Map<Seq<char>, Vec<FunctionInfo>>,
    calls: CallRelationships,
) -> Seq<char> {
    let asked = "Finding all paths that lead to function: "@ + cyan_text(target) + "\n"@;
    if !target_exists {
        asked + red_text("Error:"@) + " Target function '"@ + target
            + "' not found in database\n"@
    } else {
        let total = paths_total(functions, calls, entries, target);
        asked + green_text(bold_text("=== Path Analysis ==="@)) + "\n"@ + "Target function: "@
            + target + "\n"@ + "Found "@ + decimal(entries.len()) + " potential entry points\n"@
            + entries_text(functions, calls, entries, target) + (if total == 0 {
            "\n"@ + yellow_text("Info:"@) + " No execution paths found to '"@ + target + "'\n"@
                + "This function may be an entry point itself or unreachable\n"@
        } else {
            "\n"@ + green_text(bold_text("Summary:"@)) + " Total paths found: "@ + decimal(total)
                + "\n"@
        })
    }
}

fn entry_string(entry: &str, paths: &Vec<Vec<String>>) -> (r: String)
    requires
        paths@.len() > 0,
    ensures
        r@ == entry_text(entry@, path_texts(paths@)),
{
    let ghost all = path_texts(paths@);
    let mut out = String::from_str("\n");
    out.append(cyan(bold("Entry:").as_str()).as_str());
    out.append(" From '");
    out.append(entry);
    out.append("' (");
    out.append(decimal_of(paths.len() as u64).as_str());
    out.append(" paths found):\n");
    let mut lines = String::new();
    let mut i: usize = 0;
    assert(all.take(0) =~= Seq::empty());
    while i < paths.len()
        invariant
            i <= paths@.len(),
            all == path_texts(paths@),
            lines@ == path_lines(all.take(i as int)),
        decreases paths@.len() - i,
    {
        proof {
            assert(all.take(i + 1).drop_last() =~= all.take(i as int));
            assert(all.take(i + 1).last() == texts(paths@[i as int]@));
        }
        lines.append("  ");
        lines.append(number_string(i + 1).as_str());
        lines.append(". ");
        lines.append(cyan(join(&paths[i], " → ").as_str()).as_str());
        lines.append("\n");
        i += 1;
    }
    assert(all.take(i as int) =~= all);
    out.append(lines.as_str());
    out
}

/// Writes all paths from entry points to a function.
pub fn find_all_paths_to_writer(
    target_name: &str,
    target_exists: bool,
    entry_points: &Vec<String>,
    function_map: &NameMap<Vec<FunctionInfo>>,
    call_relationships: &CallRelationships,
    writer: &mut String,
)
    requires
        function_map.wf(),
        call_relationships.wf(),
    ensures
        final(writer)@ == old(writer)@ + all_paths_text(
            target_name@,
            target_exists,
            texts(entry_points@),
            function_map@,
            *call_relationships,
        ),
{
    let mut out = String::from_str("Finding all paths that lead to function: ");
    out.append(cyan(target_name).as_str());
    out.append("\n");
    if !target_exists {
        out.append(red("Error:").as_str());
        out.append(" Target function '");
        out.append(target_name);
        out.append("' not found in database\n");
        writer.append(out.as_str());
        return;
    }
    out.append(green(bold("=== Path Analysis ===").as_str()).as_str());
    out.append("\n");
    out.append("Target function: ");
    out.append(target_name);
    out.append("\n");
    out.append("Found ");
    out.append(decimal_of(entry_points.len() as u64).as_str());
    out.append(" potential entry points\n");
    let ghost entries = texts(entry_points@);
    let ghost functions = function_map@;
    let ghost calls = *call_relationships;
    let mut found = String::new();
    let mut total: u128 = 0;
    let mut i: usize = 0;
    assert(entries.take(0) =~= Seq::empty());
    while i < entry_points.len()
        invariant
            i <= entry_points@.len(),
            function_map.wf(),
            call_relationships.wf(),
            entries == texts(entry_points@),
            functions == function_map@,
            calls == *call_relationships,
            found@ == entries_text(functions, calls, entries.take(i as int), target_name@),
            total == paths_total(functions, calls, entries.take(i as int), target_name@),
            total <= i * usize::MAX,
        decreases entry_points@.len() - i,
    {
        let entry = entry_points[i].as_str();
        proof {
            assert(entries.take(i + 1).drop_last() =~= entries.take(i as int));
            assert(entries.take(i + 1).last() == entry@);
            assert((i + 1) * usize::MAX == i * usize::MAX + usize::MAX) by (nonlinear_arith);
            assert((i + 1) * usize::MAX <= usize::MAX * usize::MAX) by (nonlinear_arith)
                requires
                    i < usize::MAX,
            ;
            assert(usize::MAX * usize::MAX <= u128::MAX) by (nonlinear_arith)
                requires
                    usize::MAX <= 0xffff_ffff_ffff_ffff,
            ;
        }
        match find_paths_bfs(function_map, call_relationships, entry, target_name, PATH_DEPTH) {
            Some(paths) => {
                proof {
                    assert(path_texts(paths@).len() == paths@.len());
                    assert(path_texts(paths@) == paths_from(functions, calls, entry@, target_name@));
                }
                found.append(entry_string(entry, &paths).as_str());
                total = total + paths.len() as u128;
            },
            None => {
                assert(found@ + Seq::<char>::empty() =~= found@);
            },
        }
        i += 1;
    }
    assert(entries.take(i as int) =~= entries);
    out.append(found.as_str());
    if total == 0 {
        let mut none = String::from_str("\n");
        none.append(yellow("Info:").as_str());
        none.append(" No execution paths found to '");
        none.append(target_name);
        none.append("'\n");
        none.append("This function may be an entry point itself or unreachable\n");
        out.append(none.as_str());
    } else {
        let mut summary = String::from_str("\n");
        summary.append(green(bold("Summary:").as_str()).as_str());
        summary.append(" Total paths found: ");
        summary.append(decimal_of_wide(total).as_str());
        summary.append("\n");
        out.append(summary.as_str());
    }
    writer.append(out.as_str());
}

} // verus!
