//! Call chains: who calls whom, as trees and as paths.
use vstd::prelude::*;
use crate::names::{NameMap, NameSet};
use crate::text::{lemma_texts_push, str_eq, texts};
use crate::types::FunctionInfo;

verus! {

/// A function of a call chain, with the functions it leads to.
#[derive(Debug)]
pub struct CallNode {
    pub name: String,
    pub file: String,
    pub line: u32,
    pub children: Vec<CallNode>,
}

/// Call relationships of the functions of a chain.
pub struct CallRelationships {
    pub function_calls: NameMap<Vec<String>>,
    pub function_callers: NameMap<Vec<String>>,
}

impl CallRelationships {
    pub open spec fn wf(&self) -> bool {
        self.function_calls.wf() && self.function_callers.wf()
    }

    pub fn new() -> (r: Self)
        ensures
            r.wf(),
            r.function_calls@ == Map::<Seq<char>, Vec<String>>::empty(),
            r.function_callers@ == Map::<Seq<char>, Vec<String>>::empty(),
    {
        CallRelationships { function_calls: NameMap::new(), function_callers: NameMap::new() }
    }

    /// Takes in what a function calls and what calls it; a list without entries
    /// says nothing.
    pub fn record(&mut self, func_name: &str, callees: Vec<String>, callers: Vec<String>)
        requires
            old(self).wf(),
        ensures
            final(self).wf(),
            final(self).function_calls@ == (if callees@.len() > 0 {
                old(self).function_calls@.insert(func_name@, callees)
            } else {
                old(self).function_calls@
            }),
            final(self).function_callers@ == (if callers@.len() > 0 {
                old(self).function_callers@.insert(func_name@, callers)
            } else {
                old(self).function_callers@
            }),
    {
        if callees.len() > 0 {
            self.function_calls.insert(String::from_str(func_name), callees);
        }
        if callers.len() > 0 {
            self.function_callers.insert(String::from_str(func_name), callers);
        }
    }

    /// The functions next to one in a direction.
    pub open spec fn next(&self, name: Seq<char>, forward: bool) -> Seq<Seq<char>> {
        let lists = if forward {
            self.function_calls@
        } else {
            self.function_callers@
        };
        if lists.contains_key(name) {
            texts(lists[name]@)
        } else {
            Seq::empty()
        }
    }
}

/// Whether a name has a definition in a map of functions.
pub open spec fn is_defined(functions: Map<Seq<char>, Vec<FunctionInfo>>, name: Seq<char>) -> bool {
    functions.contains_key(name) && functions[name]@.len() > 0
}

/// Whether a node is the call chain of a function: where the depth is used up,
/// or the function is on the way to itself, or nothing is known of it, the chain
/// ends; else it goes on with every function next to it, in order.
pub open spec fn is_chain(
    node: CallNode,
    functions: Map<Seq<char>, Vec<FunctionInfo>>,
    calls: CallRelationships,
    name: Seq<char>,
    depth: nat,
    forward: bool,
    on_the_way: Seq<Seq<char>>,
) -> bool
    decreases depth,
{
    &&& node.name@ == name
    &&& if depth == 0 || on_the_way.contains(name) || !is_defined(functions, name) {
        &&& node.file@.len() == 0
        &&& node.line == 0
        &&& node.children@.len() == 0
    } else {
        let f = functions[name]@[0];
        let next = calls.next(name, forward);
        &&& node.file@ == f.file_path@
        &&& node.line == f.line_start
        &&& node.children@.len() == next.len()
        &&& forall|i: int|
            0 <= i < next.len() ==> is_chain(
                #[trigger] node.children@[i],
                functions,
                calls,
                next[i],
                (depth - 1) as nat,
                forward,
                on_the_way.push(name),
            )
    }
}

fn is_on_the_way(visited: &Vec<String>, name: &str) -> (r: bool)
    ensures
        r == texts(visited@).contains(name@),
{
    let mut i: usize = 0;
    while i < visited.len()
        invariant
            i <= visited@.len(),
            forall|j: int| 0 <= j < i ==> visited@[j]@ != name@,
        decreases visited@.len() - i,
    {
        if str_eq(visited[i].as_str(), name) {
            assert(texts(visited@)[i as int] == name@);
            return true;
        }
        i += 1;
    }
    assert(!texts(visited@).contains(name@)) by {
        if texts(visited@).contains(name@) {
            let j = choose|j: int|
                0 <= j < texts(visited@).len() && texts(visited@)[j] == name@;
            assert(visited@[j]@ == name@);
        }
    }
    false
}

/// The call chain of a function, to a depth. `visited` holds the functions on
/// the way from the start, so that a cycle ends where it closes; it is as it was
/// when the call returns.
pub fn build_callchain_recursive_sync(
    function_map: &NameMap<Vec<FunctionInfo>>,
    call_relationships: &CallRelationships,
    func_name: &str,
    remaining_depth: usize,
    forward: bool,
    visited: &mut Vec<String>,
) -> (node: CallNode)
    requires
        function_map.wf(),
        call_relationships.wf(),
    ensures
        is_chain(
            node,
            function_map@,
            *call_relationships,
            func_name@,
            remaining_depth as nat,
            forward,
            texts(old(visited)@),
        ),
        final(visited)@ == old(visited)@,
    decreases remaining_depth,
{
    let mut node = CallNode {
        name: String::from_str(func_name),
        file: String::new(),
        line: 0,
        children: Vec::new(),
    };
    if remaining_depth == 0 || is_on_the_way(visited, func_name) {
        return node;
    }
    let first = match function_map.get(func_name) {
        Some(functions) => if functions.len() > 0 {
            Some(&functions[0])
        } else {
            None
        },
        None => None,
    };
    if let Some(func) = first {
        let ghost way = texts(visited@);
        let ghost before = visited@;
        visited.push(String::from_str(func_name));
        assert(texts(visited@) =~= way.push(func_name@));
        node.file = func.file_path.clone();
        node.line = func.line_start;
        let next = if forward {
            call_relationships.function_calls.get(func_name)
        } else {
            call_relationships.function_callers.get(func_name)
        };
        if let Some(funcs) = next {
            let ghost names = call_relationships.next(func_name@, forward);
            let mut children: Vec<CallNode> = Vec::new();
            let mut i: usize = 0;
            while i < funcs.len()
                invariant
                    i <= funcs@.len(),
                    remaining_depth > 0,
                    function_map.wf(),
                    call_relationships.wf(),
                    names == texts(funcs@),
                    children@.len() == i,
                    texts(visited@) == way.push(func_name@),
                    visited@.len() > 0,
                    visited@.drop_last() == before,
                    forall|j: int|
                        0 <= j < i ==> is_chain(
                            #[trigger] children@[j],
                            function_map@,
                            *call_relationships,
                            names[j],
                            (remaining_depth - 1) as nat,
                            forward,
                            way.push(func_name@),
                        ),
                decreases funcs@.len() - i,
            {
                let child = build_callchain_recursive_sync(
                    function_map,
                    call_relationships,
                    funcs[i].as_str(),
                    remaining_depth - 1,
                    forward,
                    visited,
                );
                assert(names[i as int] == funcs@[i as int]@);
                children.push(child);
                i += 1;
            }
            node.children = children;
        }
        let _ = visited.pop();
        assert(visited@ =~= before);
    }
    node
}

/// How many levels a chain has.
pub open spec fn tree_height(node: CallNode) -> nat
    decreases node,
{
    1 + forest_height(node.children@)
}

/// How many levels the highest of some chains has.
pub open spec fn forest_height(nodes: Seq<CallNode>) -> nat
    decreases nodes,
{
    if nodes.len() == 0 {
        0
    } else {
        let before = forest_height(nodes.drop_last());
        let last = tree_height(nodes.last());
        if before < last {
            last
        } else {
            before
        }
    }
}

/// No chain of a list is higher than the highest.
pub proof fn lemma_forest_height(nodes: Seq<CallNode>, i: int)
    requires
        0 <= i < nodes.len(),
    ensures
        tree_height(nodes[i]) <= forest_height(nodes),
    decreases nodes.len(),
{
    if i < nodes.len() - 1 {
        lemma_forest_height(nodes.drop_last(), i);
    }
}

proof fn lemma_forest_height_bound(nodes: Seq<CallNode>, bound: nat)
    requires
        forall|i: int| 0 <= i < nodes.len() ==> tree_height(#[trigger] nodes[i]) <= bound,
    ensures
        forest_height(nodes) <= bound,
    decreases nodes.len(),
{
    if nodes.len() > 0 {
        assert(tree_height(nodes[nodes.len() - 1]) <= bound);
        assert forall|i: int| 0 <= i < nodes.len() - 1 implies tree_height(
            #[trigger] nodes.drop_last()[i],
        ) <= bound by {
            assert(tree_height(nodes[i]) <= bound);
        }
        lemma_forest_height_bound(nodes.drop_last(), bound);
    }
}

/// A chain built to a depth has no more than one level beyond it, however the
/// functions call one another.
pub proof fn chains_end(
    node: CallNode,
    functions: Map<Seq<char>, Vec<FunctionInfo>>,
    calls: CallRelationships,
    name: Seq<char>,
    depth: nat,
    forward: bool,
    on_the_way: Seq<Seq<char>>,
)
    requires
        is_chain(node, functions, calls, name, depth, forward, on_the_way),
    ensures
        tree_height(node) <= depth + 1,
    decreases depth,
{
    if !(depth == 0 || on_the_way.contains(name) || !is_defined(functions, name)) {
        let next = calls.next(name, forward);
        assert forall|i: int| 0 <= i < node.children@.len() implies tree_height(
            #[trigger] node.children@[i],
        ) <= depth by {
            chains_end(
                node.children@[i],
                functions,
                calls,
                next[i],
                (depth - 1) as nat,
                forward,
                on_the_way.push(name),
            );
        }
        lemma_forest_height_bound(node.children@, depth);
    }
}

/// A path of names.
pub type NamePath = Seq<Seq<char>>;

/// What a search knows at one level: the paths that end at the functions first
/// reached there, every function reached so far, and the complete paths.
pub struct Search {
    pub frontier: Seq<NamePath>,
    pub visited: Set<Seq<char>>,
    pub found: Seq<NamePath>,
}

/// A search before anything is followed.
pub open spec fn search_start(start: Seq<char>) -> Search {
    Search {
        frontier: seq![seq![start]],
        visited: Set::<Seq<char>>::empty().insert(start),
        found: Seq::empty(),
    }
}

/// Follows the calls of the last function of a path, in order: a call of the
/// target completes a path, and a call of a function not reached before starts
/// one of the next level, where there is one.
pub open spec fn follow_calls(
    s: Search,
    path: NamePath,
    callees: Seq<Seq<char>>,
    target: Seq<char>,
    deeper: bool,
) -> Search
    decreases callees.len(),
{
    if callees.len() == 0 {
        s
    } else {
        let before = follow_calls(s, path, callees.drop_last(), target, deeper);
        let callee = callees.last();
        if callee == target {
            Search { found: before.found.push(path.push(callee)), ..before }
        } else if deeper && !before.visited.contains(callee) {
            Search {
                frontier: before.frontier.push(path.push(callee)),
                visited: before.visited.insert(callee),
                ..before
            }
        } else {
            before
        }
    }
}

/// The functions a path's last function calls, where it is known.
pub open spec fn calls_of(
    functions: Map<Seq<char>, Vec<FunctionInfo>>,
    calls: CallRelationships,
    name: Seq<char>,
) -> Seq<Seq<char>> {
    if functions.contains_key(name) {
        calls.next(name, true)
    } else {
        Seq::empty()
    }
}

/// Follows every path of a level, in order, from what was known before it.
pub open spec fn follow_level(
    s: Search,
    paths: Seq<NamePath>,
    functions: Map<Seq<char>, Vec<FunctionInfo>>,
    calls: CallRelationships,
    target: Seq<char>,
    deeper: bool,
) -> Search
    decreases paths.len(),
{
    if paths.len() == 0 {
        Search { frontier: Seq::empty(), ..s }
    } else {
        let before = follow_level(s, paths.drop_last(), functions, calls, target, deeper);
        let path = paths.last();
        follow_calls(before, path, calls_of(functions, calls, path.last()), target, deeper)
    }
}

/// The search after some levels have been followed. The paths of the first level
/// have one name, and a path grows by one name at each level up to `max_depth`.
pub open spec fn search_after(
    functions: Map<Seq<char>, Vec<FunctionInfo>>,
    calls: CallRelationships,
    start: Seq<char>,
    target: Seq<char>,
    max_depth: nat,
    levels: nat,
) -> Search
    decreases levels,
{
    if levels == 0 {
        search_start(start)
    } else {
        let before = search_after(
            functions,
            calls,
            start,
            target,
            max_depth,
            (levels - 1) as nat,
        );
        follow_level(before, before.frontier, functions, calls, target, levels < max_depth)
    }
}

/// Whether a path is one along calls: each name but the last is of a known
/// function, which calls the next.
pub open spec fn is_call_path(
    functions: Map<Seq<char>, Vec<FunctionInfo>>,
    calls: CallRelationships,
    path: NamePath,
) -> bool {
    forall|i: int|
        0 <= i < path.len() - 1 ==> #[trigger] calls_of(functions, calls, path[i]).contains(
            path[i + 1],
        )
}

/// The texts of a list of lists.
pub open spec fn path_texts(paths: Seq<Vec<String>>) -> Seq<NamePath> {
    paths.map_values(|p: Vec<String>| texts(p@))
}

fn extended(path: &Vec<String>, name: &str) -> (r: Vec<String>)
    ensures
        texts(r@) == texts(path@).push(name@),
{
    let mut out: Vec<String> = Vec::new();
    let mut i: usize = 0;
    while i < path.len()
        invariant
            i <= path@.len(),
            texts(out@) == texts(path@).take(i as int),
        decreases path@.len() - i,
    {
        let copy = path[i].clone();
        proof {
            lemma_texts_push(out@, copy);
            assert(copy@ == texts(path@)[i as int]);
        }
        out.push(copy);
        i += 1;
        assert(texts(out@) =~= texts(path@).take(i as int));
    }
    let last = String::from_str(name);
    proof {
        assert(texts(path@).take(i as int) =~= texts(path@));
        lemma_texts_push(out@, last);
    }
    out.push(last);
    out
}

proof fn lemma_path_texts_push(paths: Seq<Vec<String>>, path: Vec<String>)
    ensures
        path_texts(paths.push(path)) == path_texts(paths).push(texts(path@)),
{
    assert(path_texts(paths.push(path)) =~= path_texts(paths).push(texts(path@)));
}

/// Ways from a function to another along calls: breadth first, to a depth, entering
/// each function once. A call of the target ends a path, and every function entered
/// that calls the target gives one, whether or not a shorter one was found.
pub fn find_paths_bfs(
    function_map: &NameMap<Vec<FunctionInfo>>,
    call_relationships: &CallRelationships,
    start: &str,
    target: &str,
    max_depth: usize,
) -> (r: Option<Vec<Vec<String>>>)
    requires
        function_map.wf(),
        call_relationships.wf(),
    ensures
        start@ == target@ ==> (r matches Some(paths) && path_texts(paths@) == seq![seq![start@]]),
        start@ != target@ ==> match r {
            Some(paths) => paths@.len() > 0 && path_texts(paths@) == search_after(
                function_map@,
                *call_relationships,
                start@,
                target@,
                max_depth as nat,
                max_depth as nat,
            ).found,
            None => search_after(
                function_map@,
                *call_relationships,
                start@,
                target@,
                max_depth as nat,
                max_depth as nat,
            ).found.len() == 0,
        },
{
    let mut first: Vec<String> = Vec::new();
    first.push(String::from_str(start));
    assert(texts(first@) =~= seq![start@]);
    let mut frontier: Vec<Vec<String>> = Vec::new();
    frontier.push(first);
    assert(path_texts(frontier@) =~= seq![seq![start@]]);
    if str_eq(start, target) {
        return Some(frontier);
    }
    let mut visited = NameSet::new();
    let _ = visited.insert(start);
    let mut found: Vec<Vec<String>> = Vec::new();
    let ghost functions = function_map@;
    let ghost calls = *call_relationships;
    let ghost deepest = max_depth as nat;
    assert(path_texts(found@) =~= Seq::empty());
    let mut level: usize = 0;
    while level < max_depth && frontier.len() > 0
        invariant
            level <= max_depth,
            function_map.wf(),
            call_relationships.wf(),
            functions == function_map@,
            calls == *call_relationships,
            deepest == max_depth,
            visited.wf(),
            (Search { frontier: path_texts(frontier@), visited: visited@, found: path_texts(found@) })
                == search_after(functions, calls, start@, target@, deepest, level as nat),
            forall|i: int| 0 <= i < frontier@.len() ==> (#[trigger] frontier@[i])@.len() > 0,
        decreases max_depth - level,
    {
        let deeper = level + 1 < max_depth;
        let ghost before = search_after(
            functions,
            calls,
            start@,
            target@,
            deepest,
            level as nat,
        );
        let ghost all = path_texts(frontier@);
        let mut next: Vec<Vec<String>> = Vec::new();
        assert(path_texts(next@) =~= Seq::empty());
        assert(all.take(0) =~= Seq::empty());
        let mut p: usize = 0;
        while p < frontier.len()
            invariant
                p <= frontier@.len(),
                function_map.wf(),
                call_relationships.wf(),
                functions == function_map@,
                calls == *call_relationships,
                visited.wf(),
                all == path_texts(frontier@),
                (Search { frontier: path_texts(next@), visited: visited@, found: path_texts(found@) })
                    == follow_level(before, all.take(p as int), functions, calls, target@, deeper),
                forall|i: int| 0 <= i < frontier@.len() ==> (#[trigger] frontier@[i])@.len() > 0,
                forall|i: int| 0 <= i < next@.len() ==> (#[trigger] next@[i])@.len() > 0,
            decreases frontier@.len() - p,
        {
            let path = &frontier[p];
            let ghost path_text = texts(path@);
            let current = path[path.len() - 1].as_str();
            let ghost held = follow_level(
                before,
                all.take(p as int),
                functions,
                calls,
                target@,
                deeper,
            );
            proof {
                assert(all[p as int] == path_text);
                assert(all.take(p + 1).drop_last() =~= all.take(p as int));
                assert(all.take(p + 1).last() == path_text);
                assert(path_text.last() == current@);
            }
            let callees = if function_map.contains(current) {
                call_relationships.function_calls.get(current)
            } else {
                None
            };
            if let Some(callees) = callees {
                let ghost names = texts(callees@);
                let mut c: usize = 0;
                assert(names.take(0) =~= Seq::empty());
                while c < callees.len()
                    invariant
                        c <= callees@.len(),
                        visited.wf(),
                        names == texts(callees@),
                        path_text == texts(path@),
                        (Search {
                            frontier: path_texts(next@),
                            visited: visited@,
                            found: path_texts(found@),
                        }) == follow_calls(held, path_text, names.take(c as int), target@, deeper),
                        forall|i: int| 0 <= i < next@.len() ==> (#[trigger] next@[i])@.len() > 0,
                    decreases callees@.len() - c,
                {
                    let callee = callees[c].as_str();
                    proof {
                        assert(names[c as int] == callee@);
                        assert(names.take(c + 1).drop_last() =~= names.take(c as int));
                        assert(names.take(c + 1).last() == callee@);
                    }
                    if str_eq(callee, target) {
                        let complete = extended(path, callee);
                        proof {
                            lemma_path_texts_push(found@, complete);
                        }
                        found.push(complete);
                    } else if deeper && !visited.contains(callee) {
                        let _ = visited.insert(callee);
                        let longer = extended(path, callee);
                        proof {
                            lemma_path_texts_push(next@, longer);
                            assert(texts(longer@).len() > 0);
                        }
                        next.push(longer);
                    }
                    c += 1;
                }
                assert(names.take(c as int) =~= names);
            }
            p += 1;
        }
        assert(all.take(p as int) =~= all);
        frontier = next;
        level += 1;
    }
    proof {
        lemma_search_is_over(functions, calls, start@, target@, deepest, level as nat, deepest);
    }
    if found.len() == 0 {
        None
    } else {
        Some(found)
    }
}

/// A search with nothing left to follow finds nothing more.
proof fn lemma_search_is_over(
    functions: Map<Seq<char>, Vec<FunctionInfo>>,
    calls: CallRelationships,
    start: Seq<char>,
    target: Seq<char>,
    max_depth: nat,
    at: nat,
    levels: nat,
)
    requires
        at <= levels,
        at == levels || search_after(
            functions,
            calls,
            start,
            target,
            max_depth,
            at,
        ).frontier.len() == 0,
    ensures
        search_after(functions, calls, start, target, max_depth, levels).found == search_after(
            functions,
            calls,
            start,
            target,
            max_depth,
            at,
        ).found,
        at == levels || search_after(
            functions,
            calls,
            start,
            target,
            max_depth,
            levels,
        ).frontier.len() == 0,
    decreases levels,
{
    if at < levels {
        lemma_search_is_over(functions, calls, start, target, max_depth, at, (levels - 1) as nat);
    }
}

/// Whether a path leads along calls from the start towards the target, through
/// no function twice and not yet to the target.
pub open spec fn leads_on(
    functions: Map<Seq<char>, Vec<FunctionInfo>>,
    calls: CallRelationships,
    start: Seq<char>,
    target: Seq<char>,
    path: NamePath,
) -> bool {
    &&& path.len() > 0
    &&& path[0] == start
    &&& is_call_path(functions, calls, path)
    &&& path.no_duplicates()
    &&& !path.contains(target)
}

/// Whether a path leads along calls from the start to the target, through no
/// function twice.
pub open spec fn leads_there(
    functions: Map<Seq<char>, Vec<FunctionInfo>>,
    calls: CallRelationships,
    start: Seq<char>,
    target: Seq<char>,
    path: NamePath,
) -> bool {
    &&& path.len() >= 2
    &&& path.last() == target
    &&& is_call_path(functions, calls, path)
    &&& leads_on(functions, calls, start, target, path.drop_last())
}

spec fn sound(
    functions: Map<Seq<char>, Vec<FunctionInfo>>,
    calls: CallRelationships,
    start: Seq<char>,
    target: Seq<char>,
    s: Search,
    frontier_len: nat,
    found_len: nat,
) -> bool {
    &&& forall|i: int|
        0 <= i < s.frontier.len() ==> (#[trigger] s.frontier[i]).len() == frontier_len && leads_on(
            functions,
            calls,
            start,
            target,
            s.frontier[i],
        ) && within(s.frontier[i], s.visited)
    &&& forall|i: int|
        0 <= i < s.found.len() ==> (#[trigger] s.found[i]).len() <= found_len && leads_there(
            functions,
            calls,
            start,
            target,
            s.found[i],
        )
}

spec fn within(path: NamePath, names: Set<Seq<char>>) -> bool {
    forall|i: int| 0 <= i < path.len() ==> names.contains(#[trigger] path[i])
}

proof fn lemma_call_path_push(
    functions: Map<Seq<char>, Vec<FunctionInfo>>,
    calls: CallRelationships,
    path: NamePath,
    name: Seq<char>,
)
    requires
        path.len() > 0,
        is_call_path(functions, calls, path),
        calls_of(functions, calls, path.last()).contains(name),
    ensures
        is_call_path(functions, calls, path.push(name)),
{
    let more = path.push(name);
    assert forall|i: int| 0 <= i < more.len() - 1 implies #[trigger] calls_of(
        functions,
        calls,
        more[i],
    ).contains(more[i + 1]) by {
        if i < path.len() - 1 {
            assert(calls_of(functions, calls, path[i]).contains(path[i + 1]));
        }
    }
}

proof fn lemma_follow_calls_sound(
    functions: Map<Seq<char>, Vec<FunctionInfo>>,
    calls: CallRelationships,
    start: Seq<char>,
    target: Seq<char>,
    s: Search,
    path: NamePath,
    callees: Seq<Seq<char>>,
    deeper: bool,
)
    requires
        sound(functions, calls, start, target, s, path.len() + 1, path.len() + 1),
        leads_on(functions, calls, start, target, path),
        within(path, s.visited),
        forall|i: int|
            0 <= i < callees.len() ==> calls_of(functions, calls, path.last()).contains(
                #[trigger] callees[i],
            ),
    ensures
        sound(
            functions,
            calls,
            start,
            target,
            follow_calls(s, path, callees, target, deeper),
            path.len() + 1,
            path.len() + 1,
        ),
        s.visited.subset_of(follow_calls(s, path, callees, target, deeper).visited),
    decreases callees.len(),
{
    if callees.len() > 0 {
        let init = callees.drop_last();
        let callee = callees.last();
        assert forall|i: int| 0 <= i < init.len() implies calls_of(
            functions,
            calls,
            path.last(),
        ).contains(#[trigger] init[i]) by {
            assert(init[i] == callees[i]);
        }
        lemma_follow_calls_sound(functions, calls, start, target, s, path, init, deeper);
        let before = follow_calls(s, path, init, target, deeper);
        let after = follow_calls(s, path, callees, target, deeper);
        assert(calls_of(functions, calls, path.last()).contains(callees[callees.len() - 1]));
        lemma_call_path_push(functions, calls, path, callee);
        let longer = path.push(callee);
        assert(longer.drop_last() =~= path);
        if callee == target {
            assert forall|i: int| 0 <= i < after.found.len() implies (
            #[trigger] after.found[i]).len() <= path.len() + 1 && leads_there(
                functions,
                calls,
                start,
                target,
                after.found[i],
            ) by {
                if i < before.found.len() {
                    assert(after.found[i] == before.found[i]);
                }
            }
        } else if deeper && !before.visited.contains(callee) {
            assert(!longer.contains(target)) by {
                if longer.contains(target) {
                    let i = choose|i: int| 0 <= i < longer.len() && longer[i] == target;
                    assert(path[i] == target);
                }
            }
            assert(longer.no_duplicates()) by {
                assert forall|i: int, j: int|
                    0 <= i < longer.len() && 0 <= j < longer.len() && i != j implies longer[i]
                    != longer[j] by {
                    if i < path.len() {
                        assert(s.visited.contains(path[i]));
                    }
                    if j < path.len() {
                        assert(s.visited.contains(path[j]));
                    }
                }
            }
            assert forall|i: int| 0 <= i < after.frontier.len() implies (
            #[trigger] after.frontier[i]).len() == path.len() + 1 && leads_on(
                functions,
                calls,
                start,
                target,
                after.frontier[i],
            ) && within(after.frontier[i], after.visited) by {
                if i < before.frontier.len() {
                    assert(after.frontier[i] == before.frontier[i]);
                } else {
                    assert(within(longer, after.visited)) by {
                        assert forall|k: int| 0 <= k < longer.len() implies after.visited.contains(
                            #[trigger] longer[k],
                        ) by {
                            if k < path.len() {
                                assert(s.visited.contains(path[k]));
                            }
                        }
                    }
                }
            }
        }
    }
}

proof fn lemma_follow_level_sound(
    functions: Map<Seq<char>, Vec<FunctionInfo>>,
    calls: CallRelationships,
    start: Seq<char>,
    target: Seq<char>,
    s: Search,
    paths: Seq<NamePath>,
    len: nat,
    deeper: bool,
)
    requires
        forall|i: int|
            0 <= i < paths.len() ==> (#[trigger] paths[i]).len() == len && leads_on(
                functions,
                calls,
                start,
                target,
                paths[i],
            ) && within(paths[i], s.visited),
        forall|i: int|
            0 <= i < s.found.len() ==> (#[trigger] s.found[i]).len() <= len && leads_there(
                functions,
                calls,
                start,
                target,
                s.found[i],
            ),
    ensures
        sound(
            functions,
            calls,
            start,
            target,
            follow_level(s, paths, functions, calls, target, deeper),
            len + 1,
            len + 1,
        ),
        s.visited.subset_of(follow_level(s, paths, functions, calls, target, deeper).visited),
    decreases paths.len(),
{
    if paths.len() > 0 {
        let init = paths.drop_last();
        assert forall|i: int| 0 <= i < init.len() implies (#[trigger] init[i]).len() == len
            && leads_on(functions, calls, start, target, init[i]) && within(
            init[i],
            s.visited,
        ) by {
            assert(init[i] == paths[i]);
        }
        lemma_follow_level_sound(functions, calls, start, target, s, init, len, deeper);
        let before = follow_level(s, init, functions, calls, target, deeper);
        let path = paths.last();
        assert(path == paths[paths.len() - 1]);
        assert(within(path, before.visited)) by {
            assert forall|k: int| 0 <= k < path.len() implies before.visited.contains(
                #[trigger] path[k],
            ) by {
                assert(s.visited.contains(path[k]));
            }
        }
        lemma_follow_calls_sound(
            functions,
            calls,
            start,
            target,
            before,
            path,
            calls_of(functions, calls, path.last()),
            deeper,
        );
    }
}

proof fn lemma_search_sound(
    functions: Map<Seq<char>, Vec<FunctionInfo>>,
    calls: CallRelationships,
    start: Seq<char>,
    target: Seq<char>,
    max_depth: nat,
    levels: nat,
)
    requires
        start != target,
    ensures
        sound(
            functions,
            calls,
            start,
            target,
            search_after(functions, calls, start, target, max_depth, levels),
            levels + 1,
            levels + 1,
        ),
    decreases levels,
{
    let now = search_after(functions, calls, start, target, max_depth, levels);
    if levels == 0 {
        assert(now.frontier[0] == seq![start]);
    } else {
        let k = (levels - 1) as nat;
        lemma_search_sound(functions, calls, start, target, max_depth, k);
        let before = search_after(functions, calls, start, target, max_depth, k);
        lemma_follow_level_sound(
            functions,
            calls,
            start,
            target,
            before,
            before.frontier,
            levels,
            levels < max_depth,
        );
    }
}

/// Every path that a search finds leads along calls from the start to the
/// target, through no function twice, in at most `max_depth` calls.
pub proof fn found_paths_are_call_paths(
    functions: Map<Seq<char>, Vec<FunctionInfo>>,
    calls: CallRelationships,
    start: Seq<char>,
    target: Seq<char>,
    max_depth: nat,
    i: int,
)
    requires
        start != target,
        0 <= i < search_after(functions, calls, start, target, max_depth, max_depth).found.len(),
    ensures
        ({
            let path = search_after(
                functions,
                calls,
                start,
                target,
                max_depth,
                max_depth,
            ).found[i];
            leads_there(functions, calls, start, target, path) && path.len() <= max_depth + 1
        }),
{
    lemma_search_sound(functions, calls, start, target, max_depth, max_depth);
}

/// Whether a search has reached a function by some level.
spec fn reached_by(
    functions: Map<Seq<char>, Vec<FunctionInfo>>,
    calls: CallRelationships,
    start: Seq<char>,
    target: Seq<char>,
    max_depth: nat,
    levels: nat,
    name: Seq<char>,
) -> bool {
    exists|j: nat|
        j <= levels && #[trigger] ends_some(
            search_after(functions, calls, start, target, max_depth, j).frontier,
            name,
        )
}

spec fn ends_some(paths: Seq<NamePath>, name: Seq<char>) -> bool {
    exists|i: int| 0 <= i < paths.len() && (#[trigger] paths[i]).last() == name
}

proof fn lemma_follow_calls_reaches(
    s: Search,
    path: NamePath,
    callees: Seq<Seq<char>>,
    target: Seq<char>,
    deeper: bool,
    name: Seq<char>,
)
    ensures
        ({
            let after = follow_calls(s, path, callees, target, deeper);
            &&& s.visited.subset_of(after.visited)
            &&& after.visited.contains(name) ==> s.visited.contains(name) || ends_some(
                after.frontier,
                name,
            )
            &&& ends_some(s.frontier, name) ==> ends_some(after.frontier, name)
            &&& deeper && callees.contains(name) && name != target ==> after.visited.contains(name)
            &&& callees.contains(target) ==> after.found.contains(path.push(target))
            &&& forall|p: NamePath| s.found.contains(p) ==> #[trigger] after.found.contains(p)
        }),
    decreases callees.len(),
{
    if callees.len() > 0 {
        let init = callees.drop_last();
        let callee = callees.last();
        lemma_follow_calls_reaches(s, path, init, target, deeper, name);
        let before = follow_calls(s, path, init, target, deeper);
        let after = follow_calls(s, path, callees, target, deeper);
        assert forall|other: Seq<char>| callees.contains(other) && other != callee implies #[trigger] init.contains(
            other,
        ) by {
            let i = choose|i: int| 0 <= i < callees.len() && callees[i] == other;
            assert(init[i] == other);
        }
        if callee == target {
            assert(after.found[before.found.len() as int] == path.push(target));
            assert forall|p: NamePath| before.found.contains(p) implies #[trigger] after.found.contains(
                p,
            ) by {
                let i = choose|i: int| 0 <= i < before.found.len() && before.found[i] == p;
                assert(after.found[i] == p);
            }
        } else if deeper && !before.visited.contains(callee) {
            let n = before.frontier.len() as int;
            assert(after.frontier[n].last() == callee);
            if ends_some(before.frontier, name) {
                let i = choose|i: int|
                    0 <= i < before.frontier.len() && (#[trigger] before.frontier[i]).last()
                        == name;
                assert(after.frontier[i].last() == name);
            }
        }
    }
}

proof fn lemma_follow_level_reaches(
    functions: Map<Seq<char>, Vec<FunctionInfo>>,
    calls: CallRelationships,
    s: Search,
    paths: Seq<NamePath>,
    target: Seq<char>,
    deeper: bool,
    from: Seq<char>,
    name: Seq<char>,
)
    requires
        forall|i: int| 0 <= i < paths.len() ==> (#[trigger] paths[i]).len() > 0,
    ensures
        ({
            let after = follow_level(s, paths, functions, calls, target, deeper);
            &&& s.visited.subset_of(after.visited)
            &&& after.visited.contains(name) ==> s.visited.contains(name) || ends_some(
                after.frontier,
                name,
            )
            &&& deeper && ends_some(paths, from) && calls_of(functions, calls, from).contains(name)
                && name != target ==> after.visited.contains(name)
            &&& ends_some(paths, from) && calls_of(functions, calls, from).contains(target)
                ==> ends_before_last(after.found, from)
            &&& forall|p: NamePath| s.found.contains(p) ==> #[trigger] after.found.contains(p)
        }),
    decreases paths.len(),
{
    if paths.len() > 0 {
        let init = paths.drop_last();
        let path = paths.last();
        assert forall|i: int| 0 <= i < init.len() implies (#[trigger] init[i]).len() > 0 by {
            assert(init[i] == paths[i]);
        }
        assert(paths[paths.len() - 1].len() > 0);
        lemma_follow_level_reaches(functions, calls, s, init, target, deeper, from, name);
        let before = follow_level(s, init, functions, calls, target, deeper);
        let callees = calls_of(functions, calls, path.last());
        lemma_follow_calls_reaches(before, path, callees, target, deeper, name);
        let after = follow_level(s, paths, functions, calls, target, deeper);
        if ends_some(paths, from) && path.last() != from {
            let i = choose|i: int| 0 <= i < paths.len() && (#[trigger] paths[i]).last() == from;
            assert(init[i].last() == from);
        }
        if ends_before_last(before.found, from) {
            let i = choose|i: int|
                0 <= i < before.found.len() && (#[trigger] before.found[i]).len() >= 2
                    && before.found[i][before.found[i].len() - 2] == from;
            assert(before.found.contains(before.found[i]));
            assert(after.found.contains(before.found[i]));
            let k = choose|k: int| 0 <= k < after.found.len() && after.found[k] == before.found[i];
            assert(after.found[k].len() >= 2);
        }
        if path.last() == from && callees.contains(target) {
            assert(after.found.contains(path.push(target)));
            let k = choose|k: int|
                0 <= k < after.found.len() && after.found[k] == path.push(target);
            assert(after.found[k][after.found[k].len() - 2] == from);
        }
    }
}

proof fn lemma_visited_were_reached(
    functions: Map<Seq<char>, Vec<FunctionInfo>>,
    calls: CallRelationships,
    start: Seq<char>,
    target: Seq<char>,
    max_depth: nat,
    levels: nat,
    name: Seq<char>,
)
    requires
        start != target,
        search_after(functions, calls, start, target, max_depth, levels).visited.contains(name),
    ensures
        reached_by(functions, calls, start, target, max_depth, levels, name),
    decreases levels,
{
    let now = search_after(functions, calls, start, target, max_depth, levels);
    if levels == 0 {
        assert(now.frontier[0].last() == start);
        assert(ends_some(now.frontier, name));
    } else {
        let k = (levels - 1) as nat;
        let before = search_after(functions, calls, start, target, max_depth, k);
        lemma_search_sound(functions, calls, start, target, max_depth, k);
        lemma_follow_level_reaches(
            functions,
            calls,
            before,
            before.frontier,
            target,
            levels < max_depth,
            name,
            name,
        );
        if before.visited.contains(name) {
            lemma_visited_were_reached(functions, calls, start, target, max_depth, k, name);
            let j = choose|j: nat|
                j <= k && #[trigger] ends_some(
                    search_after(functions, calls, start, target, max_depth, j).frontier,
                    name,
                );
            assert(ends_some(
                search_after(functions, calls, start, target, max_depth, j).frontier,
                name,
            ));
        } else {
            assert(ends_some(now.frontier, name));
        }
    }
}

proof fn lemma_found_stay(
    functions: Map<Seq<char>, Vec<FunctionInfo>>,
    calls: CallRelationships,
    start: Seq<char>,
    target: Seq<char>,
    max_depth: nat,
    at: nat,
    levels: nat,
    path: NamePath,
)
    requires
        start != target,
        at <= levels,
        search_after(functions, calls, start, target, max_depth, at).found.contains(path),
    ensures
        search_after(functions, calls, start, target, max_depth, levels).found.contains(path),
    decreases levels,
{
    if at < levels {
        let k = (levels - 1) as nat;
        lemma_found_stay(functions, calls, start, target, max_depth, at, k, path);
        lemma_search_sound(functions, calls, start, target, max_depth, k);
        let before = search_after(functions, calls, start, target, max_depth, k);
        lemma_follow_level_reaches(
            functions,
            calls,
            before,
            before.frontier,
            target,
            levels < max_depth,
            start,
            start,
        );
    }
}

proof fn lemma_prefix_is_reached(
    functions: Map<Seq<char>, Vec<FunctionInfo>>,
    calls: CallRelationships,
    start: Seq<char>,
    target: Seq<char>,
    max_depth: nat,
    way: NamePath,
    m: nat,
)
    requires
        start != target,
        way.len() > 0,
        way[0] == start,
        is_call_path(functions, calls, way),
        1 <= m < way.len(),
        m <= max_depth,
        forall|i: int| 0 <= i < way.len() - 1 ==> way[i] != target,
    ensures
        reached_by(functions, calls, start, target, max_depth, (m - 1) as nat, way[m - 1]),
    decreases m,
{
    if m == 1 {
        let first = search_after(functions, calls, start, target, max_depth, 0);
        assert(first.frontier[0].last() == start);
        assert(ends_some(first.frontier, start));
    } else {
        lemma_prefix_is_reached(functions, calls, start, target, max_depth, way, (m - 1) as nat);
        let from = way[m - 2];
        let name = way[m - 1];
        assert(calls_of(functions, calls, way[m - 2]).contains(way[m - 2 + 1]));
        let j = choose|j: nat|
            j <= m - 2 && #[trigger] ends_some(
                search_after(functions, calls, start, target, max_depth, j).frontier,
                from,
            );
        let before = search_after(functions, calls, start, target, max_depth, j);
        lemma_search_sound(functions, calls, start, target, max_depth, j);
        lemma_follow_level_reaches(
            functions,
            calls,
            before,
            before.frontier,
            target,
            j + 1 < max_depth,
            from,
            name,
        );
        lemma_visited_were_reached(
            functions,
            calls,
            start,
            target,
            max_depth,
            j + 1,
            name,
        );
        let k = choose|k: nat|
            k <= j + 1 && #[trigger] ends_some(
                search_after(functions, calls, start, target, max_depth, k).frontier,
                name,
            );
        assert(ends_some(
            search_after(functions, calls, start, target, max_depth, k).frontier,
            name,
        ));
    }
}

/// Every way along calls from the start to the target that is short enough is
/// answered: a search finds a path that comes to the target from the same
/// function as it does. So a search finds nothing only where there is no way.
pub proof fn every_way_is_answered(
    functions: Map<Seq<char>, Vec<FunctionInfo>>,
    calls: CallRelationships,
    start: Seq<char>,
    target: Seq<char>,
    max_depth: nat,
    way: NamePath,
)
    requires
        start != target,
        2 <= way.len() <= max_depth + 1,
        way[0] == start,
        way.last() == target,
        is_call_path(functions, calls, way),
        forall|i: int| 0 <= i < way.len() - 1 ==> way[i] != target,
    ensures
        ends_before_last(
            search_after(functions, calls, start, target, max_depth, max_depth).found,
            way[way.len() - 2],
        ),
        search_after(functions, calls, start, target, max_depth, max_depth).found.len() > 0,
{
    let m = (way.len() - 1) as nat;
    lemma_prefix_is_reached(functions, calls, start, target, max_depth, way, m);
    let from = way[way.len() - 2];
    assert(calls_of(functions, calls, way[m - 1]).contains(way[m - 1 + 1]));
    let j = choose|j: nat|
        j <= m - 1 && #[trigger] ends_some(
            search_after(functions, calls, start, target, max_depth, j).frontier,
            from,
        );
    let before = search_after(functions, calls, start, target, max_depth, j);
    lemma_search_sound(functions, calls, start, target, max_depth, j);
    lemma_follow_level_reaches(
        functions,
        calls,
        before,
        before.frontier,
        target,
        j + 1 < max_depth,
        from,
        from,
    );
    let after = search_after(functions, calls, start, target, max_depth, j + 1);
    assert(ends_before_last(after.found, from));
    let i = choose|i: int|
        0 <= i < after.found.len() && (#[trigger] after.found[i]).len() >= 2
            && after.found[i][after.found[i].len() - 2] == from;
    let path = after.found[i];
    lemma_found_stay(functions, calls, start, target, max_depth, j + 1, max_depth, path);
    let all = search_after(functions, calls, start, target, max_depth, max_depth).found;
    let k = choose|k: int| 0 <= k < all.len() && all[k] == path;
    assert(all[k].len() >= 2);
}

proof fn lemma_follow_calls_in_order(
    s: Search,
    path: NamePath,
    callees: Seq<Seq<char>>,
    target: Seq<char>,
    deeper: bool,
)
    requires
        shortest_first(s.found, path.len() + 1),
    ensures
        s.found.is_prefix_of(follow_calls(s, path, callees, target, deeper).found),
        shortest_first(follow_calls(s, path, callees, target, deeper).found, path.len() + 1),
    decreases callees.len(),
{
    if callees.len() > 0 {
        lemma_follow_calls_in_order(s, path, callees.drop_last(), target, deeper);
        let before = follow_calls(s, path, callees.drop_last(), target, deeper).found;
        let after = follow_calls(s, path, callees, target, deeper).found;
        assert forall|i: int| 0 <= i < s.found.len() implies s.found[i] == after[i] by {
            assert(s.found[i] == before[i]);
        }
        assert(s.found =~= after.take(s.found.len() as int));
    }
}

proof fn lemma_follow_level_in_order(
    functions: Map<Seq<char>, Vec<FunctionInfo>>,
    calls: CallRelationships,
    s: Search,
    paths: Seq<NamePath>,
    target: Seq<char>,
    deeper: bool,
    len: nat,
)
    requires
        forall|i: int| 0 <= i < paths.len() ==> (#[trigger] paths[i]).len() == len,
        shortest_first(s.found, len + 1),
    ensures
        ({
            let after = follow_level(s, paths, functions, calls, target, deeper).found;
            s.found.is_prefix_of(after) && shortest_first(after, len + 1)
        }),
    decreases paths.len(),
{
    if paths.len() > 0 {
        let init = paths.drop_last();
        let path = paths.last();
        assert forall|i: int| 0 <= i < init.len() implies (#[trigger] init[i]).len() == len by {
            assert(init[i] == paths[i]);
        }
        assert(paths[paths.len() - 1].len() == len);
        lemma_follow_level_in_order(functions, calls, s, init, target, deeper, len);
        let before = follow_level(s, init, functions, calls, target, deeper);
        let callees = calls_of(functions, calls, path.last());
        lemma_follow_calls_in_order(before, path, callees, target, deeper);
        let after = follow_level(s, paths, functions, calls, target, deeper);
        assert forall|i: int| 0 <= i < s.found.len() implies s.found[i] == after.found[i] by {
            assert(s.found[i] == before.found[i]);
            assert(before.found[i] == after.found[i]);
        }
        assert(s.found =~= after.found.take(s.found.len() as int));
    }
}

proof fn lemma_search_in_order(
    functions: Map<Seq<char>, Vec<FunctionInfo>>,
    calls: CallRelationships,
    start: Seq<char>,
    target: Seq<char>,
    max_depth: nat,
    at: nat,
    levels: nat,
)
    requires
        start != target,
        at <= levels,
    ensures
        ({
            let now = search_after(functions, calls, start, target, max_depth, levels).found;
            &&& search_after(functions, calls, start, target, max_depth, at).found.is_prefix_of(now)
            &&& shortest_first(now, levels + 1)
        }),
    decreases levels,
{
    let now = search_after(functions, calls, start, target, max_depth, levels).found;
    let early = search_after(functions, calls, start, target, max_depth, at).found;
    if levels > 0 {
        let k = (levels - 1) as nat;
        let before = search_after(functions, calls, start, target, max_depth, k);
        let until = if at <= k {
            at
        } else {
            k
        };
        lemma_search_in_order(functions, calls, start, target, max_depth, until, k);
        lemma_search_sound(functions, calls, start, target, max_depth, k);
        lemma_follow_level_in_order(
            functions,
            calls,
            before,
            before.frontier,
            target,
            levels < max_depth,
            levels,
        );
        if at <= k {
            assert forall|i: int| 0 <= i < early.len() implies early[i] == now[i] by {
                assert(early[i] == before.found[i]);
                assert(before.found[i] == now[i]);
            }
        }
    }
    assert(early =~= now.take(early.len() as int));
}

/// Whether paths are listed by length, the shortest first, and none is longer than
/// some length.
pub open spec fn shortest_first(paths: Seq<NamePath>, longest: nat) -> bool {
    &&& forall|i: int, j: int|
        0 <= i <= j < paths.len() ==> (#[trigger] paths[i]).len() <= (#[trigger] paths[j]).len()
    &&& forall|i: int| 0 <= i < paths.len() ==> (#[trigger] paths[i]).len() <= longest
}

/// A search lists the paths it finds by length, the shortest first.
pub proof fn paths_come_shortest_first(
    functions: Map<Seq<char>, Vec<FunctionInfo>>,
    calls: CallRelationships,
    start: Seq<char>,
    target: Seq<char>,
    max_depth: nat,
)
    requires
        start != target,
    ensures
        shortest_first(
            search_after(functions, calls, start, target, max_depth, max_depth).found,
            max_depth + 1,
        ),
{
    lemma_search_in_order(functions, calls, start, target, max_depth, 0, max_depth);
}

/// The first path that a search finds is a shortest one: no way along calls from
/// the start to the target is shorter.
pub proof fn the_first_path_is_shortest(
    functions: Map<Seq<char>, Vec<FunctionInfo>>,
    calls: CallRelationships,
    start: Seq<char>,
    target: Seq<char>,
    max_depth: nat,
    way: NamePath,
)
    requires
        start != target,
        search_after(functions, calls, start, target, max_depth, max_depth).found.len() > 0,
        way.len() > 0,
        way[0] == start,
        way.last() == target,
        is_call_path(functions, calls, way),
    ensures
        search_after(functions, calls, start, target, max_depth, max_depth).found[0].len()
            <= way.len(),
    decreases way.len(),
{
    let all = search_after(functions, calls, start, target, max_depth, max_depth).found;
    lemma_search_in_order(functions, calls, start, target, max_depth, 0, max_depth);
    assert(all[0].len() <= max_depth + 1);
    if exists|i: int| 0 <= i < way.len() - 1 && way[i] == target {
        let i = choose|i: int| 0 <= i < way.len() - 1 && way[i] == target;
        let shorter = way.take(i + 1);
        assert forall|k: int| 0 <= k < shorter.len() - 1 implies #[trigger] calls_of(
            functions,
            calls,
            shorter[k],
        ).contains(shorter[k + 1]) by {
            assert(calls_of(functions, calls, way[k]).contains(way[k + 1]));
        }
        the_first_path_is_shortest(functions, calls, start, target, max_depth, shorter);
    } else if way.len() <= max_depth {
        // The same search, cut off after as many levels as the way has calls.
        let m = (way.len() - 1) as nat;
        lemma_prefix_is_reached(functions, calls, start, target, max_depth, way, m);
        let from = way[way.len() - 2];
        assert(calls_of(functions, calls, way[m - 1]).contains(way[m - 1 + 1]));
        let j = choose|j: nat|
            j <= m - 1 && #[trigger] ends_some(
                search_after(functions, calls, start, target, max_depth, j).frontier,
                from,
            );
        let before = search_after(functions, calls, start, target, max_depth, j);
        lemma_search_sound(functions, calls, start, target, max_depth, j);
        lemma_follow_level_reaches(
            functions,
            calls,
            before,
            before.frontier,
            target,
            j + 1 < max_depth,
            from,
            from,
        );
        let after = search_after(functions, calls, start, target, max_depth, j + 1).found;
        assert(ends_before_last(after, from));
        lemma_search_in_order(functions, calls, start, target, max_depth, j + 1, max_depth);
        lemma_search_in_order(functions, calls, start, target, max_depth, j + 1, j + 1);
        assert(all[0] == after[0]);
    }
}

/// Whether one of some paths has a name as the last but one.
pub open spec fn ends_before_last(paths: Seq<NamePath>, name: Seq<char>) -> bool {
    exists|i: int|
        0 <= i < paths.len() && (#[trigger] paths[i]).len() >= 2 && paths[i][paths[i].len() - 2]
            == name
}

} // verus!
