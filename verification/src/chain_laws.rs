//! What call chains promise, said of the lists of calls and of callers themselves.
use vstd::prelude::*;
use crate::callchain::{
    found_paths_are_call_paths, is_chain, search_after, CallNode, CallRelationships, NamePath,
};
use crate::text::texts;
use crate::types::FunctionInfo;

verus! {

/// The names of some nodes.
pub open spec fn node_names(nodes: Seq<CallNode>) -> Seq<Seq<char>> {
    nodes.map_values(|node: CallNode| node.name@)
}

/// The node of a function that goes on shows its first definition and, as its
/// children, what the function calls in a chain of callees, and what calls it in a
/// chain of callers, in order. A chain ends where the depth is used up, at a
/// function that is on the way already, and at one that is not defined.
pub proof fn a_node_leads_to_callees_or_callers(
    node: CallNode,
    functions: Map<Seq<char>, Vec<FunctionInfo>>,
    calls: CallRelationships,
    name: Seq<char>,
    depth: nat,
    forward: bool,
    on_the_way: Seq<Seq<char>>,
)
    requires
        is_chain(node, functions, calls, name, depth, forward, on_the_way),
    ensures
        node.name@ == name,
        depth > 0 && !on_the_way.contains(name) && functions.contains_key(name)
            && functions[name]@.len() > 0 ==> {
            &&& node.file@ == functions[name]@[0].file_path@
            &&& node.line == functions[name]@[0].line_start
            &&& forward && calls.function_calls@.contains_key(name) ==> node_names(node.children@)
                == texts(calls.function_calls@[name]@)
            &&& forward && !calls.function_calls@.contains_key(name) ==> node.children@.len() == 0
            &&& !forward && calls.function_callers@.contains_key(name) ==> node_names(
                node.children@,
            ) == texts(calls.function_callers@[name]@)
            &&& !forward && !calls.function_callers@.contains_key(name) ==> node.children@.len()
                == 0
        },
        depth == 0 || on_the_way.contains(name) || !functions.contains_key(name)
            || functions[name]@.len() == 0 ==> node.children@.len() == 0 && node.file@.len() == 0
            && node.line == 0,
{
    if depth > 0 && !on_the_way.contains(name) && functions.contains_key(name)
        && functions[name]@.len() > 0 {
        let lists = if forward {
            calls.function_calls@
        } else {
            calls.function_callers@
        };
        if lists.contains_key(name) {
            let next = texts(lists[name]@);
            assert forall|i: int| 0 <= i < next.len() implies node_names(node.children@)[i]
                == next[i] by {
                assert(is_chain(
                    node.children@[i],
                    functions,
                    calls,
                    next[i],
                    (depth - 1) as nat,
                    forward,
                    on_the_way.push(name),
                ));
            }
            assert(node_names(node.children@) =~= next);
        }
    }
}

/// Whether a path of names leads down a tree, from its root.
pub open spec fn leads_down(node: CallNode, path: NamePath) -> bool
    decreases path.len(),
{
    &&& path.len() > 0
    &&& path[0] == node.name@
    &&& path.len() == 1 || exists|i: int|
        0 <= i < node.children@.len() && leads_down(#[trigger] node.children@[i], path.skip(1))
}

/// Whether one of some lists, that of a name, has another name in it.
pub open spec fn lists_name(
    lists: Map<Seq<char>, Vec<String>>,
    name: Seq<char>,
    other: Seq<char>,
) -> bool {
    lists.contains_key(name) && texts(lists[name]@).contains(other)
}

/// Whether a path is one that a chain shows: along the lists, through defined
/// functions none of which it meets twice, in as many steps as the depth allows.
/// Only its last name may be undefined, or one that it met before.
pub open spec fn is_shown_path(
    functions: Map<Seq<char>, Vec<FunctionInfo>>,
    lists: Map<Seq<char>, Vec<String>>,
    depth: nat,
    on_the_way: Seq<Seq<char>>,
    path: NamePath,
) -> bool {
    &&& path.len() <= depth + 1
    &&& forall|i: int|
        0 <= i < path.len() - 1 ==> #[trigger] lists_name(lists, path[i], path[i + 1])
    &&& forall|i: int|
        0 <= i < path.len() - 1 ==> functions.contains_key(#[trigger] path[i])
            && functions[path[i]]@.len() > 0 && !on_the_way.contains(path[i])
    &&& forall|i: int, j: int|
        0 <= i < j < path.len() - 1 ==> #[trigger] path[i] != #[trigger] path[j]
}

proof fn lemma_rest_is_shown(
    functions: Map<Seq<char>, Vec<FunctionInfo>>,
    lists: Map<Seq<char>, Vec<String>>,
    depth: nat,
    on_the_way: Seq<Seq<char>>,
    path: NamePath,
)
    requires
        path.len() > 1,
        depth > 0,
    ensures
        is_shown_path(functions, lists, depth, on_the_way, path) <==> lists_name(
            lists,
            path[0],
            path[1],
        ) && functions.contains_key(path[0]) && functions[path[0]]@.len() > 0
            && !on_the_way.contains(path[0]) && is_shown_path(
            functions,
            lists,
            (depth - 1) as nat,
            on_the_way.push(path[0]),
            path.skip(1),
        ),
{
    let rest = path.skip(1);
    let way = on_the_way.push(path[0]);
    if is_shown_path(functions, lists, depth, on_the_way, path) {
        assert(lists_name(lists, path[0], path[0int + 1]));
        assert forall|i: int| 0 <= i < rest.len() - 1 implies #[trigger] lists_name(
            lists,
            rest[i],
            rest[i + 1],
        ) by {
            assert(lists_name(lists, path[i + 1], path[i + 1 + 1]));
        }
        assert forall|i: int| 0 <= i < rest.len() - 1 implies functions.contains_key(
            #[trigger] rest[i],
        ) && functions[rest[i]]@.len() > 0 && !way.contains(rest[i]) by {
            assert(rest[i] == path[i + 1]);
            assert(path[0] != path[i + 1]);
            if way.contains(rest[i]) {
                let k = choose|k: int| 0 <= k < way.len() && way[k] == rest[i];
                assert(on_the_way[k] == rest[i]);
            }
        }
        assert forall|i: int, j: int| 0 <= i < j < rest.len() - 1 implies #[trigger] rest[i]
            != #[trigger] rest[j] by {
            assert(path[i + 1] != path[j + 1]);
        }
    }
    if lists_name(lists, path[0], path[1]) && functions.contains_key(path[0])
        && functions[path[0]]@.len() > 0 && !on_the_way.contains(path[0]) && is_shown_path(
        functions,
        lists,
        (depth - 1) as nat,
        way,
        rest,
    ) {
        assert forall|i: int| 0 <= i < path.len() - 1 implies #[trigger] lists_name(
            lists,
            path[i],
            path[i + 1],
        ) by {
            if i > 0 {
                assert(lists_name(lists, rest[i - 1], rest[i - 1 + 1]));
            }
        }
        assert(way[on_the_way.len() as int] == path[0]);
        assert forall|i: int| 0 <= i < path.len() - 1 implies functions.contains_key(
            #[trigger] path[i],
        ) && functions[path[i]]@.len() > 0 && !on_the_way.contains(path[i]) by {
            if i > 0 {
                assert(path[i] == rest[i - 1]);
                if on_the_way.contains(path[i]) {
                    let k = choose|k: int| 0 <= k < on_the_way.len() && on_the_way[k] == path[i];
                    assert(way[k] == path[i]);
                }
            }
        }
        assert forall|i: int, j: int| 0 <= i < j < path.len() - 1 implies #[trigger] path[i]
            != #[trigger] path[j] by {
            assert(path[j] == rest[j - 1]);
            if i == 0 {
                assert(way.contains(path[0]));
            } else {
                assert(path[i] == rest[i - 1]);
            }
        }
    }
}

/// A chain of callees shows just the paths along calls, and a chain of callers just
/// the paths from function to caller: as many steps as the depth allows, on past
/// every defined function that the path has not met before.
pub proof fn a_chain_shows_every_path(
    node: CallNode,
    functions: Map<Seq<char>, Vec<FunctionInfo>>,
    calls: CallRelationships,
    name: Seq<char>,
    depth: nat,
    forward: bool,
    on_the_way: Seq<Seq<char>>,
    path: NamePath,
)
    requires
        is_chain(node, functions, calls, name, depth, forward, on_the_way),
        path.len() > 0,
    ensures
        forward ==> (leads_down(node, path) <==> path[0] == name && is_shown_path(
            functions,
            calls.function_calls@,
            depth,
            on_the_way,
            path,
        )),
        !forward ==> (leads_down(node, path) <==> path[0] == name && is_shown_path(
            functions,
            calls.function_callers@,
            depth,
            on_the_way,
            path,
        )),
    decreases path.len(),
{
    let lists = if forward {
        calls.function_calls@
    } else {
        calls.function_callers@
    };
    a_node_leads_to_callees_or_callers(
        node,
        functions,
        calls,
        name,
        depth,
        forward,
        on_the_way,
    );
    if path.len() > 1 && path[0] == name {
        let rest = path.skip(1);
        if depth > 0 {
            lemma_rest_is_shown(functions, lists, depth, on_the_way, path);
        }
        if depth > 0 && !on_the_way.contains(name) && functions.contains_key(name)
            && functions[name]@.len() > 0 {
            let way = on_the_way.push(name);
            let children = node.children@;
            assert forall|i: int| 0 <= i < children.len() implies (leads_down(
                #[trigger] children[i],
                rest,
            ) <==> rest[0] == children[i].name@ && is_shown_path(
                functions,
                lists,
                (depth - 1) as nat,
                way,
                rest,
            )) by {
                let next = texts(lists[name]@);
                assert(lists.contains_key(name));
                assert(node_names(children)[i] == next[i]);
                assert(is_chain(
                    children[i],
                    functions,
                    calls,
                    next[i],
                    (depth - 1) as nat,
                    forward,
                    way,
                ));
                a_chain_shows_every_path(
                    children[i],
                    functions,
                    calls,
                    next[i],
                    (depth - 1) as nat,
                    forward,
                    way,
                    rest,
                );
            }
            if leads_down(node, path) {
                let i = choose|i: int|
                    0 <= i < children.len() && leads_down(#[trigger] children[i], rest);
                assert(node_names(children)[i] == rest[0]);
                assert(lists.contains_key(name));
                assert(texts(lists[name]@).contains(rest[0]));
            }
            if is_shown_path(functions, lists, depth, on_the_way, path) {
                assert(lists_name(lists, name, path[1]));
                let next = texts(lists[name]@);
                let i = choose|i: int| 0 <= i < next.len() && next[i] == path[1];
                assert(node_names(children)[i] == path[1]);
                assert(leads_down(children[i], rest));
            }
        } else {
            assert(node.children@.len() == 0);
            if is_shown_path(functions, lists, depth, on_the_way, path) {
                assert(functions.contains_key(path[0]));
            }
        }
    }
}

/// A path that a search finds goes from the start to the target by calls: each
/// function on it has the next among the functions it calls.
pub proof fn found_paths_follow_the_calls(
    functions: Map<Seq<char>, Vec<FunctionInfo>>,
    calls: CallRelationships,
    start: Seq<char>,
    target: Seq<char>,
    max_depth: nat,
    i: int,
    k: int,
)
    requires
        start != target,
        0 <= i < search_after(functions, calls, start, target, max_depth, max_depth).found.len(),
        0 <= k < search_after(
            functions,
            calls,
            start,
            target,
            max_depth,
            max_depth,
        ).found[i].len() - 1,
    ensures
        ({
            let path = search_after(
                functions,
                calls,
                start,
                target,
                max_depth,
                max_depth,
            ).found[i];
            &&& 2 <= path.len() <= max_depth + 1
            &&& path[0] == start
            &&& path.last() == target
            &&& functions.contains_key(path[k])
            &&& lists_name(calls.function_calls@, path[k], path[k + 1])
        }),
{
    found_paths_are_call_paths(functions, calls, start, target, max_depth, i);
    let path = search_after(functions, calls, start, target, max_depth, max_depth).found[i];
    assert(crate::callchain::calls_of(functions, calls, path[k]).contains(path[k + 1]));
    assert(path.drop_last()[0] == start);
}

/// A function from which calls lead to the target is answered: where each function
/// on a way is known and calls the next, and the way is no longer than the search
/// goes, a path is found that comes to the target from the same function.
pub proof fn every_way_along_the_calls_is_answered(
    functions: Map<Seq<char>, Vec<FunctionInfo>>,
    calls: CallRelationships,
    start: Seq<char>,
    target: Seq<char>,
    max_depth: nat,
    way: NamePath,
)
    requires
        start != target,
        2 <= way.len() <= max_depth + 1,
        way[0] == start,
        way.last() == target,
        forall|i: int|
            0 <= i < way.len() - 1 ==> functions.contains_key(#[trigger] way[i]) && way[i]
                != target,
        forall|i: int|
            0 <= i < way.len() - 1 ==> #[trigger] lists_name(
                calls.function_calls@,
                way[i],
                way[i + 1],
            ),
    ensures
        ({
            let found = search_after(
                functions,
                calls,
                start,
                target,
                max_depth,
                max_depth,
            ).found;
            exists|k: int|
                0 <= k < found.len() && (#[trigger] found[k]).len() >= 2
                    && found[k][found[k].len() - 2] == way[way.len() - 2]
        }),
{
    assert forall|i: int| 0 <= i < way.len() - 1 implies #[trigger] crate::callchain::calls_of(
        functions,
        calls,
        way[i],
    ).contains(way[i + 1]) by {
        assert(lists_name(calls.function_calls@, way[i], way[i + 1]));
        assert(functions.contains_key(way[i]));
    }
    crate::callchain::every_way_is_answered(functions, calls, start, target, max_depth, way);
}

} // verus!
