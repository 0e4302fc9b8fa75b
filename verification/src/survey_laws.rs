//! What a survey of a source file promises, said of the nodes of its syntax tree:
//! which node defines, calls or mentions what.
use vstd::prelude::*;
use crate::file_survey::{
    basic_type, facts_of, node_facts, pair_texts, surveys, tally, Defined, FileSurvey,
};
use crate::keyed::occurrences;
use crate::order::{ascending, sorted_set, sorted_set_has_the_same_texts};
use crate::overlay::lemma_filter_contains;
use crate::syntax::{
    below_kind, field_child, named_child, parent, parent_from, NodeText, SurveyLanguage,
};
use crate::text::{after_prefix, has_prefix, normalized, trimmed};

verus! {

/// Whether a node is below another: everything after the other up to it is deeper.
pub open spec fn is_below(n: Seq<NodeText>, p: int, i: int) -> bool {
    0 <= p < i < n.len() && forall|k: int| p < k <= i ==> (#[trigger] n[k]).depth > n[p].depth
}

/// Whether a node is directly below another.
pub open spec fn is_right_below(n: Seq<NodeText>, p: int, i: int) -> bool {
    &&& 0 <= p < i < n.len()
    &&& n[p].depth < n[i].depth
    &&& forall|k: int| p < k < i ==> (#[trigger] n[k]).depth >= n[i].depth
}

/// Whether a node is a child of another: below it, by one level.
pub open spec fn is_child_of(n: Seq<NodeText>, i: int, j: int) -> bool {
    is_below(n, i, j) && n[j].depth == n[i].depth + 1
}

/// Whether a node is the first child of another in a field.
pub open spec fn is_first_in_field(n: Seq<NodeText>, i: int, j: int, field: Seq<char>) -> bool {
    &&& is_child_of(n, i, j)
    &&& n[j].field == Some(field)
    &&& forall|k: int| k < j && #[trigger] is_child_of(n, i, k) ==> n[k].field != Some(field)
}

/// Whether a node is the first named child of another.
pub open spec fn is_first_named(n: Seq<NodeText>, i: int, j: int) -> bool {
    &&& is_child_of(n, i, j)
    &&& n[j].named
    &&& forall|k: int| k < j && #[trigger] is_child_of(n, i, k) ==> !n[k].named
}

/// Whether the source of a node is a text, its words with one space between each
/// two.
pub open spec fn reads(node: NodeText, t: Seq<char>) -> bool {
    node.text is Some && normalized(node.text->0) == t
}

proof fn lemma_parent_from(n: Seq<NodeText>, i: int, k: int)
    requires
        0 <= i < n.len(),
        k < i,
        forall|m: int| k < m < i ==> (#[trigger] n[m]).depth >= n[i].depth,
    ensures
        match parent_from(n, i, k) {
            Some(p) => is_right_below(n, p, i),
            None => forall|p: int| !is_right_below(n, p, i),
        },
        forall|p: int| is_right_below(n, p, i) ==> parent_from(n, i, k) == Some(p),
    decreases k + 1,
{
    if k >= 0 && n[k].depth >= n[i].depth {
        lemma_parent_from(n, i, k - 1);
    } else if k >= 0 {
        assert(is_right_below(n, k, i));
        assert forall|p: int| is_right_below(n, p, i) implies p == k by {
            if p < k {
                assert(n[k].depth >= n[i].depth);
            }
        }
    }
}

proof fn lemma_parent(n: Seq<NodeText>, i: int)
    requires
        0 <= i < n.len(),
    ensures
        match parent(n, i) {
            Some(p) => is_right_below(n, p, i),
            None => forall|p: int| !is_right_below(n, p, i),
        },
        forall|p: int| is_right_below(n, p, i) ==> parent(n, i) == Some(p),
{
    lemma_parent_from(n, i, i - 1);
}

proof fn lemma_below_has_parent(n: Seq<NodeText>, q: int, i: int)
    requires
        is_below(n, q, i),
    ensures
        parent(n, i) is Some,
        q <= parent(n, i)->0 < i,
        q < parent(n, i)->0 ==> is_below(n, q, parent(n, i)->0),
{
    lemma_parent(n, i);
    assert(n[i].depth > n[q].depth);
    lemma_last_less_deep(n, q, i, i - 1);
    let p = parent(n, i)->0;
    if p < q {
        assert(n[q].depth >= n[i].depth);
    }
}

proof fn lemma_last_less_deep(n: Seq<NodeText>, q: int, i: int, k: int)
    requires
        0 <= q < i < n.len(),
        q <= k < i,
        n[q].depth < n[i].depth,
        forall|m: int| k < m < i ==> (#[trigger] n[m]).depth >= n[i].depth,
    ensures
        exists|p: int| is_right_below(n, p, i),
    decreases k - q,
{
    if n[k].depth < n[i].depth {
        assert(is_right_below(n, k, i));
    } else {
        lemma_last_less_deep(n, q, i, k - 1);
    }
}

/// A node is found to be below a kind just when some node of that kind has it
/// below.
pub proof fn ancestors_are_the_nodes_above(n: Seq<NodeText>, i: int, kind: Seq<char>)
    requires
        0 <= i < n.len(),
    ensures
        below_kind(n, i, kind) <==> exists|p: int| is_below(n, p, i) && n[p].kind == kind,
    decreases i,
{
    lemma_parent(n, i);
    match parent(n, i) {
        Some(p) => {
            assert(is_below(n, p, i));
            ancestors_are_the_nodes_above(n, p, kind);
            if below_kind(n, p, kind) {
                let q = choose|q: int| is_below(n, q, p) && n[q].kind == kind;
                assert forall|k: int| q < k <= i implies (#[trigger] n[k]).depth > n[q].depth by {
                    if k > p {
                        assert(n[k].depth > n[p].depth);
                        assert(n[p].depth > n[q].depth);
                    }
                }
                assert(is_below(n, q, i));
            }
            if exists|q: int| is_below(n, q, i) && n[q].kind == kind {
                let q = choose|q: int| is_below(n, q, i) && n[q].kind == kind;
                lemma_below_has_parent(n, q, i);
            }
        },
        None => {
            if exists|q: int| is_below(n, q, i) && n[q].kind == kind {
                let q = choose|q: int| is_below(n, q, i) && n[q].kind == kind;
                lemma_below_has_parent(n, q, i);
            }
        },
    }
}

proof fn lemma_field_child(n: Seq<NodeText>, i: int, from: int, field: Seq<char>)
    requires
        0 <= i < from,
        i < n.len(),
        forall|k: int| i < k < from && k < n.len() ==> (#[trigger] n[k]).depth > n[i].depth,
    ensures
        match field_child(n, i, from, field) {
            Some(j) => from <= j && is_child_of(n, i, j) && n[j].field == Some(field) && forall|
                k: int,
            |
                from <= k < j && #[trigger] is_child_of(n, i, k) ==> n[k].field != Some(field),
            None => forall|k: int|
                from <= k && #[trigger] is_child_of(n, i, k) ==> n[k].field != Some(field),
        },
    decreases n.len() - from,
{
    if from >= n.len() || n[from].depth <= n[i].depth {
        assert forall|k: int| from <= k implies !#[trigger] is_child_of(n, i, k) by {
            if is_child_of(n, i, k) {
                assert(n[from].depth > n[i].depth);
            }
        }
    } else if n[from].depth == n[i].depth + 1 && n[from].field == Some(field) {
        assert(is_child_of(n, i, from));
    } else {
        lemma_field_child(n, i, from + 1, field);
    }
}

proof fn lemma_first_in_field(n: Seq<NodeText>, i: int, field: Seq<char>)
    requires
        0 <= i < n.len(),
    ensures
        match field_child(n, i, i + 1, field) {
            Some(j) => is_first_in_field(n, i, j, field) && forall|k: int| #[trigger]
                is_first_in_field(n, i, k, field) ==> k == j,
            None => forall|k: int| !#[trigger] is_first_in_field(n, i, k, field),
        },
{
    lemma_field_child(n, i, i + 1, field);
    match field_child(n, i, i + 1, field) {
        Some(j) => {
            assert forall|k: int| k < j && #[trigger] is_child_of(n, i, k) implies n[k].field
                != Some(field) by {}
            assert forall|k: int| #[trigger] is_first_in_field(n, i, k, field) implies k == j by {
                assert(is_child_of(n, i, j));
                assert(is_child_of(n, i, k));
            }
        },
        None => {
            assert forall|k: int| !#[trigger] is_first_in_field(n, i, k, field) by {
                if is_first_in_field(n, i, k, field) {
                    assert(is_child_of(n, i, k));
                }
            }
        },
    }
}

proof fn lemma_named_child(n: Seq<NodeText>, i: int, from: int)
    requires
        0 <= i < from,
        i < n.len(),
        forall|k: int| i < k < from && k < n.len() ==> (#[trigger] n[k]).depth > n[i].depth,
    ensures
        match named_child(n, i, from) {
            Some(j) => from <= j && is_child_of(n, i, j) && n[j].named && forall|k: int|
                from <= k < j && #[trigger] is_child_of(n, i, k) ==> !n[k].named,
            None => forall|k: int| from <= k && #[trigger] is_child_of(n, i, k) ==> !n[k].named,
        },
    decreases n.len() - from,
{
    if from >= n.len() || n[from].depth <= n[i].depth {
        assert forall|k: int| from <= k implies !#[trigger] is_child_of(n, i, k) by {
            if is_child_of(n, i, k) {
                assert(n[from].depth > n[i].depth);
            }
        }
    } else if n[from].depth == n[i].depth + 1 && n[from].named {
        assert(is_child_of(n, i, from));
    } else {
        lemma_named_child(n, i, from + 1);
    }
}

proof fn lemma_first_named(n: Seq<NodeText>, i: int)
    requires
        0 <= i < n.len(),
    ensures
        match named_child(n, i, i + 1) {
            Some(j) => is_first_named(n, i, j) && forall|k: int| #[trigger]
                is_first_named(n, i, k) ==> k == j,
            None => forall|k: int| !#[trigger] is_first_named(n, i, k),
        },
{
    lemma_named_child(n, i, i + 1);
    match named_child(n, i, i + 1) {
        Some(j) => {
            assert forall|k: int| #[trigger] is_first_named(n, i, k) implies k == j by {
                assert(is_child_of(n, i, j));
                assert(is_child_of(n, i, k));
            }
        },
        None => {
            assert forall|k: int| !#[trigger] is_first_named(n, i, k) by {
                if is_first_named(n, i, k) {
                    assert(is_child_of(n, i, k));
                }
            }
        },
    }
}

proof fn lemma_c_kinds_differ()
    ensures
        "function_definition"@ != "call_expression"@,
        "function_definition"@ != "struct_specifier"@,
        "function_definition"@ != "union_specifier"@,
        "function_definition"@ != "enum_specifier"@,
        "function_definition"@ != "type_definition"@,
        "function_definition"@ != "type_identifier"@,
        "function_definition"@ != "primitive_type"@,
        "function_definition"@ != "sized_type_specifier"@,
        "call_expression"@ != "struct_specifier"@,
        "call_expression"@ != "union_specifier"@,
        "call_expression"@ != "enum_specifier"@,
        "call_expression"@ != "type_definition"@,
        "call_expression"@ != "type_identifier"@,
        "call_expression"@ != "primitive_type"@,
        "call_expression"@ != "sized_type_specifier"@,
        "struct_specifier"@ != "union_specifier"@,
        "struct_specifier"@ != "enum_specifier"@,
        "struct_specifier"@ != "type_definition"@,
        "struct_specifier"@ != "type_identifier"@,
        "struct_specifier"@ != "primitive_type"@,
        "struct_specifier"@ != "sized_type_specifier"@,
        "union_specifier"@ != "enum_specifier"@,
        "union_specifier"@ != "type_definition"@,
        "union_specifier"@ != "type_identifier"@,
        "union_specifier"@ != "primitive_type"@,
        "union_specifier"@ != "sized_type_specifier"@,
        "enum_specifier"@ != "type_definition"@,
        "enum_specifier"@ != "type_identifier"@,
        "enum_specifier"@ != "primitive_type"@,
        "enum_specifier"@ != "sized_type_specifier"@,
        "type_definition"@ != "type_identifier"@,
        "type_definition"@ != "primitive_type"@,
        "type_definition"@ != "sized_type_specifier"@,
        "type_identifier"@ != "primitive_type"@,
        "type_identifier"@ != "sized_type_specifier"@,
        "primitive_type"@ != "sized_type_specifier"@,
{
    reveal_strlit("function_definition");
    assert("function_definition"@.len() == 19);
    reveal_strlit("call_expression");
    assert("call_expression"@.len() == 15);
    reveal_strlit("struct_specifier");
    assert("struct_specifier"@.len() == 16);
    reveal_strlit("union_specifier");
    assert("union_specifier"@.len() == 15);
    reveal_strlit("enum_specifier");
    assert("enum_specifier"@.len() == 14);
    reveal_strlit("type_definition");
    assert("type_definition"@.len() == 15);
    reveal_strlit("type_identifier");
    assert("type_identifier"@.len() == 15);
    reveal_strlit("primitive_type");
    assert("primitive_type"@.len() == 14);
    reveal_strlit("sized_type_specifier");
    assert("sized_type_specifier"@.len() == 20);
    assert("call_expression"@[0] == 'c' && "union_specifier"@[0] == 'u');
    assert("call_expression"@[0] == 'c' && "type_definition"@[0] == 't');
    assert("call_expression"@[0] == 'c' && "type_identifier"@[0] == 't');
    assert("union_specifier"@[0] == 'u' && "type_definition"@[0] == 't');
    assert("union_specifier"@[0] == 'u' && "type_identifier"@[0] == 't');
    assert("enum_specifier"@[0] == 'e' && "primitive_type"@[0] == 'p');
    assert("type_definition"@[5] == 'd' && "type_identifier"@[5] == 'i');
}

proof fn lemma_rust_kinds_differ()
    ensures
        "function_item"@ != "call_expression"@,
        "function_item"@ != "struct_item"@,
        "function_item"@ != "enum_item"@,
        "function_item"@ != "union_item"@,
        "function_item"@ != "type_item"@,
        "function_item"@ != "type_identifier"@,
        "function_item"@ != "primitive_type"@,
        "call_expression"@ != "struct_item"@,
        "call_expression"@ != "enum_item"@,
        "call_expression"@ != "union_item"@,
        "call_expression"@ != "type_item"@,
        "call_expression"@ != "type_identifier"@,
        "call_expression"@ != "primitive_type"@,
        "struct_item"@ != "enum_item"@,
        "struct_item"@ != "union_item"@,
        "struct_item"@ != "type_item"@,
        "struct_item"@ != "type_identifier"@,
        "struct_item"@ != "primitive_type"@,
        "enum_item"@ != "union_item"@,
        "enum_item"@ != "type_item"@,
        "enum_item"@ != "type_identifier"@,
        "enum_item"@ != "primitive_type"@,
        "union_item"@ != "type_item"@,
        "union_item"@ != "type_identifier"@,
        "union_item"@ != "primitive_type"@,
        "type_item"@ != "type_identifier"@,
        "type_item"@ != "primitive_type"@,
        "type_identifier"@ != "primitive_type"@,
{
    reveal_strlit("function_item");
    assert("function_item"@.len() == 13);
    reveal_strlit("call_expression");
    assert("call_expression"@.len() == 15);
    reveal_strlit("struct_item");
    assert("struct_item"@.len() == 11);
    reveal_strlit("enum_item");
    assert("enum_item"@.len() == 9);
    reveal_strlit("union_item");
    assert("union_item"@.len() == 10);
    reveal_strlit("type_item");
    assert("type_item"@.len() == 9);
    reveal_strlit("type_identifier");
    assert("type_identifier"@.len() == 15);
    reveal_strlit("primitive_type");
    assert("primitive_type"@.len() == 14);
    assert("call_expression"@[0] == 'c' && "type_identifier"@[0] == 't');
    assert("enum_item"@[0] == 'e' && "type_item"@[0] == 't');
}

proof fn lemma_python_kinds_differ()
    ensures
        "function_definition"@ != "call"@,
        "function_definition"@ != "class_definition"@,
        "function_definition"@ != "type"@,
        "call"@ != "class_definition"@,
        "call"@ != "type"@,
        "class_definition"@ != "type"@,
{
    reveal_strlit("function_definition");
    assert("function_definition"@.len() == 19);
    reveal_strlit("call");
    assert("call"@.len() == 4);
    reveal_strlit("class_definition");
    assert("class_definition"@.len() == 16);
    reveal_strlit("type");
    assert("type"@.len() == 4);
    assert("call"@[0] == 'c' && "type"@[0] == 't');
}

proof fn lemma_zig_kinds_differ()
    ensures
        "function_declaration"@ != "test_declaration"@,
        "function_declaration"@ != "call_expression"@,
        "function_declaration"@ != "builtin_function"@,
        "function_declaration"@ != "variable_declaration"@,
        "function_declaration"@ != "builtin_type"@,
        "test_declaration"@ != "call_expression"@,
        "test_declaration"@ != "builtin_function"@,
        "test_declaration"@ != "variable_declaration"@,
        "test_declaration"@ != "builtin_type"@,
        "call_expression"@ != "builtin_function"@,
        "call_expression"@ != "variable_declaration"@,
        "call_expression"@ != "builtin_type"@,
        "builtin_function"@ != "variable_declaration"@,
        "builtin_function"@ != "builtin_type"@,
        "variable_declaration"@ != "builtin_type"@,
{
    reveal_strlit("function_declaration");
    assert("function_declaration"@.len() == 20);
    reveal_strlit("test_declaration");
    assert("test_declaration"@.len() == 16);
    reveal_strlit("call_expression");
    assert("call_expression"@.len() == 15);
    reveal_strlit("builtin_function");
    assert("builtin_function"@.len() == 16);
    reveal_strlit("variable_declaration");
    assert("variable_declaration"@.len() == 20);
    reveal_strlit("builtin_type");
    assert("builtin_type"@.len() == 12);
    assert("function_declaration"@[0] == 'f' && "variable_declaration"@[0] == 'v');
    assert("test_declaration"@[0] == 't' && "builtin_function"@[0] == 'b');
}

/// Whether a node of a kind has a node below it.
pub open spec fn has_above(n: Seq<NodeText>, i: int, kind: Seq<char>) -> bool {
    exists|p: int| is_below(n, p, i) && #[trigger] n[p].kind == kind
}

/// Whether a node of a kind has a node directly below it.
pub open spec fn has_right_above(n: Seq<NodeText>, i: int, kind: Seq<char>) -> bool {
    exists|p: int| is_right_below(n, p, i) && #[trigger] n[p].kind == kind
}

/// Whether a node has a child in a field.
pub open spec fn has_in_field(n: Seq<NodeText>, i: int, field: Seq<char>) -> bool {
    exists|j: int| #[trigger] is_child_of(n, i, j) && n[j].field == Some(field)
}

/// Whether the first child of a node in a field reads as a text.
pub open spec fn field_reads(n: Seq<NodeText>, i: int, field: Seq<char>, t: Seq<char>) -> bool {
    exists|j: int| #[trigger] is_first_in_field(n, i, j, field) && reads(n[j], t)
}

/// Whether the first named child of a node reads as a text.
pub open spec fn first_named_reads(n: Seq<NodeText>, i: int, t: Seq<char>) -> bool {
    exists|j: int| #[trigger] is_first_named(n, i, j) && reads(n[j], t)
}

/// Whether a node mentions a type. In C: a name of a type that is no part of a
/// typedef and names no struct, union or enum; a type of the language itself; a
/// struct, union or enum without a body. In Rust: a name of a type, or one of the
/// language, that is not the name being declared. In Python: an annotation. In Zig:
/// a type of the language.
pub open spec fn mentions(
    language: SurveyLanguage,
    n: Seq<NodeText>,
    i: int,
    t: Seq<char>,
) -> bool {
    reads(n[i], t) && match language {
        SurveyLanguage::C => {
            ||| n[i].kind == "type_identifier"@ && !has_above(n, i, "type_definition"@)
                && !has_right_above(n, i, "struct_specifier"@) && !has_right_above(
                n,
                i,
                "union_specifier"@,
            ) && !has_right_above(n, i, "enum_specifier"@)
            ||| n[i].kind == "primitive_type"@
            ||| n[i].kind == "sized_type_specifier"@
            ||| (n[i].kind == "struct_specifier"@ || n[i].kind == "union_specifier"@ || n[i].kind
                == "enum_specifier"@) && !has_in_field(n, i, "body"@)
        },
        SurveyLanguage::Rust => (n[i].kind == "type_identifier"@ || n[i].kind == "primitive_type"@)
            && !has_right_above(n, i, "struct_item"@) && !has_right_above(n, i, "enum_item"@)
            && !has_right_above(n, i, "union_item"@) && !has_right_above(n, i, "type_item"@),
        SurveyLanguage::Python => n[i].kind == "type"@,
        SurveyLanguage::Zig => n[i].kind == "builtin_type"@,
    }
}

/// Whether a node calls something: what stands where the function of a call does,
/// or in Zig the name of a builtin that is called.
pub open spec fn calls_text(
    language: SurveyLanguage,
    n: Seq<NodeText>,
    i: int,
    t: Seq<char>,
) -> bool {
    match language {
        SurveyLanguage::C => n[i].kind == "call_expression"@ && field_reads(n, i, "function"@, t),
        SurveyLanguage::Rust => n[i].kind == "call_expression"@ && field_reads(
            n,
            i,
            "function"@,
            t,
        ),
        SurveyLanguage::Python => n[i].kind == "call"@ && field_reads(n, i, "function"@, t),
        SurveyLanguage::Zig => (n[i].kind == "call_expression"@ && field_reads(
            n,
            i,
            "function"@,
            t,
        )) || (n[i].kind == "builtin_function"@ && first_named_reads(n, i, t)),
    }
}

proof fn lemma_parent_kind(n: Seq<NodeText>, i: int, kind: Seq<char>)
    requires
        0 <= i < n.len(),
    ensures
        (crate::file_survey::parent_kind(n, i) == Some(kind)) == has_right_above(n, i, kind),
{
    lemma_parent(n, i);
    match parent(n, i) {
        Some(p) => {
            if n[p].kind == kind {
                assert(is_right_below(n, p, i) && n[p].kind == kind);
            }
        },
        None => {},
    }
}

proof fn lemma_has_above(n: Seq<NodeText>, i: int, kind: Seq<char>)
    requires
        0 <= i < n.len(),
    ensures
        below_kind(n, i, kind) == has_above(n, i, kind),
{
    ancestors_are_the_nodes_above(n, i, kind);
    if below_kind(n, i, kind) {
        let p = choose|p: int| is_below(n, p, i) && n[p].kind == kind;
        assert(is_below(n, p, i) && n[p].kind == kind);
    }
}

proof fn lemma_has_in_field(n: Seq<NodeText>, i: int, field: Seq<char>)
    requires
        0 <= i < n.len(),
    ensures
        field_child(n, i, i + 1, field) is Some == has_in_field(n, i, field),
{
    lemma_field_child(n, i, i + 1, field);
}

proof fn lemma_field_reads(n: Seq<NodeText>, i: int, field: Seq<char>, t: Seq<char>)
    requires
        0 <= i < n.len(),
    ensures
        (crate::file_survey::field_source(n, i, field) == Some(t)) == field_reads(n, i, field, t),
{
    lemma_first_in_field(n, i, field);
}

proof fn lemma_mentions(language: SurveyLanguage, n: Seq<NodeText>, i: int, t: Seq<char>)
    requires
        0 <= i < n.len(),
    ensures
        node_facts(language, n, i).mentioned.contains(t) == mentions(language, n, i, t),
        node_facts(language, n, i).mentioned.len() <= 1,
{
    lemma_typedefs_say(n, i, i + 1);
    match language {
        SurveyLanguage::C => {
            lemma_c_kinds_differ();
            lemma_has_above(n, i, "type_definition"@);
            lemma_parent_kind(n, i, "struct_specifier"@);
            lemma_parent_kind(n, i, "union_specifier"@);
            lemma_parent_kind(n, i, "enum_specifier"@);
            lemma_has_in_field(n, i, "body"@);
        },
        SurveyLanguage::Rust => {
            lemma_rust_kinds_differ();
            lemma_parent_kind(n, i, "struct_item"@);
            lemma_parent_kind(n, i, "enum_item"@);
            lemma_parent_kind(n, i, "union_item"@);
            lemma_parent_kind(n, i, "type_item"@);
        },
        SurveyLanguage::Python => {
            lemma_python_kinds_differ();
        },
        SurveyLanguage::Zig => {
            lemma_zig_kinds_differ();
        },
    }
    let said = node_facts(language, n, i).mentioned;
    if said.len() == 1 {
        assert(said.contains(said[0]));
    }
    if mentions(language, n, i, t) {
        assert(said[0] == t);
    }
}

proof fn lemma_typedefs_say(n: Seq<NodeText>, i: int, j: int)
    ensures
        crate::file_survey::typedef_facts(n, i, j).mentioned.len() == 0,
        crate::file_survey::typedef_facts(n, i, j).calls.len() == 0,
        crate::file_survey::typedef_facts(n, i, j).functions.len() == 0,
    decreases n.len() - j,
{
    if !crate::syntax::ended(n, i, j) {
        lemma_typedefs_say(n, i, j + 1);
    }
}

proof fn lemma_calls(language: SurveyLanguage, n: Seq<NodeText>, i: int, t: Seq<char>)
    requires
        0 <= i < n.len(),
    ensures
        node_facts(language, n, i).calls.contains(t) == calls_text(language, n, i, t),
        node_facts(language, n, i).calls.len() <= 1,
{
    lemma_typedefs_say(n, i, i + 1);
    lemma_field_reads(n, i, "function"@, t);
    lemma_first_named(n, i);
    match language {
        SurveyLanguage::C => {
            lemma_c_kinds_differ();
        },
        SurveyLanguage::Rust => {
            lemma_rust_kinds_differ();
        },
        SurveyLanguage::Python => {
            lemma_python_kinds_differ();
        },
        SurveyLanguage::Zig => {
            lemma_zig_kinds_differ();
        },
    }
    let said = node_facts(language, n, i).calls;
    if said.len() == 1 {
        assert(said.contains(said[0]));
    }
    if calls_text(language, n, i, t) {
        assert(said[0] == t);
    }
}

/// The nodes, of the first so many, that mention a type.
pub open spec fn mentioning(
    language: SurveyLanguage,
    n: Seq<NodeText>,
    count: int,
    t: Seq<char>,
) -> Set<int> {
    Set::new(|i: int| 0 <= i < count && mentions(language, n, i, t))
}

/// The nodes, of the first so many, that call something.
pub open spec fn calling(
    language: SurveyLanguage,
    n: Seq<NodeText>,
    count: int,
    t: Seq<char>,
) -> Set<int> {
    Set::new(|i: int| 0 <= i < count && calls_text(language, n, i, t))
}

proof fn lemma_occurrences_add<V>(a: Seq<V>, b: Seq<V>, x: V)
    ensures
        occurrences(a + b, x) == occurrences(a, x) + occurrences(b, x),
    decreases b.len(),
{
    if b.len() == 0 {
        assert(a + b =~= a);
    } else {
        assert((a + b).drop_last() =~= a + b.drop_last());
        assert((a + b).last() == b.last());
        lemma_occurrences_add(a, b.drop_last(), x);
    }
}

proof fn lemma_occurs_once<V>(s: Seq<V>, x: V)
    requires
        s.len() <= 1,
    ensures
        occurrences(s, x) == (if s.contains(x) {
            1nat
        } else {
            0
        }),
{
    if s.len() == 1 {
        assert(s.drop_last() =~= Seq::<V>::empty());
        assert(occurrences(s.drop_last(), x) == 0);
        assert(s.last() == s[0]);
    }
}

proof fn lemma_one_more(small: Set<int>, big: Set<int>, i: int, added: bool)
    requires
        small.finite(),
        !small.contains(i),
        forall|k: int| #[trigger] big.contains(k) <==> small.contains(k) || (k == i && added),
    ensures
        big.finite(),
        big.len() == small.len() + (if added {
            1nat
        } else {
            0
        }),
{
    if added {
        assert(big =~= small.insert(i));
    } else {
        assert(big =~= small);
    }
}

proof fn lemma_counts(language: SurveyLanguage, n: Seq<NodeText>, count: nat, t: Seq<char>)
    requires
        count <= n.len(),
    ensures
        mentioning(language, n, count as int, t).finite(),
        calling(language, n, count as int, t).finite(),
        occurrences(facts_of(language, n, count).mentioned, t) == mentioning(
            language,
            n,
            count as int,
            t,
        ).len(),
        occurrences(facts_of(language, n, count).calls, t) == calling(
            language,
            n,
            count as int,
            t,
        ).len(),
    decreases count,
{
    if count == 0 {
        assert(mentioning(language, n, 0, t) =~= Set::empty());
        assert(calling(language, n, 0, t) =~= Set::empty());
    } else {
        let i = count - 1;
        lemma_counts(language, n, i as nat, t);
        let before = facts_of(language, n, i as nat);
        let here = node_facts(language, n, i);
        lemma_mentions(language, n, i, t);
        lemma_calls(language, n, i, t);
        lemma_occurrences_add(before.mentioned, here.mentioned, t);
        lemma_occurrences_add(before.calls, here.calls, t);
        lemma_occurs_once(here.mentioned, t);
        lemma_occurs_once(here.calls, t);
        lemma_one_more(
            mentioning(language, n, i, t),
            mentioning(language, n, i + 1, t),
            i,
            mentions(language, n, i, t),
        );
        lemma_one_more(
            calling(language, n, i, t),
            calling(language, n, i + 1, t),
            i,
            calls_text(language, n, i, t),
        );
    }
}

proof fn lemma_occurs<V>(s: Seq<V>, x: V)
    ensures
        occurrences(s, x) > 0 <==> s.contains(x),
    decreases s.len(),
{
    if s.len() > 0 {
        lemma_occurs(s.drop_last(), x);
        if s.drop_last().contains(x) {
            let i = choose|i: int| 0 <= i < s.drop_last().len() && s.drop_last()[i] == x;
            assert(s[i] == x);
        }
        if s.contains(x) {
            let i = choose|i: int| 0 <= i < s.len() && s[i] == x;
            if i < s.len() - 1 {
                assert(s.drop_last()[i] == x);
            }
        }
        if s.last() == x {
            assert(s[s.len() - 1] == x);
        }
    }
}

/// A tally names each text that is not empty once, in order, with how often it
/// occurs.
pub proof fn a_tally_counts_every_text(values: Seq<Seq<char>>)
    ensures
        forall|t: Seq<char>, c: nat| #[trigger]
            tally(values).contains((t, c)) <==> t.len() > 0 && c > 0 && c
                == values.to_multiset().count(t),
        ascending(tally(values).map_values(|p: (Seq<char>, nat)| p.0)),
{
    let wanted = |v: Seq<char>| v.len() > 0;
    let names = sorted_set(values.filter(wanted));
    let form = |name: Seq<char>| (name, occurrences(values, name));
    sorted_set_has_the_same_texts(values.filter(wanted));
    assert forall|t: Seq<char>, c: nat| #[trigger]
        tally(values).contains((t, c)) <==> t.len() > 0 && c > 0 && c
            == values.to_multiset().count(t) by {
        lemma_filter_contains(values, wanted, t);
        lemma_occurs(values, t);
        lemma_occurrences_is_count(values, t);
        if tally(values).contains((t, c)) {
            let i = choose|i: int| 0 <= i < tally(values).len() && tally(values)[i] == (t, c);
            assert(names[i] == t);
            assert(names.contains(t));
        }
        if t.len() > 0 && c > 0 && c == values.to_multiset().count(t) {
            assert(names.contains(t));
            let i = choose|i: int| 0 <= i < names.len() && names[i] == t;
            assert(tally(values)[i] == form(t));
        }
    }
    assert(tally(values).map_values(|p: (Seq<char>, nat)| p.0) =~= names);
}

proof fn lemma_occurrences_is_count<V>(s: Seq<V>, x: V)
    ensures
        occurrences(s, x) == s.to_multiset().count(x),
    decreases s.len(),
{
    broadcast use vstd::seq_lib::group_to_multiset_ensures;

    if s.len() > 0 {
        lemma_occurrences_is_count(s.drop_last(), x);
        assert(s =~= s.drop_last().push(s.last()));
    }
}

/// The types that a survey says are mentioned are those that nodes mention, but for
/// basic ones, each with the number of nodes that mention it.
pub proof fn types_are_mentioned_as_often_as_nodes_do(
    survey: FileSurvey,
    language: SurveyLanguage,
    file: Seq<char>,
    n: Seq<NodeText>,
    t: Seq<char>,
    count: nat,
)
    requires
        surveys(survey, language, file, n),
    ensures
        pair_texts(survey.types_mentioned@).contains((t, count)) <==> t.len() > 0 && !basic_type(
            language,
            t,
        ) && count > 0 && count == mentioning(language, n, n.len() as int, t).len(),
{
    let facts = facts_of(language, n, n.len());
    lemma_counts(language, n, n.len(), t);
    a_tally_counts_every_text(facts.mentioned);
    lemma_occurrences_is_count(facts.mentioned, t);
    lemma_filter_contains(
        tally(facts.mentioned),
        |p: (Seq<char>, nat)| !basic_type(language, p.0),
        (t, count),
    );
}

/// The calls that a survey lists are those that nodes make, each with the number of
/// nodes that make it.
pub proof fn calls_are_listed_as_often_as_they_are_made(
    survey: FileSurvey,
    language: SurveyLanguage,
    file: Seq<char>,
    n: Seq<NodeText>,
    t: Seq<char>,
    count: nat,
)
    requires
        surveys(survey, language, file, n),
    ensures
        pair_texts(survey.calls@).contains((t, count)) <==> t.len() > 0 && count > 0 && count
            == calling(language, n, n.len() as int, t).len(),
{
    let facts = facts_of(language, n, n.len());
    lemma_counts(language, n, n.len(), t);
    a_tally_counts_every_text(facts.calls);
    lemma_occurrences_is_count(facts.calls, t);
}

/// Whether a list of nodes is a way down a tree: each is a named child of the one
/// before it.
pub open spec fn is_named_way(n: Seq<NodeText>, way: Seq<int>) -> bool {
    forall|k: int|
        0 <= k < way.len() - 1 ==> is_child_of(n, #[trigger] way[k], way[k + 1]) && n[way[k
            + 1]].named
}

/// Whether a node is reached from another by way of named children.
pub open spec fn is_reached(n: Seq<NodeText>, i: int, k: int) -> bool {
    exists|way: Seq<int>|
        way.len() > 0 && way[0] == i && way.last() == k && #[trigger] is_named_way(n, way)
}

proof fn lemma_reached_is_below(n: Seq<NodeText>, i: int, k: int, way: Seq<int>)
    requires
        0 <= i < n.len(),
        way.len() > 0,
        way[0] == i,
        way.last() == k,
        is_named_way(n, way),
    ensures
        k == i || is_below(n, i, k),
    decreases way.len(),
{
    if way.len() > 1 {
        let init = way.drop_last();
        assert forall|m: int| 0 <= m < init.len() - 1 implies is_child_of(
            n,
            #[trigger] init[m],
            init[m + 1],
        ) && n[init[m + 1]].named by {
            assert(is_child_of(n, way[m], way[m + 1]));
        }
        let p = init.last();
        lemma_reached_is_below(n, i, p, init);
        assert(is_child_of(n, way[way.len() - 2], way[way.len() - 2 + 1]));
        assert(is_below(n, p, k));
        if p != i {
            assert forall|m: int| i < m <= k implies (#[trigger] n[m]).depth > n[i].depth by {
                if m > p {
                    assert(n[m].depth > n[p].depth);
                    assert(n[p].depth > n[i].depth);
                }
            }
        }
    }
}

proof fn lemma_on_by_child(n: Seq<NodeText>, i: int, k: int)
    requires
        0 <= i < n.len(),
        k != i,
        is_reached(n, i, k),
    ensures
        exists|c: int| is_child_of(n, i, c) && n[c].named && #[trigger] is_reached(n, c, k),
{
    let way = choose|way: Seq<int>|
        way.len() > 0 && way[0] == i && way.last() == k && #[trigger] is_named_way(n, way);
    let c = way[1];
    let rest = way.skip(1);
    assert(is_child_of(n, way[0], way[0int + 1]));
    assert forall|m: int| 0 <= m < rest.len() - 1 implies is_child_of(
        n,
        #[trigger] rest[m],
        rest[m + 1],
    ) && n[rest[m + 1]].named by {
        let from = way[m + 1];
        assert(is_child_of(n, from, way[m + 1 + 1]));
    }
    assert(rest.last() == k);
    assert(is_named_way(n, rest));
    assert(is_reached(n, c, k));
}

proof fn lemma_by_child(n: Seq<NodeText>, i: int, c: int, k: int)
    requires
        is_child_of(n, i, c),
        n[c].named,
        is_reached(n, c, k),
    ensures
        is_reached(n, i, k),
{
    let rest = choose|way: Seq<int>|
        way.len() > 0 && way[0] == c && way.last() == k && #[trigger] is_named_way(n, way);
    let way = seq![i] + rest;
    assert forall|m: int| 0 <= m < way.len() - 1 implies is_child_of(
        n,
        #[trigger] way[m],
        way[m + 1],
    ) && n[way[m + 1]].named by {
        if m > 0 {
            let from = rest[m - 1];
            assert(way[m] == from && way[m + 1] == rest[m - 1 + 1]);
            assert(is_child_of(n, from, rest[m - 1 + 1]));
        }
    }
    assert(way.last() == k);
    assert(is_named_way(n, way));
}

proof fn lemma_reached_by_child(n: Seq<NodeText>, i: int, k: int)
    requires
        0 <= i < n.len(),
    ensures
        is_reached(n, i, k) <==> k == i || exists|c: int|
            is_child_of(n, i, c) && n[c].named && #[trigger] is_reached(n, c, k),
{
    if k == i {
        let way = seq![i];
        assert(way.last() == k && is_named_way(n, way));
    } else if is_reached(n, i, k) {
        lemma_on_by_child(n, i, k);
    }
    if exists|c: int| is_child_of(n, i, c) && n[c].named && #[trigger] is_reached(n, c, k) {
        let c = choose|c: int|
            is_child_of(n, i, c) && n[c].named && #[trigger] is_reached(n, c, k);
        lemma_by_child(n, i, c, k);
    }
}

proof fn lemma_reached_in_order(n: Seq<NodeText>, i: int, c: int, d: int, k: int)
    requires
        0 <= i,
        is_child_of(n, i, c),
        is_child_of(n, i, d),
        c < d,
        is_reached(n, c, k),
    ensures
        c <= k < d,
{
    let way = choose|way: Seq<int>|
        way.len() > 0 && way[0] == c && way.last() == k && #[trigger] is_named_way(n, way);
    lemma_reached_is_below(n, c, k, way);
    if k >= d {
        assert(n[d].depth > n[c].depth);
    }
}

/// The first node of a kind that is reached from a node by way of named children is
/// the one found, if there is any.
pub proof fn the_first_of_a_kind_is_found(n: Seq<NodeText>, i: int, kind: Seq<char>)
    requires
        0 <= i < n.len(),
    ensures
        match crate::syntax::descendant(n, i, kind) {
            Some(f) => is_reached(n, i, f) && n[f].kind == kind && 0 <= f < n.len() && forall|
                k: int,
            | #[trigger] is_reached(n, i, k) && n[k].kind == kind ==> f <= k,
            None => forall|k: int| #[trigger] is_reached(n, i, k) ==> n[k].kind != kind,
        },
    decreases n.len() - i, 1int,
{
    lemma_reached_by_child(n, i, i);
    if n[i].kind == kind {
        assert forall|k: int| #[trigger] is_reached(n, i, k) && n[k].kind == kind implies i <= k by {
            let way = choose|way: Seq<int>|
                way.len() > 0 && way[0] == i && way.last() == k && #[trigger] is_named_way(n, way);
            lemma_reached_is_below(n, i, k, way);
        }
    } else {
        lemma_first_among(n, i, i + 1, kind);
        match crate::syntax::descendant_among(n, i, i + 1, kind) {
            Some(f) => {
                lemma_reached_by_child(n, i, f);
                assert forall|k: int| #[trigger] is_reached(n, i, k) && n[k].kind == kind implies f
                    <= k by {
                    lemma_reached_by_child(n, i, k);
                    let c = choose|c: int|
                        is_child_of(n, i, c) && n[c].named && #[trigger] is_reached(n, c, k);
                    assert(is_reached(n, c, k));
                }
            },
            None => {
                assert forall|k: int| #[trigger] is_reached(n, i, k) implies n[k].kind != kind by {
                    lemma_reached_by_child(n, i, k);
                    if k != i {
                        let c = choose|c: int|
                            is_child_of(n, i, c) && n[c].named && #[trigger] is_reached(n, c, k);
                        assert(is_reached(n, c, k));
                    }
                }
            },
        }
    }
}

proof fn lemma_first_among(n: Seq<NodeText>, i: int, j: int, kind: Seq<char>)
    requires
        0 <= i < j,
        i < n.len(),
        forall|k: int| i < k < j && k < n.len() ==> (#[trigger] n[k]).depth > n[i].depth,
    ensures
        match crate::syntax::descendant_among(n, i, j, kind) {
            Some(f) => {
                &&& 0 <= f < n.len()
                &&& n[f].kind == kind
                &&& exists|c: int|
                    j <= c && is_child_of(n, i, c) && n[c].named && #[trigger] is_reached(n, c, f)
                &&& forall|c: int, k: int|
                    j <= c && is_child_of(n, i, c) && n[c].named && #[trigger] is_reached(n, c, k)
                        && n[k].kind == kind ==> f <= k
            },
            None => forall|c: int, k: int|
                j <= c && is_child_of(n, i, c) && n[c].named && #[trigger] is_reached(n, c, k)
                    ==> n[k].kind != kind,
        },
    decreases n.len() - j, 2int,
{
    if j >= n.len() || n[j].depth <= n[i].depth {
        assert forall|c: int| j <= c implies !#[trigger] is_child_of(n, i, c) by {
            if is_child_of(n, i, c) {
                assert(n[j].depth > n[i].depth);
            }
        }
    } else {
        lemma_first_among(n, i, j + 1, kind);
        if n[j].depth == n[i].depth + 1 && n[j].named {
            assert(is_child_of(n, i, j));
            the_first_of_a_kind_is_found(n, j, kind);
            match crate::syntax::descendant(n, j, kind) {
                Some(f) => {
                    assert(is_reached(n, j, f));
                    assert forall|c: int, k: int|
                        j <= c && is_child_of(n, i, c) && n[c].named && #[trigger] is_reached(
                            n,
                            c,
                            k,
                        ) && n[k].kind == kind implies f <= k by {
                        if c > j {
                            lemma_reached_in_order(n, i, j, c, f);
                            let way = choose|way: Seq<int>|
                                way.len() > 0 && way[0] == c && way.last() == k
                                    && #[trigger] is_named_way(n, way);
                            lemma_reached_is_below(n, c, k, way);
                        }
                    }
                },
                None => {
                    assert forall|c: int, k: int|
                        j <= c && is_child_of(n, i, c) && n[c].named && #[trigger] is_reached(
                            n,
                            c,
                            k,
                        ) && n[k].kind == kind implies j + 1 <= c by {}
                },
            }
        } else {
            assert(!(is_child_of(n, i, j) && n[j].named));
        }
    }
}

/// Whether a node of a declaration can be the name it declares.
pub open spec fn is_name_node(node: NodeText) -> bool {
    node.kind == "identifier"@ || node.kind == "field_identifier"@ || node.kind
        == "type_identifier"@
}

/// The name that a declarator declares stands in it: it is what some name at or
/// below it reads. A declarator that is a name declares itself, and one with a
/// declarator in it declares what that one does.
pub proof fn declared_names_stand_in_the_declarator(n: Seq<NodeText>, i: int, t: Seq<char>)
    requires
        0 <= i < n.len(),
    ensures
        crate::syntax::declared_name(n, i) == Some(t) ==> exists|k: int|
            (k == i || is_below(n, i, k)) && #[trigger] is_name_node(n[k]) && reads(n[k], t),
        is_name_node(n[i]) ==> (crate::syntax::declared_name(n, i) == Some(t)) == reads(n[i], t),
        !is_name_node(n[i]) ==> forall|j: int|
            is_first_in_field(n, i, j, "declarator"@) && #[trigger] crate::syntax::declared_name(
                n,
                j,
            ) == Some(t) ==> crate::syntax::declared_name(n, i) == Some(t),
    decreases n.len() - i, 1int,
{
    if !is_name_node(n[i]) {
        lemma_first_in_field(n, i, "declarator"@);
        lemma_declared_among(n, i, i + 1, t);
        match field_child(n, i, i + 1, "declarator"@) {
            Some(j) => {
                declared_names_stand_in_the_declarator(n, j, t);
                if crate::syntax::declared_name(n, j) == Some(t) {
                    let k = choose|k: int|
                        (k == j || is_below(n, j, k)) && #[trigger] is_name_node(n[k]) && reads(
                            n[k],
                            t,
                        );
                    lemma_below_child(n, i, j, k);
                    assert(is_name_node(n[k]));
                }
            },
            None => {},
        }
    }
}

proof fn lemma_below_child(n: Seq<NodeText>, i: int, j: int, k: int)
    requires
        is_below(n, i, j),
        k == j || is_below(n, j, k),
    ensures
        is_below(n, i, k),
{
    assert forall|m: int| i < m <= k implies (#[trigger] n[m]).depth > n[i].depth by {
        if m > j {
            assert(n[m].depth > n[j].depth);
            assert(n[j].depth > n[i].depth);
        }
    }
}

proof fn lemma_declared_among(n: Seq<NodeText>, i: int, j: int, t: Seq<char>)
    requires
        0 <= i < j,
        i < n.len(),
        forall|k: int| i < k < j && k < n.len() ==> (#[trigger] n[k]).depth > n[i].depth,
    ensures
        crate::syntax::declared_among(n, i, j) == Some(t) ==> exists|k: int|
            is_below(n, i, k) && #[trigger] is_name_node(n[k]) && reads(n[k], t),
    decreases n.len() - j, 2int,
{
    if !(j >= n.len() || n[j].depth <= n[i].depth) {
        lemma_declared_among(n, i, j + 1, t);
        if n[j].depth == n[i].depth + 1 && n[j].named {
            assert(is_below(n, i, j));
            declared_names_stand_in_the_declarator(n, j, t);
            if crate::syntax::declared_name(n, j) == Some(t) {
                let k = choose|k: int|
                    (k == j || is_below(n, j, k)) && #[trigger] is_name_node(n[k]) && reads(
                        n[k],
                        t,
                    );
                lemma_below_child(n, i, j, k);
                assert(is_name_node(n[k]));
            }
        }
    }
}

/// Whether a node defines a function of a name. In C the name is that of the first
/// function declarator in the definition; in Rust, Python and Zig it is the name of
/// the item. In Zig a test is a function too, named by its string or identifier.
pub open spec fn defines_function(
    language: SurveyLanguage,
    n: Seq<NodeText>,
    i: int,
    t: Seq<char>,
) -> bool {
    match language {
        SurveyLanguage::C => n[i].kind == "function_definition"@ && exists|d: int, j: int|
            is_first_reached(n, i, d, "function_declarator"@) && #[trigger] is_first_in_field(
                n,
                d,
                j,
                "declarator"@,
            ) && crate::syntax::declared_name(n, j) == Some(t),
        SurveyLanguage::Rust => n[i].kind == "function_item"@ && field_reads(n, i, "name"@, t),
        SurveyLanguage::Python => n[i].kind == "function_definition"@ && field_reads(
            n,
            i,
            "name"@,
            t,
        ),
        SurveyLanguage::Zig => (n[i].kind == "function_declaration"@ && field_reads(
            n,
            i,
            "name"@,
            t,
        )) || (n[i].kind == "test_declaration"@ && exists|j: int|
            #[trigger] is_first_named(n, i, j) && (n[j].kind == "string"@ || n[j].kind
                == "identifier"@) && reads(n[j], t)),
    }
}

/// Whether a node is the first of a kind that is reached from another.
pub open spec fn is_first_reached(n: Seq<NodeText>, i: int, d: int, kind: Seq<char>) -> bool {
    &&& 0 <= d < n.len()
    &&& is_reached(n, i, d)
    &&& n[d].kind == kind
    &&& forall|k: int| #[trigger] is_reached(n, i, k) && n[k].kind == kind ==> d <= k
}

proof fn lemma_functions(language: SurveyLanguage, n: Seq<NodeText>, i: int, t: Seq<char>)
    requires
        0 <= i < n.len(),
    ensures
        forall|line: nat| #[trigger]
            node_facts(language, n, i).functions.contains(
                Defined { name: t, line },
            ) <==> defines_function(language, n, i, t) && line == n[i].row + 1,
        node_facts(language, n, i).functions.len() <= 1,
{
    lemma_typedefs_say(n, i, i + 1);
    lemma_field_reads(n, i, "name"@, t);
    lemma_first_named(n, i);
    the_first_of_a_kind_is_found(n, i, "function_declarator"@);
    match language {
        SurveyLanguage::C => {
            lemma_c_kinds_differ();
            match crate::syntax::descendant(n, i, "function_declarator"@) {
                Some(d) => {
                    lemma_first_in_field(n, d, "declarator"@);
                    assert(is_first_reached(n, i, d, "function_declarator"@));
                    assert forall|e: int| is_first_reached(n, i, e, "function_declarator"@) implies e
                        == d by {
                        assert(is_reached(n, i, e) && is_reached(n, i, d));
                    }
                    if defines_function(language, n, i, t) {
                        let (e, j) = choose|e: int, j: int|
                            is_first_reached(n, i, e, "function_declarator"@)
                                && #[trigger] is_first_in_field(n, e, j, "declarator"@)
                                && crate::syntax::declared_name(n, j) == Some(t);
                        assert(e == d);
                    }
                },
                None => {
                    assert forall|e: int| !is_first_reached(n, i, e, "function_declarator"@) by {
                        if is_first_reached(n, i, e, "function_declarator"@) {
                            assert(is_reached(n, i, e));
                        }
                    }
                },
            }
        },
        SurveyLanguage::Rust => {
            lemma_rust_kinds_differ();
        },
        SurveyLanguage::Python => {
            lemma_python_kinds_differ();
        },
        SurveyLanguage::Zig => {
            lemma_zig_kinds_differ();
        },
    }
    let said = node_facts(language, n, i).functions;
    if said.len() == 1 {
        assert(said.contains(said[0]));
    }
    if defines_function(language, n, i, t) {
        assert(said[0] == (Defined { name: t, line: (n[i].row + 1) as nat }));
    }
}

/// Whether a node defines a type, and its name as it is listed: with the word for
/// what it is, where it has one. In C a struct, union or enum with a body; in Rust,
/// Python and Zig an item that declares one.
pub open spec fn defines_type(
    language: SurveyLanguage,
    n: Seq<NodeText>,
    i: int,
    lead: Seq<char>,
    t: Seq<char>,
) -> bool {
    match language {
        SurveyLanguage::C => ((n[i].kind == "struct_specifier"@ && lead == "struct "@) || (n[i].kind
            == "union_specifier"@ && lead == "union "@) || (n[i].kind == "enum_specifier"@ && lead
            == "enum "@)) && has_in_field(n, i, "body"@) && field_reads(n, i, "name"@, t),
        SurveyLanguage::Rust => ((n[i].kind == "struct_item"@ && lead == "struct "@) || (n[i].kind
            == "enum_item"@ && lead == "enum "@) || (n[i].kind == "union_item"@ && lead
            == "union "@) || (n[i].kind == "type_item"@ && lead == ""@)) && field_reads(
            n,
            i,
            "name"@,
            t,
        ),
        SurveyLanguage::Python => n[i].kind == "class_definition"@ && lead == "class "@
            && field_reads(n, i, "name"@, t),
        SurveyLanguage::Zig => n[i].kind == "variable_declaration"@ && lead == ""@
            && crate::file_survey::zig_bound_type(n, i) == Some(t),
    }
}

/// Whether a typedef of C defines a type: one of its declarators declares the name.
pub open spec fn typedef_defines(n: Seq<NodeText>, i: int, t: Seq<char>) -> bool {
    n[i].kind == "type_definition"@ && exists|j: int|
        is_child_of(n, i, j) && n[j].field == Some("declarator"@)
            && #[trigger] crate::syntax::declared_name(n, j) == Some(t)
}

proof fn lemma_typedef_types(n: Seq<NodeText>, i: int, j: int, t: Seq<char>, line: nat)
    requires
        0 <= i < j,
        i < n.len(),
        forall|k: int| i < k < j && k < n.len() ==> (#[trigger] n[k]).depth > n[i].depth,
    ensures
        crate::file_survey::typedef_facts(n, i, j).types.contains(
            Defined { name: t, line },
        ) <==> line == n[i].row + 1 && exists|k: int|
            j <= k && is_child_of(n, i, k) && n[k].field == Some("declarator"@)
                && #[trigger] crate::syntax::declared_name(n, k) == Some(t),
    decreases n.len() - j,
{
    reveal_strlit("");
    let d = Defined { name: t, line };
    let now = crate::file_survey::typedef_facts(n, i, j).types;
    if j >= n.len() || n[j].depth <= n[i].depth {
        assert forall|c: int| j <= c implies !#[trigger] is_child_of(n, i, c) by {
            if is_child_of(n, i, c) {
                assert(n[j].depth > n[i].depth);
            }
        }
    } else {
        lemma_typedef_types(n, i, j + 1, t, line);
        let rest = crate::file_survey::typedef_facts(n, i, j + 1).types;
        if n[j].depth == n[i].depth + 1 && n[j].field == Some("declarator"@) {
            assert(is_child_of(n, i, j));
            match crate::syntax::declared_name(n, j) {
                Some(name) => {
                    assert(""@ + name =~= name);
                    let one = Defined { name, line: (n[i].row + 1) as nat };
                    assert(now =~= seq![one] + rest);
                    if now.contains(d) {
                        let k = choose|k: int| 0 <= k < now.len() && now[k] == d;
                        if k > 0 {
                            assert(rest[k - 1] == d);
                        }
                    }
                    if one == d {
                        assert(now[0] == d);
                    }
                    if rest.contains(d) {
                        let k = choose|k: int| 0 <= k < rest.len() && rest[k] == d;
                        assert(now[k + 1] == d);
                    }
                },
                None => {
                    assert(now =~= rest);
                },
            }
        } else {
            assert(!(is_child_of(n, i, j) && n[j].field == Some("declarator"@)));
        }
    }
}

proof fn lemma_types(language: SurveyLanguage, n: Seq<NodeText>, i: int, t: Seq<char>, line: nat)
    requires
        0 <= i < n.len(),
    ensures
        node_facts(language, n, i).types.contains(Defined { name: t, line })
            <==> line == n[i].row + 1 && ((language == SurveyLanguage::C && typedef_defines(n, i, t))
            || exists|lead: Seq<char>, name: Seq<char>|
            #[trigger] defines_type(language, n, i, lead, name) && t == lead + name),
{
    lemma_typedef_types(n, i, i + 1, t, line);
    lemma_has_in_field(n, i, "body"@);
    lemma_first_in_field(n, i, "name"@);
    lemma_leads_differ();
    let said = node_facts(language, n, i).types;
    let d = Defined { name: t, line };
    match language {
        SurveyLanguage::C => {
            lemma_c_kinds_differ();
        },
        SurveyLanguage::Rust => {
            lemma_rust_kinds_differ();
        },
        SurveyLanguage::Python => {
            lemma_python_kinds_differ();
        },
        SurveyLanguage::Zig => {
            lemma_zig_kinds_differ();
        },
    }
    let bound = crate::file_survey::zig_bound_type(n, i);
    let named = crate::file_survey::field_source(n, i, "name"@);
    if n[i].kind == "type_definition"@ && language == SurveyLanguage::C {
        assert forall|lead: Seq<char>, name: Seq<char>| !#[trigger] defines_type(
            language,
            n,
            i,
            lead,
            name,
        ) by {}
        if exists|k: int|
            i + 1 <= k && is_child_of(n, i, k) && n[k].field == Some("declarator"@)
                && #[trigger] crate::syntax::declared_name(n, k) == Some(t) {
            let k = choose|k: int|
                i + 1 <= k && is_child_of(n, i, k) && n[k].field == Some("declarator"@)
                    && #[trigger] crate::syntax::declared_name(n, k) == Some(t);
            assert(crate::syntax::declared_name(n, k) == Some(t));
        }
        if typedef_defines(n, i, t) {
            let k = choose|k: int|
                is_child_of(n, i, k) && n[k].field == Some("declarator"@)
                    && #[trigger] crate::syntax::declared_name(n, k) == Some(t);
            assert(i + 1 <= k);
        }
    } else {
        let lead = if language == SurveyLanguage::C || language == SurveyLanguage::Rust {
            if n[i].kind == "struct_specifier"@ || n[i].kind == "struct_item"@ {
                "struct "@
            } else if n[i].kind == "union_specifier"@ || n[i].kind == "union_item"@ {
                "union "@
            } else if n[i].kind == "type_item"@ {
                ""@
            } else {
                "enum "@
            }
        } else if language == SurveyLanguage::Python {
            "class "@
        } else {
            ""@
        };
        let name = if language == SurveyLanguage::Zig {
            bound
        } else {
            named
        };
        lemma_specifiers_are_no_items();
        assert(named is Some ==> field_reads(n, i, "name"@, named->0));
        assert forall|other: Seq<char>| field_reads(n, i, "name"@, other) implies named == Some(
            other,
        ) by {
            lemma_field_reads(n, i, "name"@, other);
        }
        if said.len() > 0 {
            assert(name is Some && said =~= seq![
                Defined {
                    name: lead + name->0,
                    line: (n[i].row + 1) as nat,
                },
            ]);
            assert(defines_type(language, n, i, lead, name->0));
        }
        if said.contains(d) {
            let k = choose|k: int| 0 <= k < said.len() && said[k] == d;
            assert(defines_type(language, n, i, lead, name->0) && t == lead + name->0);
        }
        if line == n[i].row + 1 && exists|l: Seq<char>, m: Seq<char>|
            #[trigger] defines_type(language, n, i, l, m) && t == l + m {
            let (l, m) = choose|l: Seq<char>, m: Seq<char>|
                #[trigger] defines_type(language, n, i, l, m) && t == l + m;
            assert(l == lead && name == Some(m));
            assert(said[0] == d);
        }
    }
}

proof fn lemma_specifiers_are_no_items()
    ensures
        "struct_specifier"@ != "struct_item"@,
        "struct_specifier"@ != "union_item"@,
        "struct_specifier"@ != "enum_item"@,
        "struct_specifier"@ != "type_item"@,
        "union_specifier"@ != "struct_item"@,
        "union_specifier"@ != "union_item"@,
        "union_specifier"@ != "enum_item"@,
        "union_specifier"@ != "type_item"@,
        "enum_specifier"@ != "struct_item"@,
        "enum_specifier"@ != "union_item"@,
        "enum_specifier"@ != "enum_item"@,
        "enum_specifier"@ != "type_item"@,
{
    reveal_strlit("struct_specifier");
    reveal_strlit("union_specifier");
    reveal_strlit("enum_specifier");
    reveal_strlit("struct_item");
    reveal_strlit("union_item");
    reveal_strlit("enum_item");
    reveal_strlit("type_item");
    assert("struct_specifier"@.len() == 16 && "union_specifier"@.len() == 15
        && "enum_specifier"@.len() == 14);
    assert("struct_item"@.len() == 11 && "union_item"@.len() == 10 && "enum_item"@.len() == 9
        && "type_item"@.len() == 9);
}

proof fn lemma_leads_differ()
    ensures
        "struct "@ != "union "@,
        "struct "@ != "enum "@,
        "union "@ != "enum "@,
{
    reveal_strlit("struct ");
    reveal_strlit("union ");
    reveal_strlit("enum ");
    assert("struct "@.len() == 7 && "union "@.len() == 6 && "enum "@.len() == 5);
}

proof fn lemma_facts_come_from_nodes(
    language: SurveyLanguage,
    n: Seq<NodeText>,
    count: nat,
    d: Defined,
)
    requires
        count <= n.len(),
    ensures
        facts_of(language, n, count).functions.contains(d) <==> exists|i: int|
            0 <= i < count && #[trigger] node_facts(language, n, i).functions.contains(d),
        facts_of(language, n, count).types.contains(d) <==> exists|i: int|
            0 <= i < count && #[trigger] node_facts(language, n, i).types.contains(d),
    decreases count,
{
    if count > 0 {
        let last = count - 1;
        lemma_facts_come_from_nodes(language, n, last as nat, d);
        let before = facts_of(language, n, last as nat);
        let here = node_facts(language, n, last);
        lemma_contains_add(before.functions, here.functions, d);
        lemma_contains_add(before.types, here.types, d);
        let now = facts_of(language, n, count);
        assert(now.functions == before.functions + here.functions);
        assert(now.types == before.types + here.types);
        if before.functions.contains(d) {
            let i = choose|i: int|
                0 <= i < last && #[trigger] node_facts(language, n, i).functions.contains(d);
            assert(node_facts(language, n, i).functions.contains(d));
        }
        if before.types.contains(d) {
            let i = choose|i: int|
                0 <= i < last && #[trigger] node_facts(language, n, i).types.contains(d);
            assert(node_facts(language, n, i).types.contains(d));
        }
    }
}

proof fn lemma_contains_add<T>(a: Seq<T>, b: Seq<T>, x: T)
    ensures
        (a + b).contains(x) <==> a.contains(x) || b.contains(x),
{
    if a.contains(x) {
        let i = choose|i: int| 0 <= i < a.len() && a[i] == x;
        assert((a + b)[i] == x);
    }
    if b.contains(x) {
        let i = choose|i: int| 0 <= i < b.len() && b[i] == x;
        assert((a + b)[a.len() + i] == x);
    }
    if (a + b).contains(x) {
        let i = choose|i: int| 0 <= i < (a + b).len() && (a + b)[i] == x;
        if i < a.len() {
            assert(a[i] == x);
        } else {
            assert(b[i - a.len()] == x);
        }
    }
}

proof fn lemma_with_definition(
    sorted: Seq<Defined>,
    d: Defined,
)
    requires
        forall|i: int, j: int|
            0 <= i <= j < sorted.len() ==> (#[trigger] sorted[i]).line <= (
            #[trigger] sorted[j]).line,
    ensures
        ({
            let r = crate::file_survey::with_definition(sorted, d);
            &&& forall|i: int, j: int|
                0 <= i <= j < r.len() ==> (#[trigger] r[i]).line <= (#[trigger] r[j]).line
            &&& r.to_multiset() == sorted.to_multiset().insert(d)
            &&& r.len() == sorted.len() + 1
            &&& r.last() == d || (sorted.len() > 0 && r.last() == sorted.last())
            &&& forall|i: int|
                0 <= i < r.len() ==> (#[trigger] r[i]).line <= d.line || (sorted.len() > 0
                    && r[i].line <= sorted.last().line)
        }),
    decreases sorted.len(),
{
    broadcast use vstd::seq_lib::group_to_multiset_ensures;

    let r = crate::file_survey::with_definition(sorted, d);
    if !(sorted.len() == 0 || sorted.last().line <= d.line) {
        let init = sorted.drop_last();
        lemma_with_definition(init, d);
        let inner = crate::file_survey::with_definition(init, d);
        assert(sorted =~= init.push(sorted.last()));
        assert(r == inner.push(sorted.last()));
        assert(r.to_multiset() =~= sorted.to_multiset().insert(d));
        assert forall|i: int, j: int| 0 <= i <= j < r.len() implies (#[trigger] r[i]).line <= (
        #[trigger] r[j]).line by {
            if j == r.len() - 1 && i < j {
                assert(inner[i] == r[i]);
                if init.len() > 0 {
                    assert(init.last() == sorted[sorted.len() - 2]);
                    assert(sorted[sorted.len() - 2].line <= sorted[sorted.len() - 1].line);
                }
            } else if i < j {
                assert(inner[i] == r[i] && inner[j] == r[j]);
            }
        }
    } else {
        assert(r == sorted.push(d));
        assert forall|i: int, j: int| 0 <= i <= j < r.len() implies (#[trigger] r[i]).line <= (
        #[trigger] r[j]).line by {
            if j == r.len() - 1 && i < j {
                assert(sorted[i].line <= sorted[sorted.len() - 1].line);
            }
        }
    }
}

/// Definitions are listed by the line they begin in, each as often as it was found.
pub proof fn definitions_are_listed_by_line(list: Seq<Defined>)
    ensures
        ({
            let r = crate::file_survey::by_line(list);
            &&& r.to_multiset() == list.to_multiset()
            &&& forall|i: int, j: int|
                0 <= i <= j < r.len() ==> (#[trigger] r[i]).line <= (#[trigger] r[j]).line
        }),
    decreases list.len(),
{
    broadcast use vstd::seq_lib::group_to_multiset_ensures;

    if list.len() > 0 {
        definitions_are_listed_by_line(list.drop_last());
        lemma_with_definition(crate::file_survey::by_line(list.drop_last()), list.last());
        assert(list =~= list.drop_last().push(list.last()));
    }
}

proof fn lemma_uncounted(list: Seq<Defined>, t: Seq<char>, c: nat)
    ensures
        crate::file_survey::uncounted(list).contains((t, c)) <==> c == 0 && exists|line: nat|
            #[trigger] list.contains(Defined { name: t, line }),
{
    broadcast use vstd::seq_lib::group_to_multiset_ensures;

    definitions_are_listed_by_line(list);
    let sorted = crate::file_survey::by_line(list);
    let shown = crate::file_survey::uncounted(list);
    assert forall|d: Defined| #[trigger] sorted.contains(d) <==> list.contains(
        d,
    ) by {
        assert(sorted.contains(d) <==> sorted.to_multiset().count(d) > 0);
        assert(list.contains(d) <==> list.to_multiset().count(d) > 0);
    }
    if shown.contains((t, c)) {
        let i = choose|i: int| 0 <= i < shown.len() && shown[i] == (t, c);
        let d = sorted[i];
        assert(sorted.contains(d));
        assert(d == (Defined { name: t, line: d.line }));
        assert(list.contains(Defined { name: t, line: d.line }));
    }
    if c == 0 && exists|line: nat|
        #[trigger] list.contains(Defined { name: t, line }) {
        let line = choose|line: nat|
            #[trigger] list.contains(Defined { name: t, line });
        let d = Defined { name: t, line };
        assert(sorted.contains(d));
        let i = choose|i: int| 0 <= i < sorted.len() && sorted[i] == d;
        assert(shown[i] == (t, 0nat));
    }
}

/// The functions that a survey lists are those that nodes define.
pub proof fn functions_are_listed_where_nodes_define_them(
    survey: FileSurvey,
    language: SurveyLanguage,
    file: Seq<char>,
    n: Seq<NodeText>,
    t: Seq<char>,
)
    requires
        surveys(survey, language, file, n),
    ensures
        pair_texts(survey.functions_defined@).contains((t, 0nat)) <==> exists|i: int|
            0 <= i < n.len() && #[trigger] defines_function(language, n, i, t),
        forall|p: (Seq<char>, nat)| #[trigger]
            pair_texts(survey.functions_defined@).contains(p) ==> p.1 == 0,
{
    let list = facts_of(language, n, n.len()).functions;
    lemma_uncounted(list, t, 0);
    assert forall|p: (Seq<char>, nat)| #[trigger]
        pair_texts(survey.functions_defined@).contains(p) implies p.1 == 0 by {
        lemma_uncounted(list, p.0, p.1);
    }
    if exists|line: nat| #[trigger] list.contains(Defined { name: t, line }) {
        let line = choose|line: nat|
            #[trigger] list.contains(Defined { name: t, line });
        let d = Defined { name: t, line };
        lemma_facts_come_from_nodes(language, n, n.len(), d);
        let i = choose|i: int|
            0 <= i < n.len() && #[trigger] node_facts(language, n, i).functions.contains(d);
        lemma_functions(language, n, i, t);
        assert(defines_function(language, n, i, t));
    }
    if exists|i: int| 0 <= i < n.len() && #[trigger] defines_function(language, n, i, t) {
        let i = choose|i: int| 0 <= i < n.len() && #[trigger] defines_function(language, n, i, t);
        let d = Defined { name: t, line: (n[i].row + 1) as nat };
        lemma_functions(language, n, i, t);
        assert(node_facts(language, n, i).functions.contains(d));
        lemma_facts_come_from_nodes(language, n, n.len(), d);
        assert(list.contains(Defined { name: t, line: d.line }));
    }
}

/// The types that a survey lists are those that nodes define, by the names they are
/// listed under.
pub proof fn types_are_listed_where_nodes_define_them(
    survey: FileSurvey,
    language: SurveyLanguage,
    file: Seq<char>,
    n: Seq<NodeText>,
    t: Seq<char>,
)
    requires
        surveys(survey, language, file, n),
    ensures
        pair_texts(survey.types_defined@).contains((t, 0nat)) <==> exists|i: int|
            0 <= i < n.len() && #[trigger] is_type_node(language, n, i, t),
{
    let list = facts_of(language, n, n.len()).types;
    lemma_uncounted(list, t, 0);
    if exists|line: nat| #[trigger] list.contains(Defined { name: t, line }) {
        let line = choose|line: nat|
            #[trigger] list.contains(Defined { name: t, line });
        let d = Defined { name: t, line };
        lemma_facts_come_from_nodes(language, n, n.len(), d);
        let i = choose|i: int|
            0 <= i < n.len() && #[trigger] node_facts(language, n, i).types.contains(d);
        lemma_types(language, n, i, t, line);
        assert(is_type_node(language, n, i, t));
    }
    if exists|i: int| 0 <= i < n.len() && #[trigger] is_type_node(language, n, i, t) {
        let i = choose|i: int| 0 <= i < n.len() && #[trigger] is_type_node(language, n, i, t);
        let line = (n[i].row + 1) as nat;
        let d = Defined { name: t, line };
        lemma_types(language, n, i, t, line);
        assert(node_facts(language, n, i).types.contains(d));
        lemma_facts_come_from_nodes(language, n, n.len(), d);
        assert(list.contains(Defined { name: t, line }));
    }
}

/// Whether a node defines a type that is listed under a name.
pub open spec fn is_type_node(
    language: SurveyLanguage,
    n: Seq<NodeText>,
    i: int,
    t: Seq<char>,
) -> bool {
    (language == SurveyLanguage::C && typedef_defines(n, i, t)) || exists|
        lead: Seq<char>,
        name: Seq<char>,
    | #[trigger] defines_type(language, n, i, lead, name) && t == lead + name
}

/// The broken nodes, of the first so many.
pub open spec fn broken_nodes(n: Seq<NodeText>, count: int) -> Set<int> {
    Set::new(|i: int| 0 <= i < count && n[i].broken)
}

/// A survey counts the nodes that stand for an error or for something missing, and
/// names its file.
pub proof fn errors_are_the_broken_nodes(
    survey: FileSurvey,
    language: SurveyLanguage,
    file: Seq<char>,
    n: Seq<NodeText>,
)
    requires
        surveys(survey, language, file, n),
    ensures
        survey.parse_errors == broken_nodes(n, n.len() as int).len(),
        survey.file@ == file,
        !survey.truncated,
{
    lemma_errors(language, n, n.len());
}

proof fn lemma_errors(language: SurveyLanguage, n: Seq<NodeText>, count: nat)
    requires
        count <= n.len(),
    ensures
        broken_nodes(n, count as int).finite(),
        facts_of(language, n, count).errors == broken_nodes(n, count as int).len(),
    decreases count,
{
    if count == 0 {
        assert(broken_nodes(n, 0) =~= Set::empty());
    } else {
        let i = count - 1;
        lemma_errors(language, n, i as nat);
        lemma_one_more(broken_nodes(n, i), broken_nodes(n, i + 1), i, n[i].broken);
        lemma_no_errors_said(language, n, i);
    }
}

proof fn lemma_no_errors_said(language: SurveyLanguage, n: Seq<NodeText>, i: int)
    ensures
        node_facts(language, n, i).errors == 0,
{
    lemma_typedefs_say_no_errors(n, i, i + 1);
}

proof fn lemma_typedefs_say_no_errors(n: Seq<NodeText>, i: int, j: int)
    ensures
        crate::file_survey::typedef_facts(n, i, j).errors == 0,
    decreases n.len() - j,
{
    if !crate::syntax::ended(n, i, j) {
        lemma_typedefs_say_no_errors(n, i, j + 1);
    }
}

/// The scalar types of C.
pub open spec fn c_scalar_names() -> Seq<Seq<char>> {
    seq![
        "void"@,
        "char"@,
        "signed char"@,
        "unsigned char"@,
        "short"@,
        "short int"@,
        "signed short"@,
        "signed short int"@,
        "unsigned short"@,
        "unsigned short int"@,
        "int"@,
        "signed"@,
        "signed int"@,
        "unsigned"@,
        "unsigned int"@,
        "long"@,
        "long int"@,
        "signed long"@,
        "signed long int"@,
        "unsigned long"@,
        "unsigned long int"@,
        "long long"@,
        "long long int"@,
        "signed long long"@,
        "signed long long int"@,
        "unsigned long long"@,
        "unsigned long long int"@,
        "float"@,
        "double"@,
        "long double"@,
        "_Bool"@,
        "bool"@,
        "wchar_t"@,
        "char8_t"@,
        "char16_t"@,
        "char32_t"@,
        "__int128"@,
        "unsigned __int128"@,
        "size_t"@,
        "ssize_t"@,
        "off_t"@,
        "loff_t"@,
        "ptrdiff_t"@,
        "intptr_t"@,
        "uintptr_t"@,
        "intmax_t"@,
        "uintmax_t"@,
    ]
}

proof fn lemma_c_scalar_names(name: Seq<char>)
    ensures
        crate::file_survey::c_scalar(name) <==> c_scalar_names().contains(name),
{
    let all = c_scalar_names();
    assert(all.len() == 47);
    assert(all[0] == "void"@);
    assert(all[1] == "char"@);
    assert(all[2] == "signed char"@);
    assert(all[3] == "unsigned char"@);
    assert(all[4] == "short"@);
    assert(all[5] == "short int"@);
    assert(all[6] == "signed short"@);
    assert(all[7] == "signed short int"@);
    assert(all[8] == "unsigned short"@);
    assert(all[9] == "unsigned short int"@);
    assert(all[10] == "int"@);
    assert(all[11] == "signed"@);
    assert(all[12] == "signed int"@);
    assert(all[13] == "unsigned"@);
    assert(all[14] == "unsigned int"@);
    assert(all[15] == "long"@);
    assert(all[16] == "long int"@);
    assert(all[17] == "signed long"@);
    assert(all[18] == "signed long int"@);
    assert(all[19] == "unsigned long"@);
    assert(all[20] == "unsigned long int"@);
    assert(all[21] == "long long"@);
    assert(all[22] == "long long int"@);
    assert(all[23] == "signed long long"@);
    assert(all[24] == "signed long long int"@);
    assert(all[25] == "unsigned long long"@);
    assert(all[26] == "unsigned long long int"@);
    assert(all[27] == "float"@);
    assert(all[28] == "double"@);
    assert(all[29] == "long double"@);
    assert(all[30] == "_Bool"@);
    assert(all[31] == "bool"@);
    assert(all[32] == "wchar_t"@);
    assert(all[33] == "char8_t"@);
    assert(all[34] == "char16_t"@);
    assert(all[35] == "char32_t"@);
    assert(all[36] == "__int128"@);
    assert(all[37] == "unsigned __int128"@);
    assert(all[38] == "size_t"@);
    assert(all[39] == "ssize_t"@);
    assert(all[40] == "off_t"@);
    assert(all[41] == "loff_t"@);
    assert(all[42] == "ptrdiff_t"@);
    assert(all[43] == "intptr_t"@);
    assert(all[44] == "uintptr_t"@);
    assert(all[45] == "intmax_t"@);
    assert(all[46] == "uintmax_t"@);
    if all.contains(name) {
        let i = choose|i: int| 0 <= i < all.len() && all[i] == name;
        assert(all[i] == name);
    }
}

/// The primitive types of Rust.
pub open spec fn rust_primitive_names() -> Seq<Seq<char>> {
    seq![
        "()"@,
        "!"@,
        "bool"@,
        "char"@,
        "str"@,
        "i8"@,
        "i16"@,
        "i32"@,
        "i64"@,
        "i128"@,
        "isize"@,
        "u8"@,
        "u16"@,
        "u32"@,
        "u64"@,
        "u128"@,
        "usize"@,
        "f32"@,
        "f64"@,
    ]
}

proof fn lemma_rust_primitive_names(name: Seq<char>)
    ensures
        crate::file_survey::rust_primitive(name) <==> rust_primitive_names().contains(name),
{
    let all = rust_primitive_names();
    assert(all.len() == 19);
    assert(all[0] == "()"@);
    assert(all[1] == "!"@);
    assert(all[2] == "bool"@);
    assert(all[3] == "char"@);
    assert(all[4] == "str"@);
    assert(all[5] == "i8"@);
    assert(all[6] == "i16"@);
    assert(all[7] == "i32"@);
    assert(all[8] == "i64"@);
    assert(all[9] == "i128"@);
    assert(all[10] == "isize"@);
    assert(all[11] == "u8"@);
    assert(all[12] == "u16"@);
    assert(all[13] == "u32"@);
    assert(all[14] == "u64"@);
    assert(all[15] == "u128"@);
    assert(all[16] == "usize"@);
    assert(all[17] == "f32"@);
    assert(all[18] == "f64"@);
    if all.contains(name) {
        let i = choose|i: int| 0 <= i < all.len() && all[i] == name;
        assert(all[i] == name);
    }
}

/// The built-in types of Python that hold a plain value.
pub open spec fn python_builtin_names() -> Seq<Seq<char>> {
    seq![
        "None"@,
        "bool"@,
        "int"@,
        "float"@,
        "complex"@,
        "str"@,
        "bytes"@,
        "bytearray"@,
    ]
}

proof fn lemma_python_builtin_names(name: Seq<char>)
    ensures
        crate::file_survey::python_builtin(name) <==> python_builtin_names().contains(name),
{
    let all = python_builtin_names();
    assert(all.len() == 8);
    assert(all[0] == "None"@);
    assert(all[1] == "bool"@);
    assert(all[2] == "int"@);
    assert(all[3] == "float"@);
    assert(all[4] == "complex"@);
    assert(all[5] == "str"@);
    assert(all[6] == "bytes"@);
    assert(all[7] == "bytearray"@);
    if all.contains(name) {
        let i = choose|i: int| 0 <= i < all.len() && all[i] == name;
        assert(all[i] == name);
    }
}

/// The types of Zig with a name of their own.
pub open spec fn zig_type_names() -> Seq<Seq<char>> {
    seq![
        "bool"@,
        "f16"@,
        "f32"@,
        "f64"@,
        "f128"@,
        "void"@,
        "type"@,
        "anyerror"@,
        "anyopaque"@,
        "anytype"@,
        "noreturn"@,
        "isize"@,
        "usize"@,
        "comptime_int"@,
        "comptime_float"@,
        "c_short"@,
        "c_ushort"@,
        "c_int"@,
        "c_uint"@,
        "c_long"@,
        "c_ulong"@,
        "c_longlong"@,
        "c_ulonglong"@,
        "c_longdouble"@,
    ]
}

proof fn lemma_zig_type_names(name: Seq<char>)
    ensures
        crate::file_survey::zig_word(name) <==> zig_type_names().contains(name),
{
    let all = zig_type_names();
    assert(all.len() == 24);
    assert(all[0] == "bool"@);
    assert(all[1] == "f16"@);
    assert(all[2] == "f32"@);
    assert(all[3] == "f64"@);
    assert(all[4] == "f128"@);
    assert(all[5] == "void"@);
    assert(all[6] == "type"@);
    assert(all[7] == "anyerror"@);
    assert(all[8] == "anyopaque"@);
    assert(all[9] == "anytype"@);
    assert(all[10] == "noreturn"@);
    assert(all[11] == "isize"@);
    assert(all[12] == "usize"@);
    assert(all[13] == "comptime_int"@);
    assert(all[14] == "comptime_float"@);
    assert(all[15] == "c_short"@);
    assert(all[16] == "c_ushort"@);
    assert(all[17] == "c_int"@);
    assert(all[18] == "c_uint"@);
    assert(all[19] == "c_long"@);
    assert(all[20] == "c_ulong"@);
    assert(all[21] == "c_longlong"@);
    assert(all[22] == "c_ulonglong"@);
    assert(all[23] == "c_longdouble"@);
    if all.contains(name) {
        let i = choose|i: int| 0 <= i < all.len() && all[i] == name;
        assert(all[i] == name);
    }
}

/// Whether a name is a width of an integer.
pub open spec fn is_width(width: Seq<char>) -> bool {
    width == "8"@ || width == "16"@ || width == "32"@ || width == "64"@ || width == "128"@
}

/// Whether a name is that of an integer of a width: `u` or `s` and the width, or
/// `int`, the width and `_t`, behind a lead.
pub open spec fn says_width(name: Seq<char>, lead: Seq<char>, width: Seq<char>) -> bool {
    is_width(width) && (name == lead + "u"@ + width || name == lead + "s"@ + width || name == lead
        + "int"@ + width + "_t"@)
}

spec fn has_width(bare: Seq<char>, width: Seq<char>) -> bool {
    let sized = after_prefix(bare, "int"@);
    ||| after_prefix(bare, "u"@) == Some(width)
    ||| after_prefix(bare, "u"@) is None && after_prefix(bare, "s"@) == Some(width)
    ||| after_prefix(bare, "u"@) is None && after_prefix(bare, "s"@) is None && sized is Some
        && crate::text::before_suffix(sized->0, "_t"@) == Some(width)
}

spec fn has_some_width(bare: Seq<char>) -> bool {
    let plain = after_prefix(bare, "u"@);
    let signed = after_prefix(bare, "s"@);
    let sized = after_prefix(bare, "int"@);
    ||| plain is Some && is_width(plain->0)
    ||| signed is Some && is_width(signed->0)
    ||| sized is Some && crate::text::before_suffix(sized->0, "_t"@) is Some && is_width(
        crate::text::before_suffix(sized->0, "_t"@)->0,
    )
}

proof fn lemma_says_width(bare: Seq<char>, width: Seq<char>)
    requires
        says_width(bare, ""@, width),
    ensures
        bare.len() > 0,
        bare[0] != '_',
        has_width(bare, width),
{
    reveal_strlit("u");
    reveal_strlit("s");
    reveal_strlit("int");
    reveal_strlit("_t");
    reveal_strlit("");
    let none = ""@;
    if bare == none + "u"@ + width {
        assert(bare.take(1) =~= "u"@);
        assert(bare.skip(1) =~= width);
    } else if bare == none + "s"@ + width {
        assert(bare.take(1) =~= "s"@);
        assert(bare.skip(1) =~= width);
        assert("s"@[0] != "u"@[0]);
    } else {
        assert(bare[0] == 'i');
        assert(bare.take(1)[0] == 'i');
        assert("s"@[0] == 's' && "u"@[0] == 'u');
        assert(bare.take(3) =~= "int"@);
        let sized = bare.skip(3);
        assert(sized =~= width + "_t"@);
        assert(sized.skip(sized.len() - 2) =~= "_t"@);
        assert(sized.take(sized.len() - 2) =~= width);
    }
}

proof fn lemma_width_is_said(bare: Seq<char>) -> (width: Seq<char>)
    requires
        has_some_width(bare),
    ensures
        says_width(bare, ""@, width),
{
    reveal_strlit("");
    let none = ""@;
    if after_prefix(bare, "u"@) is Some && is_width(after_prefix(bare, "u"@)->0) {
        let width = after_prefix(bare, "u"@)->0;
        assert(bare =~= none + "u"@ + width);
        width
    } else if after_prefix(bare, "s"@) is Some && is_width(after_prefix(bare, "s"@)->0) {
        let width = after_prefix(bare, "s"@)->0;
        assert(bare =~= none + "s"@ + width);
        width
    } else {
        let sized = after_prefix(bare, "int"@)->0;
        let width = crate::text::before_suffix(sized, "_t"@)->0;
        assert(sized =~= width + "_t"@);
        assert(bare =~= "int"@ + sized);
        assert(bare =~= none + "int"@ + width + "_t"@);
        width
    }
}

proof fn lemma_with_lead(bare: Seq<char>, lead: Seq<char>, width: Seq<char>)
    ensures
        says_width(lead + bare, lead, width) == says_width(bare, ""@, width),
{
    reveal_strlit("");
    let none = ""@;
    let name = lead + bare;
    let n = lead.len() as int;
    assert(name.skip(n) =~= bare);
    assert((lead + "u"@ + width).skip(n) =~= none + "u"@ + width);
    assert((lead + "s"@ + width).skip(n) =~= none + "s"@ + width);
    assert((lead + "int"@ + width + "_t"@).skip(n) =~= none + "int"@ + width + "_t"@);
    assert(lead + (none + "u"@ + width) =~= lead + "u"@ + width);
    assert(lead + (none + "s"@ + width) =~= lead + "s"@ + width);
    assert(lead + (none + "int"@ + width + "_t"@) =~= lead + "int"@ + width + "_t"@);
}

/// Whether a name is that of an integer of some width, with or without two
/// underscores before.
pub open spec fn says_some_width(name: Seq<char>) -> bool {
    exists|width: Seq<char>| #[trigger] is_sized_name(name, width)
}

/// Whether a name is that of an integer of a width, with or without two underscores
/// before.
pub open spec fn is_sized_name(name: Seq<char>, width: Seq<char>) -> bool {
    says_width(name, ""@, width) || says_width(name, "__"@, width)
}

/// An integer type of C that says its width: `u` or `s` and the width, or `int`, the
/// width and `_t`, all of them with or without two underscores before.
pub proof fn fixed_width_integers_say_their_width(name: Seq<char>)
    ensures
        crate::file_survey::fixed_width_integer(name) <==> says_some_width(name),
{
    reveal_strlit("__");
    reveal_strlit("");
    let none = ""@;
    let marked = has_prefix(name, "__"@);
    let bare = if marked {
        name.skip(2)
    } else {
        name
    };
    if marked {
        assert(name =~= "__"@ + bare);
        assert(name[0] == name.take(2)[0]);
        assert("__"@[0] == '_');
    }
    if crate::file_survey::fixed_width_integer(name) {
        let width = lemma_width_is_said(bare);
        if marked {
            lemma_with_lead(bare, "__"@, width);
        }
        assert(is_sized_name(name, width));
    }
    if says_some_width(name) {
        let width = choose|width: Seq<char>| #[trigger] is_sized_name(name, width);
        if says_width(name, none, width) {
            lemma_says_width(name, width);
            assert(!marked);
            assert(crate::file_survey::integer_width(width));
            assert(crate::file_survey::fixed_width_integer(name));
        } else {
            let rest = name.skip(2);
            assert(("__"@ + "u"@ + width).take(2) =~= "__"@);
            assert(("__"@ + "s"@ + width).take(2) =~= "__"@);
            assert(("__"@ + "int"@ + width + "_t"@).take(2) =~= "__"@);
            assert(name.len() >= 2);
            assert(name.take(2) == "__"@);
            assert(name =~= name.take(2) + rest);
            lemma_with_lead(rest, "__"@, width);
            assert(name.take(2) =~= "__"@);
            lemma_says_width(rest, width);
            assert(marked && bare == rest);
            assert(after_prefix(name, "__"@) == Some(rest));
            assert(crate::file_survey::integer_width(width));
            assert(crate::file_survey::fixed_width_integer(name));
        }
    }
}

/// The types that a survey does not list are the basic ones of the language and no
/// others, white space aside: those with a name of their own, the integers of C that
/// say their width, and the integers of Zig, a sign and any width.
pub proof fn basic_types_are_those_of_the_language(name: Seq<char>)
    ensures
        basic_type(SurveyLanguage::C, name) <==> c_scalar_names().contains(trimmed(name))
            || says_some_width(trimmed(name)),
        basic_type(SurveyLanguage::Rust, name) <==> rust_primitive_names().contains(trimmed(name)),
        basic_type(SurveyLanguage::Python, name) <==> python_builtin_names().contains(
            trimmed(name),
        ),
        basic_type(SurveyLanguage::Zig, name) <==> zig_type_names().contains(trimmed(name)) || {
            let t = trimmed(name);
            t.len() >= 2 && (t[0] == 'i' || t[0] == 'u') && forall|k: int|
                1 <= k < t.len() ==> '0' <= #[trigger] t[k] && t[k] <= '9'
        },
{
    let t = trimmed(name);
    lemma_c_scalar_names(t);
    fixed_width_integers_say_their_width(t);
    lemma_rust_primitive_names(t);
    lemma_python_builtin_names(t);
    lemma_zig_type_names(t);
    reveal_strlit("i");
    reveal_strlit("u");
    let sized = t.len() >= 2 && (t[0] == 'i' || t[0] == 'u') && forall|k: int|
        1 <= k < t.len() ==> '0' <= #[trigger] t[k] && t[k] <= '9';
    if crate::file_survey::zig_integer(t) {
        assert(t.take(1)[0] == t[0]);
        assert forall|k: int| 1 <= k < t.len() implies '0' <= #[trigger] t[k] && t[k] <= '9' by {
            assert(t.skip(1)[k - 1] == t[k]);
        }
    }
    if sized {
        if t[0] == 'i' {
            assert(t.take(1) =~= "i"@);
        } else {
            assert(t.take(1) =~= "u"@);
        }
        let digits = t.skip(1);
        assert forall|k: int| 0 <= k < digits.len() implies '0' <= #[trigger] digits[k] && digits[k]
            <= '9' by {
            assert(digits[k] == t[k + 1]);
        }
    }
}

/// A type is referred to by its name without the word for what it is, and by the
/// whole of it where there is no such word.
pub proof fn types_are_referred_to_without_the_word(name: Seq<char>)
    ensures
        crate::file_survey::bare_type_name("struct "@ + name) == name,
        crate::file_survey::bare_type_name("union "@ + name) == name,
        crate::file_survey::bare_type_name("enum "@ + name) == name,
        crate::file_survey::bare_type_name("class "@ + name) == name,
        !has_prefix(name, "struct "@) && !has_prefix(name, "union "@) && !has_prefix(name, "enum "@)
            && !has_prefix(name, "class "@) ==> crate::file_survey::bare_type_name(name) == name,
{
    reveal_strlit("struct ");
    reveal_strlit("union ");
    reveal_strlit("enum ");
    reveal_strlit("class ");
    let a = "struct "@ + name;
    assert(a.take(7) =~= "struct "@);
    assert(a.skip(7) =~= name);
    let b = "union "@ + name;
    assert(b.take(6) =~= "union "@);
    assert(b.skip(6) =~= name);
    assert(b[0] == 'u');
    if has_prefix(b, "struct "@) {
        assert(b.take(7)[0] == 's');
    }
    let c = "enum "@ + name;
    assert(c.take(5) =~= "enum "@);
    assert(c.skip(5) =~= name);
    assert(c[0] == 'e');
    if has_prefix(c, "struct "@) {
        assert(c.take(7)[0] == 's');
    }
    if has_prefix(c, "union "@) {
        assert(c.take(6)[0] == 'u');
    }
    let d = "class "@ + name;
    assert(d.take(6) =~= "class "@);
    assert(d.skip(6) =~= name);
    assert(d[0] == 'c');
    if has_prefix(d, "struct "@) {
        assert(d.take(7)[0] == 's');
    }
    if has_prefix(d, "union "@) {
        assert(d.take(6)[0] == 'u');
    }
    if has_prefix(d, "enum "@) {
        assert(d.take(5)[0] == 'e');
    }
}

/// Whether a node of Zig makes a type: a struct, an enum, a union, an opaque type, a
/// set of errors, or a call of a builtin that makes one.
pub open spec fn makes_type(n: Seq<NodeText>, j: int) -> bool {
    ||| n[j].kind == "struct_declaration"@
    ||| n[j].kind == "enum_declaration"@
    ||| n[j].kind == "union_declaration"@
    ||| n[j].kind == "opaque_declaration"@
    ||| n[j].kind == "error_set_declaration"@
    ||| n[j].kind == "builtin_function"@ && exists|k: int|
        #[trigger] is_first_named(n, j, k) && (n[k].text == Some("@Int"@) || n[k].text == Some(
            "@Struct"@,
        ) || n[k].text == Some("@Union"@) || n[k].text == Some("@Enum"@) || n[k].text == Some(
            "@Tuple"@,
        ) || n[k].text == Some("@Pointer"@) || n[k].text == Some("@Fn"@) || n[k].text == Some(
            "@EnumLiteral"@,
        ) || n[k].text == Some("@Type"@))
}

proof fn lemma_zig_has_type(n: Seq<NodeText>, i: int, from: int)
    requires
        0 <= i < from,
        i < n.len(),
        forall|k: int| i < k < from && k < n.len() ==> (#[trigger] n[k]).depth > n[i].depth,
    ensures
        crate::file_survey::zig_has_type(n, i, from) <==> exists|j: int|
            from <= j && is_child_of(n, i, j) && #[trigger] makes_type(n, j),
    decreases n.len() - from,
{
    if from >= n.len() || n[from].depth <= n[i].depth {
        assert forall|k: int| from <= k implies !#[trigger] is_child_of(n, i, k) by {
            if is_child_of(n, i, k) {
                assert(n[from].depth > n[i].depth);
            }
        }
    } else {
        lemma_zig_has_type(n, i, from + 1);
        lemma_first_named(n, from);
        assert((crate::file_survey::zig_type_kind(n[from].kind)
            || crate::file_survey::zig_makes_type(n, from)) == makes_type(n, from));
        assert(is_child_of(n, i, from) == (n[from].depth == n[i].depth + 1));
        if crate::file_survey::zig_has_type(n, i, from + 1) {
            let j = choose|j: int|
                from + 1 <= j && is_child_of(n, i, j) && #[trigger] makes_type(n, j);
            assert(makes_type(n, j));
        }
    }
}

proof fn lemma_kind_child(n: Seq<NodeText>, i: int, from: int, kind: Seq<char>)
    requires
        0 <= i < from,
        i < n.len(),
        forall|k: int| i < k < from && k < n.len() ==> (#[trigger] n[k]).depth > n[i].depth,
    ensures
        match crate::syntax::kind_child(n, i, from, kind) {
            Some(j) => from <= j && is_child_of(n, i, j) && n[j].kind == kind && forall|k: int|
                from <= k < j && #[trigger] is_child_of(n, i, k) ==> n[k].kind != kind,
            None => forall|k: int|
                from <= k && #[trigger] is_child_of(n, i, k) ==> n[k].kind != kind,
        },
    decreases n.len() - from,
{
    if from >= n.len() || n[from].depth <= n[i].depth {
        assert forall|k: int| from <= k implies !#[trigger] is_child_of(n, i, k) by {
            if is_child_of(n, i, k) {
                assert(n[from].depth > n[i].depth);
            }
        }
    } else if n[from].depth == n[i].depth + 1 && n[from].kind == kind {
        assert(is_child_of(n, i, from));
    } else {
        lemma_kind_child(n, i, from + 1, kind);
    }
}

/// A declaration of Zig binds a name to a type just when one of its children makes a
/// type: the name that its first identifier reads.
pub proof fn zig_declarations_bind_types(n: Seq<NodeText>, i: int, t: Seq<char>)
    requires
        0 <= i < n.len(),
    ensures
        crate::file_survey::zig_bound_type(n, i) == Some(t) <==> (exists|j: int|
            is_child_of(n, i, j) && #[trigger] makes_type(n, j)) && exists|j: int| #[trigger]
            is_child_of(n, i, j) && n[j].kind == "identifier"@ && reads(n[j], t) && forall|k: int|
                k < j && #[trigger] is_child_of(n, i, k) ==> n[k].kind != "identifier"@,
{
    lemma_zig_has_type(n, i, i + 1);
    lemma_kind_child(n, i, i + 1, "identifier"@);
    if exists|j: int| is_child_of(n, i, j) && #[trigger] makes_type(n, j) {
        let j = choose|j: int| is_child_of(n, i, j) && #[trigger] makes_type(n, j);
        assert(i + 1 <= j);
    }
    match crate::syntax::kind_child(n, i, i + 1, "identifier"@) {
        Some(j) => {
            assert(is_child_of(n, i, j));
            assert forall|k: int| k < j && #[trigger] is_child_of(n, i, k) implies n[k].kind
                != "identifier"@ by {
                assert(i + 1 <= k);
            }
        },
        None => {},
    }
}

/// The counts that a survey is filled with are those counted for its names: for a
/// function under its own name, for a type under the name it is referred to by, and
/// none where nothing was counted.
pub proof fn counts_are_filled_by_name(
    counts: Map<Seq<char>, usize>,
    name: Seq<char>,
)
    ensures
        counts.contains_key(name) ==> crate::file_survey::count_for(counts, name) == counts[name],
        !counts.contains_key(name) ==> crate::file_survey::count_for(counts, name) == 0,
{
}

} // verus!
