//! The syntax tree of a source file, as the list of its nodes in the order they
//! begin: each node, then what is below it, one level deeper.
use tree_sitter::Parser;
use tree_sitter_c::LANGUAGE as C_GRAMMAR;
use tree_sitter_python::LANGUAGE as PYTHON_GRAMMAR;
use tree_sitter_rust::LANGUAGE as RUST_GRAMMAR;
use tree_sitter_zig::LANGUAGE as ZIG_GRAMMAR;
use vstd::prelude::*;
use vstd::string::StringSliceAdditionalSpecFns;
use crate::revision::maybe_text;
use crate::text::{normalize, normalized, str_eq};

verus! {

/// The languages a survey reads.
#[derive(Debug, Clone, Copy, PartialEq, Eq, Structural)]
pub enum SurveyLanguage {
    C,
    Rust,
    Python,
    Zig,
}

/// A node of a syntax tree.
pub struct SyntaxNode {
    /// How far below the root it is.
    pub depth: u32,
    pub kind: String,
    /// The field of its parent that it stands in.
    pub field: Option<String>,
    pub named: bool,
    /// Whether it stands for an error, or for something missing.
    pub broken: bool,
    /// The source it covers.
    pub text: Option<String>,
    /// The line it begins in, counted from zero.
    pub row: usize,
}

/// What a node of a syntax tree says, apart from the strings that hold it.
pub struct NodeText {
    pub depth: u32,
    pub kind: Seq<char>,
    pub field: Option<Seq<char>>,
    pub named: bool,
    pub broken: bool,
    pub text: Option<Seq<char>>,
    pub row: usize,
}

impl View for SyntaxNode {
    type V = NodeText;

    open spec fn view(&self) -> NodeText {
        NodeText {
            depth: self.depth,
            kind: self.kind@,
            field: maybe_text(self.field),
            named: self.named,
            broken: self.broken,
            text: maybe_text(self.text),
            row: self.row,
        }
    }
}

/// What the nodes of a list say.
pub open spec fn node_texts(nodes: Seq<SyntaxNode>) -> Seq<NodeText> {
    nodes.map_values(|n: SyntaxNode| n@)
}

/// The nodes of the tree that a grammar makes of a source text, if it makes one.
pub uninterp spec fn parsed_nodes(
    language: SurveyLanguage,
    source: Seq<char>,
) -> Option<Seq<NodeText>>;

/// A node as a cursor shows it: how deep it is, its kind, the field it stands in,
/// whether it is named, an error or missing, its source and its row.
pub type ShownNode = (u32, String, Option<String>, bool, bool, bool, Option<String>, usize);

/// What a node that a cursor shows says.
pub open spec fn shown_text(node: ShownNode) -> NodeText {
    NodeText {
        depth: node.0,
        kind: node.1@,
        field: maybe_text(node.2),
        named: node.3,
        broken: node.4 || node.5,
        text: maybe_text(node.6),
        row: node.7,
    }
}

/// `tree_sitter::Parser::parse` with the grammar of a language: the nodes of the
/// tree it makes, as a cursor shows them one after the other. What the tree looks
/// like is left to the grammars.
#[verifier::external_body]
pub(crate) fn show_nodes(language: SurveyLanguage, source: &str) -> (r: Option<Vec<ShownNode>>)
    requires
        source.spec_bytes().len() <= u32::MAX,
    ensures
        match r {
            Some(nodes) => parsed_nodes(language, source@) == Some(
                nodes@.map_values(|n: ShownNode| shown_text(n)),
            ),
            None => parsed_nodes(language, source@) is None,
        },
{
    let mut parser = Parser::new();
    let grammar = match language {
        SurveyLanguage::C => C_GRAMMAR,
        SurveyLanguage::Rust => RUST_GRAMMAR,
        SurveyLanguage::Python => PYTHON_GRAMMAR,
        SurveyLanguage::Zig => ZIG_GRAMMAR
    };
    parser.set_language(&grammar.into()).ok()?;
    let tree = parser.parse(source, None)?;
    let mut at = tree.walk();
    Some((0..tree.root_node().descendant_count()).map(|i| {
        at.goto_descendant(i);
        let n = at.node();
        (at.depth(), n.kind().into(), at.field_name().map(String::from), n.is_named(), n.is_error(), n.is_missing(), source.get(n.byte_range()).map(String::from), n.start_position().row)
    }).collect())
}

/// The nodes of the tree that the grammar of a language makes of a source text,
/// if it makes one.
pub fn parse_nodes(language: SurveyLanguage, source: &str) -> (r: Option<Vec<SyntaxNode>>)
    requires
        source.spec_bytes().len() <= u32::MAX,
    ensures
        match r {
            Some(nodes) => parsed_nodes(language, source@) == Some(node_texts(nodes@)),
            None => parsed_nodes(language, source@) is None,
        },
{
    match show_nodes(language, source) {
        None => None,
        Some(shown) => {
            let ghost all = shown@;
            let ghost form = |n: ShownNode| shown_text(n);
            let mut nodes: Vec<SyntaxNode> = Vec::new();
            assert(node_texts(nodes@) =~= all.take(0).map_values(form));
            for s in it: shown
                invariant
                    it.seq() == all,
                    form == (|n: ShownNode| shown_text(n)),
                    node_texts(nodes@) == all.take(it.index()).map_values(form),
            {
                let ghost held = nodes@;
                let ghost text = shown_text(s);
                let (depth, kind, field, named, error, missing, text_of, row) = s;
                let node = SyntaxNode {
                    depth,
                    kind,
                    field,
                    named,
                    broken: error || missing,
                    text: text_of,
                    row,
                };
                nodes.push(node);
                proof {
                    assert(node@ == text);
                    assert(node_texts(nodes@) =~= node_texts(held).push(text));
                    assert(all.take(it.index() + 1).map_values(form) =~= all.take(
                        it.index(),
                    ).map_values(form).push(text));
                }
            }
            assert(all.take(all.len() as int) =~= all);
            Some(nodes)
        },
    }
}

/// Whether the nodes below a node have come to an end at a place after it.
pub open spec fn ended(n: Seq<NodeText>, i: int, j: int) -> bool {
    j >= n.len() || n[j].depth <= n[i].depth
}

/// Whether the node at a place, where those below another have not come to an
/// end, is a child of it: one level deeper.
pub open spec fn is_child(n: Seq<NodeText>, i: int, j: int) -> bool {
    n[j].depth == n[i].depth + 1
}

/// The source a node covers, its words with one space between each two.
pub open spec fn source_of(node: NodeText) -> Option<Seq<char>> {
    match node.text {
        Some(text) => Some(normalized(text)),
        None => None,
    }
}

/// The first child in a field, from a place on.
pub open spec fn field_child(n: Seq<NodeText>, i: int, j: int, field: Seq<char>) -> Option<int>
    decreases n.len() - j,
{
    if ended(n, i, j) {
        None
    } else if is_child(n, i, j) && n[j].field == Some(field) {
        Some(j)
    } else {
        field_child(n, i, j + 1, field)
    }
}

/// The first named child, from a place on.
pub open spec fn named_child(n: Seq<NodeText>, i: int, j: int) -> Option<int>
    decreases n.len() - j,
{
    if ended(n, i, j) {
        None
    } else if is_child(n, i, j) && n[j].named {
        Some(j)
    } else {
        named_child(n, i, j + 1)
    }
}

/// The first child of a kind, from a place on.
pub open spec fn kind_child(n: Seq<NodeText>, i: int, j: int, kind: Seq<char>) -> Option<int>
    decreases n.len() - j,
{
    if ended(n, i, j) {
        None
    } else if is_child(n, i, j) && n[j].kind == kind {
        Some(j)
    } else {
        kind_child(n, i, j + 1, kind)
    }
}

/// The first node of a kind at or below a node, by way of named nodes.
pub open spec fn descendant(n: Seq<NodeText>, i: int, kind: Seq<char>) -> Option<int>
    decreases n.len() - i, 1int,
{
    if i >= n.len() {
        None
    } else if n[i].kind == kind {
        Some(i)
    } else {
        descendant_among(n, i, i + 1, kind)
    }
}

/// The first node of a kind at or below the named children of a node, from a
/// place on.
pub open spec fn descendant_among(n: Seq<NodeText>, i: int, j: int, kind: Seq<char>) -> Option<int>
    decreases n.len() - j, 2int,
{
    if ended(n, i, j) {
        None
    } else if is_child(n, i, j) && n[j].named {
        match descendant(n, j, kind) {
            Some(found) => Some(found),
            None => descendant_among(n, i, j + 1, kind),
        }
    } else {
        descendant_among(n, i, j + 1, kind)
    }
}

/// The name that a declarator declares: its own source where it is a name, else
/// that of the declarator in it, or of the first of its named children that
/// declares one.
pub open spec fn declared_name(n: Seq<NodeText>, i: int) -> Option<Seq<char>>
    decreases n.len() - i, 1int,
{
    if i >= n.len() {
        None
    } else if n[i].kind == "identifier"@ || n[i].kind == "field_identifier"@ || n[i].kind
        == "type_identifier"@ {
        source_of(n[i])
    } else {
        let inner = match field_child(n, i, i + 1, "declarator"@) {
            Some(child) => if i < child < n.len() {
                declared_name(n, child)
            } else {
                None
            },
            None => None,
        };
        match inner {
            Some(name) => Some(name),
            None => declared_among(n, i, i + 1),
        }
    }
}

pub open spec fn declared_among(n: Seq<NodeText>, i: int, j: int) -> Option<Seq<char>>
    decreases n.len() - j, 2int,
{
    if ended(n, i, j) {
        None
    } else if is_child(n, i, j) && n[j].named {
        match declared_name(n, j) {
            Some(name) => Some(name),
            None => declared_among(n, i, j + 1),
        }
    } else {
        declared_among(n, i, j + 1)
    }
}

/// The node that a node is below, looked for from a place downwards: the last
/// one before it that is less deep.
pub open spec fn parent_from(n: Seq<NodeText>, i: int, k: int) -> Option<int>
    decreases k + 1,
{
    if k < 0 {
        None
    } else if n[k].depth < n[i].depth {
        Some(k)
    } else {
        parent_from(n, i, k - 1)
    }
}

/// The node that a node is below.
pub open spec fn parent(n: Seq<NodeText>, i: int) -> Option<int> {
    parent_from(n, i, i - 1)
}

/// Whether a node is below one of a kind.
pub open spec fn below_kind(n: Seq<NodeText>, i: int, kind: Seq<char>) -> bool
    decreases i,
{
    match parent(n, i) {
        None => false,
        Some(p) => n[p].kind == kind || (0 <= p < i && below_kind(n, p, kind)),
    }
}

impl SyntaxNode {
    /// Whether the node is of a kind.
    pub fn is_kind(&self, kind: &str) -> (r: bool)
        ensures
            r == (self@.kind == kind@),
    {
        str_eq(self.kind.as_str(), kind)
    }

    /// Whether the node stands in a field.
    pub fn in_field(&self, field: &str) -> (r: bool)
        ensures
            r == (self@.field == Some(field@)),
    {
        match &self.field {
            Some(own) => str_eq(own.as_str(), field),
            None => false,
        }
    }

    /// The source the node covers, its words with one space between each two.
    pub fn source(&self) -> (r: Option<String>)
        ensures
            same_text(r, source_of(self@)),
    {
        match &self.text {
            Some(text) => Some(normalize(text.as_str())),
            None => None,
        }
    }
}

/// Whether an optional string holds an optional text.
pub open spec fn same_text(s: Option<String>, text: Option<Seq<char>>) -> bool {
    maybe_text(s) == text
}

/// Whether an optional index is an optional place.
pub open spec fn same_place(i: Option<usize>, place: Option<int>) -> bool {
    match i {
        Some(i) => place == Some(i as int),
        None => place is None,
    }
}

pub fn find_field_child(nodes: &Vec<SyntaxNode>, i: usize, field: &str) -> (r: Option<usize>)
    requires
        i < nodes@.len(),
    ensures
        same_place(r, field_child(node_texts(nodes@), i as int, i + 1, field@)),
        r matches Some(j) ==> i < j < nodes@.len(),
{
    let ghost n = node_texts(nodes@);
    let end: usize = nodes.len();
    let mut j: usize = i + 1;
    while j < end && nodes[j].depth > nodes[i].depth
        invariant
            i < j <= end,
            end == nodes@.len(),
            n == node_texts(nodes@),
            field_child(n, i as int, i + 1, field@) == field_child(n, i as int, j as int, field@),
        decreases nodes@.len() - j,
    {
        assert(n[j as int] == nodes@[j as int]@ && n[i as int] == nodes@[i as int]@);
        if nodes[j].depth - nodes[i].depth == 1 && nodes[j].in_field(field) {
            return Some(j);
        }
        j += 1;
    }
    assert(j < n.len() ==> n[j as int] == nodes@[j as int]@);
    assert(n[i as int] == nodes@[i as int]@);
    None
}

pub fn first_named_child(nodes: &Vec<SyntaxNode>, i: usize) -> (r: Option<usize>)
    requires
        i < nodes@.len(),
    ensures
        same_place(r, named_child(node_texts(nodes@), i as int, i + 1)),
        r matches Some(j) ==> i < j < nodes@.len(),
{
    let ghost n = node_texts(nodes@);
    let end: usize = nodes.len();
    let mut j: usize = i + 1;
    while j < end && nodes[j].depth > nodes[i].depth
        invariant
            i < j <= end,
            end == nodes@.len(),
            n == node_texts(nodes@),
            named_child(n, i as int, i + 1) == named_child(n, i as int, j as int),
        decreases nodes@.len() - j,
    {
        assert(n[j as int] == nodes@[j as int]@ && n[i as int] == nodes@[i as int]@);
        if nodes[j].depth - nodes[i].depth == 1 && nodes[j].named {
            return Some(j);
        }
        j += 1;
    }
    assert(j < n.len() ==> n[j as int] == nodes@[j as int]@);
    assert(n[i as int] == nodes@[i as int]@);
    None
}

pub fn find_kind_child(nodes: &Vec<SyntaxNode>, i: usize, kind: &str) -> (r: Option<usize>)
    requires
        i < nodes@.len(),
    ensures
        same_place(r, kind_child(node_texts(nodes@), i as int, i + 1, kind@)),
        r matches Some(j) ==> i < j < nodes@.len(),
{
    let ghost n = node_texts(nodes@);
    let end: usize = nodes.len();
    let mut j: usize = i + 1;
    while j < end && nodes[j].depth > nodes[i].depth
        invariant
            i < j <= end,
            end == nodes@.len(),
            n == node_texts(nodes@),
            kind_child(n, i as int, i + 1, kind@) == kind_child(n, i as int, j as int, kind@),
        decreases nodes@.len() - j,
    {
        assert(n[j as int] == nodes@[j as int]@ && n[i as int] == nodes@[i as int]@);
        if nodes[j].depth - nodes[i].depth == 1 && nodes[j].is_kind(kind) {
            return Some(j);
        }
        j += 1;
    }
    assert(j < n.len() ==> n[j as int] == nodes@[j as int]@);
    assert(n[i as int] == nodes@[i as int]@);
    None
}

pub fn find_descendant(nodes: &Vec<SyntaxNode>, i: usize, kind: &str) -> (r: Option<usize>)
    requires
        i < nodes@.len(),
    ensures
        same_place(r, descendant(node_texts(nodes@), i as int, kind@)),
        r matches Some(j) ==> i <= j < nodes@.len(),
    decreases nodes@.len() - i,
{
    let ghost n = node_texts(nodes@);
    assert(n[i as int] == nodes@[i as int]@);
    if nodes[i].is_kind(kind) {
        return Some(i);
    }
    let end: usize = nodes.len();
    let mut j: usize = i + 1;
    while j < end && nodes[j].depth > nodes[i].depth
        invariant
            i < j <= end,
            end == nodes@.len(),
            n == node_texts(nodes@),
            descendant(n, i as int, kind@) == descendant_among(n, i as int, j as int, kind@),
        decreases nodes@.len() - j,
    {
        assert(n[j as int] == nodes@[j as int]@ && n[i as int] == nodes@[i as int]@);
        if nodes[j].depth - nodes[i].depth == 1 && nodes[j].named {
            if let Some(found) = find_descendant(nodes, j, kind) {
                return Some(found);
            }
        }
        j += 1;
    }
    assert(j < n.len() ==> n[j as int] == nodes@[j as int]@);
    None
}

pub fn declarator_name(nodes: &Vec<SyntaxNode>, i: usize) -> (r: Option<String>)
    requires
        i < nodes@.len(),
    ensures
        same_text(r, declared_name(node_texts(nodes@), i as int)),
    decreases nodes@.len() - i,
{
    let ghost n = node_texts(nodes@);
    assert(n[i as int] == nodes@[i as int]@);
    let node = &nodes[i];
    if node.is_kind("identifier") || node.is_kind("field_identifier") || node.is_kind(
        "type_identifier",
    ) {
        return node.source();
    }
    if let Some(child) = find_field_child(nodes, i, "declarator") {
        if let Some(name) = declarator_name(nodes, child) {
            return Some(name);
        }
    }
    let end: usize = nodes.len();
    let mut j: usize = i + 1;
    while j < end && nodes[j].depth > nodes[i].depth
        invariant
            i < j <= end,
            end == nodes@.len(),
            n == node_texts(nodes@),
            declared_name(n, i as int) == declared_among(n, i as int, j as int),
        decreases nodes@.len() - j,
    {
        assert(n[j as int] == nodes@[j as int]@ && n[i as int] == nodes@[i as int]@);
        if nodes[j].depth - nodes[i].depth == 1 && nodes[j].named {
            if let Some(name) = declarator_name(nodes, j) {
                return Some(name);
            }
        }
        j += 1;
    }
    assert(j < n.len() ==> n[j as int] == nodes@[j as int]@);
    None
}

pub fn parent_of(nodes: &Vec<SyntaxNode>, i: usize) -> (r: Option<usize>)
    requires
        i < nodes@.len(),
    ensures
        same_place(r, parent(node_texts(nodes@), i as int)),
        r matches Some(k) ==> k < i,
{
    let ghost n = node_texts(nodes@);
    let mut k: usize = i;
    while k > 0
        invariant
            k <= i < nodes@.len(),
            n == node_texts(nodes@),
            parent(n, i as int) == parent_from(n, i as int, k - 1),
        decreases k,
    {
        assert(n[k - 1] == nodes@[k - 1]@ && n[i as int] == nodes@[i as int]@);
        if nodes[k - 1].depth < nodes[i].depth {
            return Some(k - 1);
        }
        k -= 1;
    }
    None
}

pub fn has_ancestor(nodes: &Vec<SyntaxNode>, i: usize, kind: &str) -> (r: bool)
    requires
        i < nodes@.len(),
    ensures
        r == below_kind(node_texts(nodes@), i as int, kind@),
{
    let ghost n = node_texts(nodes@);
    let mut at: usize = i;
    loop
        invariant
            at < nodes@.len(),
            n == node_texts(nodes@),
            below_kind(n, i as int, kind@) == below_kind(n, at as int, kind@),
        decreases at,
    {
        match parent_of(nodes, at) {
            None => {
                return false;
            },
            Some(p) => {
                assert(n[p as int] == nodes@[p as int]@);
                if nodes[p].is_kind(kind) {
                    return true;
                }
                at = p;
            },
        }
    }
}

} // verus!
