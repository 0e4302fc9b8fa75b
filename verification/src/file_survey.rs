//! A survey of a source file: which functions and types it defines, which calls
//! it makes and which types it mentions.
use vstd::prelude::*;
use vstd::string::StringSliceAdditionalSpecFns;
use crate::keyed::{keep_rows, kept_is_a_filter, occurrences};
use crate::names::NameMap;
use crate::order::{inserted, ranked, sort_by_rank, sort_texts, sorted_set, Ranked};
use crate::file_extensions::supported;
use crate::paths::{below, extension_of, join_path, path_extension};
use crate::revision::maybe_text;
use crate::syntax::{
    below_kind, declarator_name, declared_name, descendant, ended, field_child, find_descendant,
    find_field_child, find_kind_child, first_named_child, has_ancestor, is_child, kind_child,
    named_child, node_texts, parent, parent_of, parse_nodes, parsed_nodes, source_of, NodeText,
    SurveyLanguage, SyntaxNode,
};
use crate::text::{
    after_prefix, before_suffix, chars_of, has_prefix, lemma_texts_push, starts_with, str_eq,
    strip_prefix, strip_suffix, texts, trim, trimmed,
};

verus! {

impl SurveyLanguage {
    /// The language of a file, by its extension.
    pub open spec fn of_extension(extension: Seq<char>) -> Option<SurveyLanguage> {
        if extension == "c"@ || extension == "h"@ || extension == "cpp"@ || extension == "cc"@
            || extension == "cxx"@ || extension == "c++"@ || extension == "hh"@ || extension
            == "hpp"@ || extension == "hxx"@ || extension == "h++"@ {
            Some(SurveyLanguage::C)
        } else if extension == "rs"@ {
            Some(SurveyLanguage::Rust)
        } else if extension == "py"@ {
            Some(SurveyLanguage::Python)
        } else if extension == "zig"@ {
            Some(SurveyLanguage::Zig)
        } else {
            None
        }
    }

    /// The language of a path.
    pub open spec fn of_path(path: Seq<char>) -> Option<SurveyLanguage> {
        match path_extension(path) {
            Some(extension) => Self::of_extension(extension),
            None => None,
        }
    }

    /// The language of a file, by its extension.
    pub fn from_path(path: &str) -> (r: Option<Self>)
        ensures
            r == Self::of_path(path@),
    {
        let extension = match extension_of(path) {
            Some(extension) => extension,
            None => {
                return None;
            },
        };
        let e = extension.as_str();
        if str_eq(e, "c") || str_eq(e, "h") || str_eq(e, "cpp") || str_eq(e, "cc") || str_eq(
            e,
            "cxx",
        ) || str_eq(e, "c++") || str_eq(e, "hh") || str_eq(e, "hpp") || str_eq(e, "hxx") || str_eq(
            e,
            "h++",
        ) {
            Some(SurveyLanguage::C)
        } else if str_eq(e, "rs") {
            Some(SurveyLanguage::Rust)
        } else if str_eq(e, "py") {
            Some(SurveyLanguage::Python)
        } else if str_eq(e, "zig") {
            Some(SurveyLanguage::Zig)
        } else {
            None
        }
    }
}

/// The scalar types of C.
pub open spec fn c_scalar(name: Seq<char>) -> bool {
    ||| name == "void"@
    ||| name == "char"@
    ||| name == "signed char"@
    ||| name == "unsigned char"@
    ||| name == "short"@
    ||| name == "short int"@
    ||| name == "signed short"@
    ||| name == "signed short int"@
    ||| name == "unsigned short"@
    ||| name == "unsigned short int"@
    ||| name == "int"@
    ||| name == "signed"@
    ||| name == "signed int"@
    ||| name == "unsigned"@
    ||| name == "unsigned int"@
    ||| name == "long"@
    ||| name == "long int"@
    ||| name == "signed long"@
    ||| name == "signed long int"@
    ||| name == "unsigned long"@
    ||| name == "unsigned long int"@
    ||| name == "long long"@
    ||| name == "long long int"@
    ||| name == "signed long long"@
    ||| name == "signed long long int"@
    ||| name == "unsigned long long"@
    ||| name == "unsigned long long int"@
    ||| name == "float"@
    ||| name == "double"@
    ||| name == "long double"@
    ||| name == "_Bool"@
    ||| name == "bool"@
    ||| name == "wchar_t"@
    ||| name == "char8_t"@
    ||| name == "char16_t"@
    ||| name == "char32_t"@
    ||| name == "__int128"@
    ||| name == "unsigned __int128"@
    ||| name == "size_t"@
    ||| name == "ssize_t"@
    ||| name == "off_t"@
    ||| name == "loff_t"@
    ||| name == "ptrdiff_t"@
    ||| name == "intptr_t"@
    ||| name == "uintptr_t"@
    ||| name == "intmax_t"@
    ||| name == "uintmax_t"@
}

fn is_c_scalar(name: &str) -> (r: bool)
    ensures
        r == c_scalar(name@),
{
    str_eq(name, "void")
        || str_eq(name, "char")
        || str_eq(name, "signed char")
        || str_eq(name, "unsigned char")
        || str_eq(name, "short")
        || str_eq(name, "short int")
        || str_eq(name, "signed short")
        || str_eq(name, "signed short int")
        || str_eq(name, "unsigned short")
        || str_eq(name, "unsigned short int")
        || str_eq(name, "int")
        || str_eq(name, "signed")
        || str_eq(name, "signed int")
        || str_eq(name, "unsigned")
        || str_eq(name, "unsigned int")
        || str_eq(name, "long")
        || str_eq(name, "long int")
        || str_eq(name, "signed long")
        || str_eq(name, "signed long int")
        || str_eq(name, "unsigned long")
        || str_eq(name, "unsigned long int")
        || str_eq(name, "long long")
        || str_eq(name, "long long int")
        || str_eq(name, "signed long long")
        || str_eq(name, "signed long long int")
        || str_eq(name, "unsigned long long")
        || str_eq(name, "unsigned long long int")
        || str_eq(name, "float")
        || str_eq(name, "double")
        || str_eq(name, "long double")
        || str_eq(name, "_Bool")
        || str_eq(name, "bool")
        || str_eq(name, "wchar_t")
        || str_eq(name, "char8_t")
        || str_eq(name, "char16_t")
        || str_eq(name, "char32_t")
        || str_eq(name, "__int128")
        || str_eq(name, "unsigned __int128")
        || str_eq(name, "size_t")
        || str_eq(name, "ssize_t")
        || str_eq(name, "off_t")
        || str_eq(name, "loff_t")
        || str_eq(name, "ptrdiff_t")
        || str_eq(name, "intptr_t")
        || str_eq(name, "uintptr_t")
        || str_eq(name, "intmax_t")
        || str_eq(name, "uintmax_t")
}

/// The primitive types of Rust.
pub open spec fn rust_primitive(name: Seq<char>) -> bool {
    ||| name == "()"@
    ||| name == "!"@
    ||| name == "bool"@
    ||| name == "char"@
    ||| name == "str"@
    ||| name == "i8"@
    ||| name == "i16"@
    ||| name == "i32"@
    ||| name == "i64"@
    ||| name == "i128"@
    ||| name == "isize"@
    ||| name == "u8"@
    ||| name == "u16"@
    ||| name == "u32"@
    ||| name == "u64"@
    ||| name == "u128"@
    ||| name == "usize"@
    ||| name == "f32"@
    ||| name == "f64"@
}

fn is_rust_primitive(name: &str) -> (r: bool)
    ensures
        r == rust_primitive(name@),
{
    str_eq(name, "()")
        || str_eq(name, "!")
        || str_eq(name, "bool")
        || str_eq(name, "char")
        || str_eq(name, "str")
        || str_eq(name, "i8")
        || str_eq(name, "i16")
        || str_eq(name, "i32")
        || str_eq(name, "i64")
        || str_eq(name, "i128")
        || str_eq(name, "isize")
        || str_eq(name, "u8")
        || str_eq(name, "u16")
        || str_eq(name, "u32")
        || str_eq(name, "u64")
        || str_eq(name, "u128")
        || str_eq(name, "usize")
        || str_eq(name, "f32")
        || str_eq(name, "f64")
}

/// The built-in types of Python that hold a plain value.
pub open spec fn python_builtin(name: Seq<char>) -> bool {
    ||| name == "None"@
    ||| name == "bool"@
    ||| name == "int"@
    ||| name == "float"@
    ||| name == "complex"@
    ||| name == "str"@
    ||| name == "bytes"@
    ||| name == "bytearray"@
}

fn is_python_builtin(name: &str) -> (r: bool)
    ensures
        r == python_builtin(name@),
{
    str_eq(name, "None")
        || str_eq(name, "bool")
        || str_eq(name, "int")
        || str_eq(name, "float")
        || str_eq(name, "complex")
        || str_eq(name, "str")
        || str_eq(name, "bytes")
        || str_eq(name, "bytearray")
}

/// The types of Zig that have a name of their own.
pub open spec fn zig_word(name: Seq<char>) -> bool {
    ||| name == "bool"@
    ||| name == "f16"@
    ||| name == "f32"@
    ||| name == "f64"@
    ||| name == "f128"@
    ||| name == "void"@
    ||| name == "type"@
    ||| name == "anyerror"@
    ||| name == "anyopaque"@
    ||| name == "anytype"@
    ||| name == "noreturn"@
    ||| name == "isize"@
    ||| name == "usize"@
    ||| name == "comptime_int"@
    ||| name == "comptime_float"@
    ||| name == "c_short"@
    ||| name == "c_ushort"@
    ||| name == "c_int"@
    ||| name == "c_uint"@
    ||| name == "c_long"@
    ||| name == "c_ulong"@
    ||| name == "c_longlong"@
    ||| name == "c_ulonglong"@
    ||| name == "c_longdouble"@
}

fn is_zig_word(name: &str) -> (r: bool)
    ensures
        r == zig_word(name@),
{
    str_eq(name, "bool")
        || str_eq(name, "f16")
        || str_eq(name, "f32")
        || str_eq(name, "f64")
        || str_eq(name, "f128")
        || str_eq(name, "void")
        || str_eq(name, "type")
        || str_eq(name, "anyerror")
        || str_eq(name, "anyopaque")
        || str_eq(name, "anytype")
        || str_eq(name, "noreturn")
        || str_eq(name, "isize")
        || str_eq(name, "usize")
        || str_eq(name, "comptime_int")
        || str_eq(name, "comptime_float")
        || str_eq(name, "c_short")
        || str_eq(name, "c_ushort")
        || str_eq(name, "c_int")
        || str_eq(name, "c_uint")
        || str_eq(name, "c_long")
        || str_eq(name, "c_ulong")
        || str_eq(name, "c_longlong")
        || str_eq(name, "c_ulonglong")
        || str_eq(name, "c_longdouble")
}

/// Whether all characters are ASCII digits, and there are some.
pub open spec fn all_digits(s: Seq<char>) -> bool {
    s.len() > 0 && forall|i: int| 0 <= i < s.len() ==> '0' <= #[trigger] s[i] && s[i] <= '9'
}

/// The integer types of Zig: a sign and a width.
pub open spec fn zig_integer(name: Seq<char>) -> bool {
    ||| after_prefix(name, "i"@) matches Some(digits) && all_digits(digits)
    ||| after_prefix(name, "u"@) matches Some(digits) && all_digits(digits)
}

fn are_digits(s: &str) -> (r: bool)
    ensures
        r == all_digits(s@),
{
    let chars = chars_of(s);
    if chars.len() == 0 {
        return false;
    }
    let mut i: usize = 0;
    while i < chars.len()
        invariant
            i <= chars@.len(),
            chars@ == s@,
            forall|j: int| 0 <= j < i ==> '0' <= #[trigger] s@[j] && s@[j] <= '9',
        decreases chars@.len() - i,
    {
        if !('0' <= chars[i] && chars[i] <= '9') {
            assert(!('0' <= s@[i as int] && s@[i as int] <= '9'));
            return false;
        }
        i += 1;
    }
    true
}

/// Whether a name is that of an integer type of Zig.
pub fn is_zig_integer_type(name: &str) -> (r: bool)
    ensures
        r == zig_integer(name@),
{
    proof {
        reveal_strlit("i");
        reveal_strlit("u");
        if has_prefix(name@, "i"@) && has_prefix(name@, "u"@) {
            assert(name@.take(1)[0] == 'i');
            assert(name@.take(1)[0] == 'u');
        }
    }
    match strip_prefix(name, "i") {
        Some(digits) => are_digits(digits.as_str()),
        None => match strip_prefix(name, "u") {
            Some(digits) => are_digits(digits.as_str()),
            None => false,
        },
    }
}

/// Whether a name is that of a basic type of Zig.
pub fn is_zig_basic_type(name: &str) -> (r: bool)
    ensures
        r == (zig_word(name@) || zig_integer(name@)),
{
    is_zig_word(name) || is_zig_integer_type(name)
}

pub open spec fn integer_width(width: Seq<char>) -> bool {
    width == "8"@ || width == "16"@ || width == "32"@ || width == "64"@ || width == "128"@
}

fn is_integer_width(width: &str) -> (r: bool)
    ensures
        r == integer_width(width@),
{
    str_eq(width, "8") || str_eq(width, "16") || str_eq(width, "32") || str_eq(width, "64")
        || str_eq(width, "128")
}

/// The integer types of C whose name says their width: `u32`, `__s64`,
/// `int32_t`. A name that begins with `u` has nothing but the width after it, so
/// `uint8_t` is none of them.
pub open spec fn fixed_width_integer(name: Seq<char>) -> bool {
    let name = match after_prefix(name, "__"@) {
        Some(rest) => rest,
        None => name,
    };
    if let Some(width) = after_prefix(name, "u"@) {
        integer_width(width)
    } else if let Some(width) = after_prefix(name, "s"@) {
        integer_width(width)
    } else {
        match after_prefix(name, "int"@) {
            Some(sized) => match before_suffix(sized, "_t"@) {
                Some(width) => integer_width(width),
                None => false,
            },
            None => false,
        }
    }
}

/// Whether a name is that of an integer type of C that says its width.
pub fn is_fixed_width_integer(name: &str) -> (r: bool)
    ensures
        r == fixed_width_integer(name@),
{
    let bare = match strip_prefix(name, "__") {
        Some(rest) => rest,
        None => String::from_str(name),
    };
    if let Some(width) = strip_prefix(bare.as_str(), "u") {
        return is_integer_width(width.as_str());
    }
    if let Some(width) = strip_prefix(bare.as_str(), "s") {
        return is_integer_width(width.as_str());
    }
    match strip_prefix(bare.as_str(), "int") {
        Some(sized) => match strip_suffix(sized.as_str(), "_t") {
            Some(width) => is_integer_width(width.as_str()),
            None => false,
        },
        None => false,
    }
}

/// Types that say nothing about a file, since every file uses them.
pub open spec fn basic_type(language: SurveyLanguage, name: Seq<char>) -> bool {
    let name = trimmed(name);
    match language {
        SurveyLanguage::C => c_scalar(name) || fixed_width_integer(name),
        SurveyLanguage::Rust => rust_primitive(name),
        SurveyLanguage::Python => python_builtin(name),
        SurveyLanguage::Zig => zig_word(name) || zig_integer(name),
    }
}

/// Whether a type says nothing about a file, since every file uses it.
pub fn is_basic_type(language: SurveyLanguage, name: &str) -> (r: bool)
    ensures
        r == basic_type(language, name@),
{
    let name = trim(name);
    let name = name.as_str();
    match language {
        SurveyLanguage::C => is_c_scalar(name) || is_fixed_width_integer(name),
        SurveyLanguage::Rust => is_rust_primitive(name),
        SurveyLanguage::Python => is_python_builtin(name),
        SurveyLanguage::Zig => is_zig_basic_type(name),
    }
}

/// The name a type is referred to by: without the word for what it is.
pub open spec fn bare_type_name(name: Seq<char>) -> Seq<char> {
    if let Some(rest) = after_prefix(name, "struct "@) {
        rest
    } else if let Some(rest) = after_prefix(name, "union "@) {
        rest
    } else if let Some(rest) = after_prefix(name, "enum "@) {
        rest
    } else if let Some(rest) = after_prefix(name, "class "@) {
        rest
    } else {
        name
    }
}

/// The name a type is referred to by: without the word for what it is.
pub fn reference_type_name(name: &str) -> (r: String)
    ensures
        r@ == bare_type_name(name@),
{
    if let Some(rest) = strip_prefix(name, "struct ") {
        return rest;
    }
    if let Some(rest) = strip_prefix(name, "union ") {
        return rest;
    }
    if let Some(rest) = strip_prefix(name, "enum ") {
        return rest;
    }
    if let Some(rest) = strip_prefix(name, "class ") {
        return rest;
    }
    String::from_str(name)
}

/// A function or a type that a file defines, with the line it begins in.
pub struct Defined {
    pub name: Seq<char>,
    pub line: nat,
}

/// What has been read off a syntax tree: what is defined and what is used, in
/// the order it stands in the source.
#[verifier::ext_equal]
pub struct Facts {
    pub functions: Seq<Defined>,
    pub calls: Seq<Seq<char>>,
    pub types: Seq<Defined>,
    pub mentioned: Seq<Seq<char>>,
    pub errors: nat,
}

pub open spec fn no_facts() -> Facts {
    Facts {
        functions: Seq::empty(),
        calls: Seq::empty(),
        types: Seq::empty(),
        mentioned: Seq::empty(),
        errors: 0,
    }
}

pub open spec fn plus(a: Facts, b: Facts) -> Facts {
    Facts {
        functions: a.functions + b.functions,
        calls: a.calls + b.calls,
        types: a.types + b.types,
        mentioned: a.mentioned + b.mentioned,
        errors: a.errors + b.errors,
    }
}

/// That a function is defined, where its name is known.
pub open spec fn function_fact(name: Option<Seq<char>>, node: NodeText) -> Facts {
    match name {
        Some(name) => Facts {
            functions: seq![Defined { name, line: (node.row + 1) as nat }],
            ..no_facts()
        },
        None => no_facts(),
    }
}

/// That a type is defined, where its name is known.
pub open spec fn type_fact(lead: Seq<char>, name: Option<Seq<char>>, node: NodeText) -> Facts {
    match name {
        Some(name) => Facts {
            types: seq![Defined { name: lead + name, line: (node.row + 1) as nat }],
            ..no_facts()
        },
        None => no_facts(),
    }
}

/// That something is called, where it can be read.
pub open spec fn call_fact(name: Option<Seq<char>>) -> Facts {
    match name {
        Some(name) => Facts { calls: seq![name], ..no_facts() },
        None => no_facts(),
    }
}

/// That a type is mentioned, where it can be read.
pub open spec fn mention_fact(name: Option<Seq<char>>) -> Facts {
    match name {
        Some(name) => Facts { mentioned: seq![name], ..no_facts() },
        None => no_facts(),
    }
}

/// The source of the child in a field.
pub open spec fn field_source(n: Seq<NodeText>, i: int, field: Seq<char>) -> Option<Seq<char>> {
    match field_child(n, i, i + 1, field) {
        Some(j) => source_of(n[j]),
        None => None,
    }
}

/// The types that a typedef defines: the names of all its declarators.
pub open spec fn typedef_facts(n: Seq<NodeText>, i: int, j: int) -> Facts
    decreases n.len() - j,
{
    if ended(n, i, j) {
        no_facts()
    } else if is_child(n, i, j) && n[j].field == Some("declarator"@) {
        plus(type_fact(""@, declared_name(n, j), n[i]), typedef_facts(n, i, j + 1))
    } else {
        typedef_facts(n, i, j + 1)
    }
}

/// The kind of the node that a node is below.
pub open spec fn parent_kind(n: Seq<NodeText>, i: int) -> Option<Seq<char>> {
    match parent(n, i) {
        Some(p) => Some(n[p].kind),
        None => None,
    }
}

/// What a node of a C file says.
pub open spec fn c_facts(n: Seq<NodeText>, i: int) -> Facts {
    let node = n[i];
    let kind = node.kind;
    if kind == "function_definition"@ {
        let name = match descendant(n, i, "function_declarator"@) {
            Some(d) => match field_child(n, d, d + 1, "declarator"@) {
                Some(j) => declared_name(n, j),
                None => None,
            },
            None => None,
        };
        function_fact(name, node)
    } else if kind == "call_expression"@ {
        call_fact(field_source(n, i, "function"@))
    } else if kind == "struct_specifier"@ || kind == "union_specifier"@ || kind
        == "enum_specifier"@ {
        let lead = if kind == "struct_specifier"@ {
            "struct "@
        } else if kind == "union_specifier"@ {
            "union "@
        } else {
            "enum "@
        };
        if field_child(n, i, i + 1, "body"@) is Some {
            type_fact(lead, field_source(n, i, "name"@), node)
        } else {
            mention_fact(source_of(node))
        }
    } else if kind == "type_definition"@ {
        typedef_facts(n, i, i + 1)
    } else if kind == "type_identifier"@ {
        if !below_kind(n, i, "type_definition"@) && parent_kind(n, i) != Some("struct_specifier"@)
            && parent_kind(n, i) != Some("union_specifier"@) && parent_kind(n, i) != Some(
            "enum_specifier"@,
        ) {
            mention_fact(source_of(node))
        } else {
            no_facts()
        }
    } else if kind == "primitive_type"@ || kind == "sized_type_specifier"@ {
        mention_fact(source_of(node))
    } else {
        no_facts()
    }
}

/// What a node of a Rust file says.
pub open spec fn rust_facts(n: Seq<NodeText>, i: int) -> Facts {
    let node = n[i];
    let kind = node.kind;
    if kind == "function_item"@ {
        function_fact(field_source(n, i, "name"@), node)
    } else if kind == "call_expression"@ {
        call_fact(field_source(n, i, "function"@))
    } else if kind == "struct_item"@ {
        type_fact("struct "@, field_source(n, i, "name"@), node)
    } else if kind == "enum_item"@ {
        type_fact("enum "@, field_source(n, i, "name"@), node)
    } else if kind == "union_item"@ {
        type_fact("union "@, field_source(n, i, "name"@), node)
    } else if kind == "type_item"@ {
        type_fact(""@, field_source(n, i, "name"@), node)
    } else if kind == "type_identifier"@ || kind == "primitive_type"@ {
        if parent_kind(n, i) != Some("struct_item"@) && parent_kind(n, i) != Some("enum_item"@)
            && parent_kind(n, i) != Some("union_item"@) && parent_kind(n, i) != Some(
            "type_item"@,
        ) {
            mention_fact(source_of(node))
        } else {
            no_facts()
        }
    } else {
        no_facts()
    }
}

/// What a node of a Python file says.
pub open spec fn python_facts(n: Seq<NodeText>, i: int) -> Facts {
    let node = n[i];
    let kind = node.kind;
    if kind == "function_definition"@ {
        function_fact(field_source(n, i, "name"@), node)
    } else if kind == "call"@ {
        call_fact(field_source(n, i, "function"@))
    } else if kind == "class_definition"@ {
        type_fact("class "@, field_source(n, i, "name"@), node)
    } else if kind == "type"@ {
        mention_fact(source_of(node))
    } else {
        no_facts()
    }
}

/// Kinds of Zig declarations that make a type.
pub open spec fn zig_type_kind(kind: Seq<char>) -> bool {
    kind == "struct_declaration"@ || kind == "enum_declaration"@ || kind == "union_declaration"@
        || kind == "opaque_declaration"@ || kind == "error_set_declaration"@
}

/// Builtins of Zig that make a type.
pub open spec fn zig_type_maker(name: Seq<char>) -> bool {
    name == "@Int"@ || name == "@Struct"@ || name == "@Union"@ || name == "@Enum"@ || name
        == "@Tuple"@ || name == "@Pointer"@ || name == "@Fn"@ || name == "@EnumLiteral"@ || name
        == "@Type"@
}

/// Whether a node calls a builtin that makes a type.
pub open spec fn zig_makes_type(n: Seq<NodeText>, i: int) -> bool {
    n[i].kind == "builtin_function"@ && (match named_child(n, i, i + 1) {
        Some(j) => match n[j].text {
            Some(text) => zig_type_maker(text),
            None => false,
        },
        None => false,
    })
}

/// Whether a child of a node, from a place on, makes a type.
pub open spec fn zig_has_type(n: Seq<NodeText>, i: int, j: int) -> bool
    decreases n.len() - j,
{
    if ended(n, i, j) {
        false
    } else {
        (is_child(n, i, j) && (zig_type_kind(n[j].kind) || zig_makes_type(n, j))) || zig_has_type(
            n,
            i,
            j + 1,
        )
    }
}

/// The name that a Zig declaration binds to a type, where it does.
pub open spec fn zig_bound_type(n: Seq<NodeText>, i: int) -> Option<Seq<char>> {
    if !zig_has_type(n, i, i + 1) {
        None
    } else {
        match kind_child(n, i, i + 1, "identifier"@) {
            Some(j) => source_of(n[j]),
            None => None,
        }
    }
}

/// What a node of a Zig file says.
pub open spec fn zig_facts(n: Seq<NodeText>, i: int) -> Facts {
    let node = n[i];
    let kind = node.kind;
    let first = named_child(n, i, i + 1);
    if kind == "function_declaration"@ {
        function_fact(field_source(n, i, "name"@), node)
    } else if kind == "test_declaration"@ {
        let name = match first {
            Some(j) => if n[j].kind == "string"@ || n[j].kind == "identifier"@ {
                source_of(n[j])
            } else {
                None
            },
            None => None,
        };
        function_fact(name, node)
    } else if kind == "call_expression"@ {
        call_fact(field_source(n, i, "function"@))
    } else if kind == "builtin_function"@ {
        call_fact(
            match first {
                Some(j) => source_of(n[j]),
                None => None,
            },
        )
    } else if kind == "variable_declaration"@ {
        type_fact(""@, zig_bound_type(n, i), node)
    } else if kind == "builtin_type"@ {
        mention_fact(source_of(node))
    } else {
        no_facts()
    }
}

/// What a node says, in its language.
pub open spec fn node_facts(language: SurveyLanguage, n: Seq<NodeText>, i: int) -> Facts {
    match language {
        SurveyLanguage::C => c_facts(n, i),
        SurveyLanguage::Rust => rust_facts(n, i),
        SurveyLanguage::Python => python_facts(n, i),
        SurveyLanguage::Zig => zig_facts(n, i),
    }
}

/// What the first nodes of a tree say, with how many of them are broken.
pub open spec fn facts_of(language: SurveyLanguage, n: Seq<NodeText>, count: nat) -> Facts
    decreases count,
{
    if count == 0 {
        no_facts()
    } else {
        let i = count - 1;
        let before = facts_of(language, n, (count - 1) as nat);
        plus(
            Facts {
                errors: before.errors + (if n[i].broken {
                    1nat
                } else {
                    0
                }),
                ..before
            },
            node_facts(language, n, i),
        )
    }
}

/// A function or a type that a file defines, with the line it begins in.
struct Definition {
    name: String,
    line: u128,
}

impl Definition {
    spec fn defined(self) -> Defined {
        Defined { name: self.name@, line: self.line as nat }
    }
}

impl Ranked for Definition {
    closed spec fn at_most(&self, other: &Self) -> bool {
        self.line <= other.line
    }

    proof fn at_most_is_total(a: &Self, b: &Self) {
    }

    proof fn at_most_is_transitive(a: &Self, b: &Self, c: &Self) {
    }

    fn is_at_most(&self, other: &Self) -> (r: bool) {
        self.line <= other.line
    }
}

spec fn defined_all(list: Seq<Definition>) -> Seq<Defined> {
    list.map_values(|d: Definition| d.defined())
}

/// What has been read so far.
struct SurveyBuilder {
    functions: Vec<Definition>,
    calls: Vec<String>,
    types: Vec<Definition>,
    mentioned: Vec<String>,
    parse_errors: usize,
}

impl SurveyBuilder {
    spec fn facts(&self) -> Facts {
        Facts {
            functions: defined_all(self.functions@),
            calls: texts(self.calls@),
            types: defined_all(self.types@),
            mentioned: texts(self.mentioned@),
            errors: self.parse_errors as nat,
        }
    }

    fn function(&mut self, name: Option<String>, node: &SyntaxNode)
        ensures
            final(self).facts() == plus(
                old(self).facts(),
                function_fact(maybe_text(name), node@),
            ),
    {
        if let Some(name) = name {
            let ghost held = self.functions@;
            let d = Definition { name, line: node.row as u128 + 1 };
            self.functions.push(d);
            assert(defined_all(self.functions@) =~= defined_all(held) + seq![d.defined()]);
        }
        assert(self.facts() =~= plus(
            old(self).facts(),
            function_fact(maybe_text(name), node@),
        ));
    }

    fn typ(&mut self, lead: &str, name: Option<String>, node: &SyntaxNode)
        ensures
            final(self).facts() == plus(
                old(self).facts(),
                type_fact(lead@, maybe_text(name), node@),
            ),
    {
        if let Some(name) = &name {
            let ghost held = self.types@;
            let mut full = String::from_str(lead);
            full.append(name.as_str());
            let d = Definition { name: full, line: node.row as u128 + 1 };
            self.types.push(d);
            assert(defined_all(self.types@) =~= defined_all(held) + seq![d.defined()]);
        }
        assert(self.facts() =~= plus(
            old(self).facts(),
            type_fact(lead@, maybe_text(name), node@),
        ));
    }

    fn call(&mut self, name: Option<String>)
        ensures
            final(self).facts() == plus(
                old(self).facts(),
                call_fact(maybe_text(name)),
            ),
    {
        if let Some(name) = name {
            proof {
                lemma_texts_push(self.calls@, name);
            }
            self.calls.push(name);
        }
        assert(self.facts() =~= plus(
            old(self).facts(),
            call_fact(maybe_text(name)),
        ));
    }

    fn mention(&mut self, name: Option<String>)
        ensures
            final(self).facts() == plus(
                old(self).facts(),
                mention_fact(maybe_text(name)),
            ),
    {
        if let Some(name) = name {
            proof {
                lemma_texts_push(self.mentioned@, name);
            }
            self.mentioned.push(name);
        }
        assert(self.facts() =~= plus(
            old(self).facts(),
            mention_fact(maybe_text(name)),
        ));
    }
}

fn field_text(nodes: &Vec<SyntaxNode>, i: usize, field: &str) -> (r: Option<String>)
    requires
        i < nodes@.len(),
    ensures
        maybe_text(r) == field_source(node_texts(nodes@), i as int, field@),
{
    match find_field_child(nodes, i, field) {
        Some(j) => {
            assert(node_texts(nodes@)[j as int] == nodes@[j as int]@);
            nodes[j].source()
        },
        None => None,
    }
}

/// The name that a C function definition defines.
fn function_name(nodes: &Vec<SyntaxNode>, i: usize) -> (r: Option<String>)
    requires
        i < nodes@.len(),
    ensures
        maybe_text(r) == (match descendant(
            node_texts(nodes@),
            i as int,
            "function_declarator"@,
        ) {
            Some(d) => match field_child(node_texts(nodes@), d, d + 1, "declarator"@) {
                Some(j) => declared_name(node_texts(nodes@), j),
                None => None,
            },
            None => None,
        }),
{
    match find_descendant(nodes, i, "function_declarator") {
        Some(d) => match find_field_child(nodes, d, "declarator") {
            Some(j) => declarator_name(nodes, j),
            None => None,
        },
        None => None,
    }
}

fn is_parent_kind(nodes: &Vec<SyntaxNode>, i: usize, kind: &str) -> (r: bool)
    requires
        i < nodes@.len(),
    ensures
        r == (parent_kind(node_texts(nodes@), i as int) == Some(kind@)),
{
    match parent_of(nodes, i) {
        Some(p) => {
            assert(node_texts(nodes@)[p as int] == nodes@[p as int]@);
            nodes[p].is_kind(kind)
        },
        None => false,
    }
}

proof fn lemma_plus_nothing(a: Facts)
    ensures
        plus(a, no_facts()) == a,
        plus(no_facts(), a) == a,
{
    assert(plus(a, no_facts()) =~= a);
    assert(plus(no_facts(), a) =~= a);
}

proof fn lemma_plus_associative(a: Facts, b: Facts, c: Facts)
    ensures
        plus(plus(a, b), c) == plus(a, plus(b, c)),
{
    assert(plus(plus(a, b), c) =~= plus(a, plus(b, c)));
}

/// Takes in the types that a typedef defines.
fn extract_typedef(nodes: &Vec<SyntaxNode>, i: usize, out: &mut SurveyBuilder)
    requires
        i < nodes@.len(),
    ensures
        final(out).facts() == plus(
            old(out).facts(),
            typedef_facts(node_texts(nodes@), i as int, i + 1),
        ),
{
    let ghost n = node_texts(nodes@);
    let ghost start = out.facts();
    let end: usize = nodes.len();
    let mut j: usize = i + 1;
    while j < end && nodes[j].depth > nodes[i].depth
        invariant
            i < j <= end,
            end == nodes@.len(),
            n == node_texts(nodes@),
            plus(start, typedef_facts(n, i as int, i + 1)) == plus(
                out.facts(),
                typedef_facts(n, i as int, j as int),
            ),
        decreases end - j,
    {
        assert(n[j as int] == nodes@[j as int]@ && n[i as int] == nodes@[i as int]@);
        if nodes[j].depth - nodes[i].depth == 1 && nodes[j].in_field("declarator") {
            let ghost held = out.facts();
            let name = declarator_name(nodes, j);
            proof {
                lemma_plus_associative(
                    held,
                    type_fact(""@, maybe_text(name), n[i as int]),
                    typedef_facts(n, i as int, j + 1),
                );
            }
            out.typ("", name, &nodes[i]);
        }
        j += 1;
    }
    proof {
        assert(j < n.len() ==> n[j as int] == nodes@[j as int]@);
        assert(n[i as int] == nodes@[i as int]@);
        lemma_plus_nothing(out.facts());
    }
}

fn extract_c(nodes: &Vec<SyntaxNode>, i: usize, out: &mut SurveyBuilder)
    requires
        i < nodes@.len(),
    ensures
        final(out).facts() == plus(old(out).facts(), c_facts(node_texts(nodes@), i as int)),
{
    let node = &nodes[i];
    proof {
        assert(node_texts(nodes@)[i as int] == node@);
        lemma_plus_nothing(out.facts());
    }
    if node.is_kind("function_definition") {
        out.function(function_name(nodes, i), node);
    } else if node.is_kind("call_expression") {
        out.call(field_text(nodes, i, "function"));
    } else if node.is_kind("struct_specifier") || node.is_kind("union_specifier") || node.is_kind(
        "enum_specifier",
    ) {
        let lead = if node.is_kind("struct_specifier") {
            "struct "
        } else if node.is_kind("union_specifier") {
            "union "
        } else {
            "enum "
        };
        if find_field_child(nodes, i, "body").is_some() {
            out.typ(lead, field_text(nodes, i, "name"), node);
        } else {
            out.mention(node.source());
        }
    } else if node.is_kind("type_definition") {
        extract_typedef(nodes, i, out);
    } else if node.is_kind("type_identifier") {
        if !has_ancestor(nodes, i, "type_definition") && !is_parent_kind(
            nodes,
            i,
            "struct_specifier",
        ) && !is_parent_kind(nodes, i, "union_specifier") && !is_parent_kind(
            nodes,
            i,
            "enum_specifier",
        ) {
            out.mention(node.source());
        }
    } else if node.is_kind("primitive_type") || node.is_kind("sized_type_specifier") {
        out.mention(node.source());
    }
}

fn extract_rust(nodes: &Vec<SyntaxNode>, i: usize, out: &mut SurveyBuilder)
    requires
        i < nodes@.len(),
    ensures
        final(out).facts() == plus(old(out).facts(), rust_facts(node_texts(nodes@), i as int)),
{
    let node = &nodes[i];
    proof {
        assert(node_texts(nodes@)[i as int] == node@);
        lemma_plus_nothing(out.facts());
    }
    if node.is_kind("function_item") {
        out.function(field_text(nodes, i, "name"), node);
    } else if node.is_kind("call_expression") {
        out.call(field_text(nodes, i, "function"));
    } else if node.is_kind("struct_item") {
        out.typ("struct ", field_text(nodes, i, "name"), node);
    } else if node.is_kind("enum_item") {
        out.typ("enum ", field_text(nodes, i, "name"), node);
    } else if node.is_kind("union_item") {
        out.typ("union ", field_text(nodes, i, "name"), node);
    } else if node.is_kind("type_item") {
        out.typ("", field_text(nodes, i, "name"), node);
    } else if node.is_kind("type_identifier") || node.is_kind("primitive_type") {
        if !is_parent_kind(nodes, i, "struct_item") && !is_parent_kind(nodes, i, "enum_item")
            && !is_parent_kind(nodes, i, "union_item") && !is_parent_kind(nodes, i, "type_item") {
            out.mention(node.source());
        }
    }
}

fn extract_python(nodes: &Vec<SyntaxNode>, i: usize, out: &mut SurveyBuilder)
    requires
        i < nodes@.len(),
    ensures
        final(out).facts() == plus(old(out).facts(), python_facts(node_texts(nodes@), i as int)),
{
    let node = &nodes[i];
    proof {
        assert(node_texts(nodes@)[i as int] == node@);
        lemma_plus_nothing(out.facts());
    }
    if node.is_kind("function_definition") {
        out.function(field_text(nodes, i, "name"), node);
    } else if node.is_kind("call") {
        out.call(field_text(nodes, i, "function"));
    } else if node.is_kind("class_definition") {
        out.typ("class ", field_text(nodes, i, "name"), node);
    } else if node.is_kind("type") {
        out.mention(node.source());
    }
}

/// Whether a node calls a builtin that makes a type.
fn zig_type_builtin(nodes: &Vec<SyntaxNode>, i: usize) -> (r: bool)
    requires
        i < nodes@.len(),
    ensures
        r == zig_makes_type(node_texts(nodes@), i as int),
{
    let ghost n = node_texts(nodes@);
    assert(n[i as int] == nodes@[i as int]@);
    if !nodes[i].is_kind("builtin_function") {
        return false;
    }
    match first_named_child(nodes, i) {
        Some(j) => {
            assert(n[j as int] == nodes@[j as int]@);
            match &nodes[j].text {
                Some(text) => {
                    let name = text.as_str();
                    str_eq(name, "@Int") || str_eq(name, "@Struct") || str_eq(name, "@Union")
                        || str_eq(name, "@Enum") || str_eq(name, "@Tuple") || str_eq(
                        name,
                        "@Pointer",
                    ) || str_eq(name, "@Fn") || str_eq(name, "@EnumLiteral") || str_eq(
                        name,
                        "@Type",
                    )
                },
                None => false,
            }
        },
        None => false,
    }
}

/// The name that a Zig declaration binds to a type, where it does.
fn zig_type_binding(nodes: &Vec<SyntaxNode>, i: usize) -> (r: Option<String>)
    requires
        i < nodes@.len(),
    ensures
        maybe_text(r) == zig_bound_type(node_texts(nodes@), i as int),
{
    let ghost n = node_texts(nodes@);
    let end: usize = nodes.len();
    let mut is_type = false;
    let mut j: usize = i + 1;
    while j < end && nodes[j].depth > nodes[i].depth
        invariant
            i < j <= end,
            end == nodes@.len(),
            n == node_texts(nodes@),
            zig_has_type(n, i as int, i + 1) == (is_type || zig_has_type(n, i as int, j as int)),
        decreases end - j,
    {
        assert(n[j as int] == nodes@[j as int]@ && n[i as int] == nodes@[i as int]@);
        let child = &nodes[j];
        if child.depth - nodes[i].depth == 1 && (child.is_kind("struct_declaration")
            || child.is_kind("enum_declaration") || child.is_kind("union_declaration")
            || child.is_kind("opaque_declaration") || child.is_kind("error_set_declaration")
            || zig_type_builtin(nodes, j)) {
            is_type = true;
        }
        j += 1;
    }
    proof {
        assert(j < n.len() ==> n[j as int] == nodes@[j as int]@);
        assert(n[i as int] == nodes@[i as int]@);
    }
    if !is_type {
        return None;
    }
    match find_kind_child(nodes, i, "identifier") {
        Some(j) => {
            assert(n[j as int] == nodes@[j as int]@);
            nodes[j].source()
        },
        None => None,
    }
}

fn extract_zig(nodes: &Vec<SyntaxNode>, i: usize, out: &mut SurveyBuilder)
    requires
        i < nodes@.len(),
    ensures
        final(out).facts() == plus(old(out).facts(), zig_facts(node_texts(nodes@), i as int)),
{
    let ghost n = node_texts(nodes@);
    let node = &nodes[i];
    proof {
        assert(n[i as int] == node@);
        lemma_plus_nothing(out.facts());
    }
    if node.is_kind("function_declaration") {
        out.function(field_text(nodes, i, "name"), node);
    } else if node.is_kind("test_declaration") {
        let name = match first_named_child(nodes, i) {
            Some(j) => {
                assert(n[j as int] == nodes@[j as int]@);
                if nodes[j].is_kind("string") || nodes[j].is_kind("identifier") {
                    nodes[j].source()
                } else {
                    None
                }
            },
            None => None,
        };
        out.function(name, node);
    } else if node.is_kind("call_expression") {
        out.call(field_text(nodes, i, "function"));
    } else if node.is_kind("builtin_function") {
        let name = match first_named_child(nodes, i) {
            Some(j) => {
                assert(n[j as int] == nodes@[j as int]@);
                nodes[j].source()
            },
            None => None,
        };
        out.call(name);
    } else if node.is_kind("variable_declaration") {
        assert(maybe_text(None::<String>) is None);
        out.typ("", zig_type_binding(nodes, i), node);
    } else if node.is_kind("builtin_type") {
        out.mention(node.source());
    }
}

/// Reads every node of a tree, in the order they begin.
fn walk(nodes: &Vec<SyntaxNode>, language: SurveyLanguage) -> (out: SurveyBuilder)
    ensures
        out.facts() == facts_of(language, node_texts(nodes@), nodes@.len()),
{
    let ghost n = node_texts(nodes@);
    let mut out = SurveyBuilder {
        functions: Vec::new(),
        calls: Vec::new(),
        types: Vec::new(),
        mentioned: Vec::new(),
        parse_errors: 0,
    };
    assert(out.facts() =~= no_facts());
    let mut i: usize = 0;
    while i < nodes.len()
        invariant
            i <= nodes@.len(),
            n == node_texts(nodes@),
            out.facts() == facts_of(language, n, i as nat),
            out.parse_errors <= i,
        decreases nodes@.len() - i,
    {
        assert(n[i as int] == nodes@[i as int]@);
        let ghost before = out.facts();
        if nodes[i].broken {
            out.parse_errors = out.parse_errors + 1;
        }
        assert(out.facts() =~= (Facts {
            errors: before.errors + (if n[i as int].broken {
                1nat
            } else {
                0
            }),
            ..before
        }));
        match language {
            SurveyLanguage::C => extract_c(nodes, i, &mut out),
            SurveyLanguage::Rust => extract_rust(nodes, i, &mut out),
            SurveyLanguage::Python => extract_python(nodes, i, &mut out),
            SurveyLanguage::Zig => extract_zig(nodes, i, &mut out),
        }
        proof {
            lemma_node_facts_count_no_errors(language, n, i as int);
        }
        i += 1;
    }
    out
}

proof fn lemma_typedefs_count_no_errors(n: Seq<NodeText>, i: int, j: int)
    ensures
        typedef_facts(n, i, j).errors == 0,
    decreases n.len() - j,
{
    if !ended(n, i, j) {
        lemma_typedefs_count_no_errors(n, i, j + 1);
    }
}

proof fn lemma_node_facts_count_no_errors(language: SurveyLanguage, n: Seq<NodeText>, i: int)
    ensures
        node_facts(language, n, i).errors == 0,
{
    lemma_typedefs_count_no_errors(n, i, i + 1);
}

/// An ordered list of definitions with one more, which goes after those that
/// begin no later.
pub open spec fn with_definition(sorted: Seq<Defined>, d: Defined) -> Seq<Defined>
    decreases sorted.len(),
{
    if sorted.len() == 0 || sorted.last().line <= d.line {
        sorted.push(d)
    } else {
        with_definition(sorted.drop_last(), d).push(sorted.last())
    }
}

/// Definitions in the order of the lines they begin in; those of one line keep
/// their order.
pub open spec fn by_line(list: Seq<Defined>) -> Seq<Defined>
    decreases list.len(),
{
    if list.len() == 0 {
        list
    } else {
        with_definition(by_line(list.drop_last()), list.last())
    }
}

proof fn lemma_inserted_is_defined(s: Seq<Definition>, x: Definition)
    ensures
        defined_all(inserted(s, x)) == with_definition(defined_all(s), x.defined()),
    decreases s.len(),
{
    if s.len() == 0 || s.last().at_most(&x) {
        assert(defined_all(s.push(x)) =~= defined_all(s).push(x.defined()));
        if s.len() > 0 {
            assert(defined_all(s).last() == s.last().defined());
        }
    } else {
        lemma_inserted_is_defined(s.drop_last(), x);
        assert(defined_all(s).last() == s.last().defined());
        assert(defined_all(s).drop_last() =~= defined_all(s.drop_last()));
        let inner = inserted(s.drop_last(), x);
        assert(defined_all(inner.push(s.last())) =~= defined_all(inner).push(s.last().defined()));
    }
}

proof fn lemma_ranked_is_by_line(s: Seq<Definition>)
    ensures
        defined_all(ranked(s)) == by_line(defined_all(s)),
    decreases s.len(),
{
    if s.len() > 0 {
        lemma_ranked_is_by_line(s.drop_last());
        lemma_inserted_is_defined(ranked(s.drop_last()), s.last());
        assert(defined_all(s).drop_last() =~= defined_all(s.drop_last()));
        assert(defined_all(s).last() == s.last().defined());
    } else {
        assert(defined_all(s) =~= Seq::empty());
    }
}

/// A name with a number, as text.
pub open spec fn pair_texts(pairs: Seq<(String, usize)>) -> Seq<(Seq<char>, nat)> {
    pairs.map_values(|p: (String, usize)| (p.0@, p.1 as nat))
}

proof fn lemma_pair_push(pairs: Seq<(String, usize)>, name: String, count: usize)
    ensures
        pair_texts(pairs.push((name, count))) == pair_texts(pairs).push((name@, count as nat)),
{
    assert(pair_texts(pairs.push((name, count))) =~= pair_texts(pairs).push(
        (name@, count as nat),
    ));
}

/// The names of some values in order, each with how often it occurs. A value
/// without a character counts for nothing.
pub open spec fn tally(values: Seq<Seq<char>>) -> Seq<(Seq<char>, nat)> {
    sorted_set(values.filter(|v: Seq<char>| v.len() > 0)).map_values(
        |name: Seq<char>| (name, occurrences(values, name)),
    )
}

fn count_text(values: &Vec<String>, name: &str) -> (r: usize)
    ensures
        r == occurrences(texts(values@), name@),
{
    let ghost all = texts(values@);
    let mut count: usize = 0;
    let mut i: usize = 0;
    assert(all.take(0) =~= Seq::empty());
    while i < values.len()
        invariant
            i <= values@.len(),
            all == texts(values@),
            count <= i,
            count == occurrences(all.take(i as int), name@),
        decreases values@.len() - i,
    {
        proof {
            assert(all.take(i + 1).drop_last() =~= all.take(i as int));
            assert(all.take(i + 1).last() == values@[i as int]@);
        }
        if str_eq(values[i].as_str(), name) {
            count += 1;
        }
        i += 1;
    }
    assert(all.take(i as int) =~= all);
    count
}

/// The names of some values in order, each with how often it occurs.
pub fn tally_of(values: &Vec<String>) -> (r: Vec<(String, usize)>)
    ensures
        pair_texts(r@) == tally(texts(values@)),
{
    let ghost all = texts(values@);
    let ghost wanted = |v: Seq<char>| v.len() > 0;
    let mut names: Vec<String> = Vec::new();
    let mut i: usize = 0;
    proof {
        reveal(Seq::filter);
        assert(all.take(0) =~= Seq::empty());
        assert(texts(names@) =~= Seq::empty());
    }
    while i < values.len()
        invariant
            i <= values@.len(),
            all == texts(values@),
            wanted == (|v: Seq<char>| v.len() > 0),
            texts(names@) == all.take(i as int).filter(wanted),
        decreases values@.len() - i,
    {
        proof {
            reveal(Seq::filter);
            assert(all.take(i + 1).drop_last() =~= all.take(i as int));
            assert(all.take(i + 1).last() == values@[i as int]@);
        }
        if !values[i].as_str().is_empty() {
            let copy = values[i].clone();
            proof {
                lemma_texts_push(names@, copy);
            }
            names.push(copy);
        }
        i += 1;
    }
    assert(all.take(i as int) =~= all);
    let sorted = sort_texts(names);
    let ghost form = |name: Seq<char>| (name, occurrences(all, name));
    let mut out: Vec<(String, usize)> = Vec::new();
    let mut k: usize = 0;
    while k < sorted.len()
        invariant
            k <= sorted@.len(),
            all == texts(values@),
            form == (|name: Seq<char>| (name, occurrences(all, name))),
            pair_texts(out@) == texts(sorted@).take(k as int).map_values(form),
        decreases sorted@.len() - k,
    {
        let name = sorted[k].clone();
        let count: usize = count_text(values, name.as_str());
        proof {
            lemma_pair_push(out@, name, count);
            assert(texts(sorted@)[k as int] == name@);
        }
        out.push((name, count));
        k += 1;
        assert(pair_texts(out@) =~= texts(sorted@).take(k as int).map_values(form));
    }
    assert(texts(sorted@).take(k as int) =~= texts(sorted@));
    out
}

/// A compact account of a source file.
#[derive(Debug, Clone, PartialEq, Eq)]
pub struct FileSurvey {
    pub file: String,
    /// The functions it defines, each with how many others refer to it.
    pub functions_defined: Vec<(String, usize)>,
    /// What it calls, each with how often.
    pub calls: Vec<(String, usize)>,
    /// The types it defines, each with how many others refer to it.
    pub types_defined: Vec<(String, usize)>,
    /// The types it mentions, each with how often, but for basic ones.
    pub types_mentioned: Vec<(String, usize)>,
    pub parse_errors: usize,
    pub truncated: bool,
}

/// The names of definitions in the order of their lines, not counted yet.
pub open spec fn uncounted(list: Seq<Defined>) -> Seq<(Seq<char>, nat)> {
    by_line(list).map_values(|d: Defined| (d.name, 0nat))
}

/// Whether a survey says what the nodes of a tree say.
pub open spec fn surveys(
    survey: FileSurvey,
    language: SurveyLanguage,
    file: Seq<char>,
    n: Seq<NodeText>,
) -> bool {
    let facts = facts_of(language, n, n.len());
    &&& survey.file@ == file
    &&& pair_texts(survey.functions_defined@) == uncounted(facts.functions)
    &&& pair_texts(survey.calls@) == tally(facts.calls)
    &&& pair_texts(survey.types_defined@) == uncounted(facts.types)
    &&& pair_texts(survey.types_mentioned@) == tally(facts.mentioned).filter(
        |p: (Seq<char>, nat)| !basic_type(language, p.0),
    )
    &&& survey.parse_errors == facts.errors
    &&& !survey.truncated
}

fn uncounted_list(list: Vec<Definition>) -> (r: Vec<(String, usize)>)
    ensures
        pair_texts(r@) == uncounted(defined_all(list@)),
{
    proof {
        lemma_ranked_is_by_line(list@);
    }
    let sorted = sort_by_rank(list);
    let ghost all = sorted@;
    let ghost form = |d: Defined| (d.name, 0nat);
    let mut out: Vec<(String, usize)> = Vec::new();
    assert(pair_texts(out@) =~= defined_all(all).take(0).map_values(form));
    for d in it: sorted
        invariant
            it.seq() == all,
            form == (|d: Defined| (d.name, 0nat)),
            pair_texts(out@) == defined_all(all).take(it.index()).map_values(form),
    {
        let ghost next = defined_all(all).take(it.index() + 1);
        proof {
            assert(defined_all(all)[it.index()] == d.defined());
            lemma_pair_push(out@, d.name, 0);
        }
        out.push((d.name, 0));
        assert(pair_texts(out@) =~= next.map_values(form));
    }
    assert(defined_all(all).take(all.len() as int) =~= defined_all(all));
    out
}

proof fn lemma_filter_commutes(
    pairs: Seq<(String, usize)>,
    wanted: spec_fn((Seq<char>, nat)) -> bool,
)
    ensures
        pair_texts(pairs.filter(|p: (String, usize)| wanted((p.0@, p.1 as nat)))) == pair_texts(
            pairs,
        ).filter(wanted),
    decreases pairs.len(),
{
    reveal(Seq::filter);
    let own = |p: (String, usize)| wanted((p.0@, p.1 as nat));
    if pairs.len() > 0 {
        lemma_filter_commutes(pairs.drop_last(), wanted);
        assert(pair_texts(pairs).drop_last() =~= pair_texts(pairs.drop_last()));
        assert(pair_texts(pairs).last() == (pairs.last().0@, pairs.last().1 as nat));
        let inner = pairs.drop_last().filter(own);
        assert(pair_texts(inner.push(pairs.last())) =~= pair_texts(inner).push(
            (pairs.last().0@, pairs.last().1 as nat),
        ));
    } else {
        assert(pair_texts(pairs.filter(own)) =~= pair_texts(pairs).filter(wanted));
    }
}

fn drop_basic_types(language: SurveyLanguage, pairs: Vec<(String, usize)>) -> (r: Vec<
    (String, usize),
>)
    ensures
        pair_texts(r@) == pair_texts(pairs@).filter(
            |p: (Seq<char>, nat)| !basic_type(language, p.0),
        ),
{
    let ghost wanted = |p: (Seq<char>, nat)| !basic_type(language, p.0);
    let ghost own = |p: (String, usize)| wanted((p.0@, p.1 as nat));
    let mut flags: Vec<bool> = Vec::new();
    let mut i: usize = 0;
    while i < pairs.len()
        invariant
            i <= pairs@.len(),
            flags@.len() == i,
            forall|j: int|
                0 <= j < i ==> #[trigger] flags@[j] == !basic_type(language, pairs@[j].0@),
        decreases pairs@.len() - i,
    {
        flags.push(!is_basic_type(language, pairs[i].0.as_str()));
        i += 1;
    }
    proof {
        kept_is_a_filter(pairs@, flags@, own);
        lemma_filter_commutes(pairs@, wanted);
    }
    keep_rows(pairs, &flags)
}

/// The survey of a file whose syntax tree is known.
pub fn survey_nodes(language: SurveyLanguage, file: String, nodes: &Vec<SyntaxNode>) -> (r:
    FileSurvey)
    ensures
        surveys(r, language, file@, node_texts(nodes@)),
{
    let built = walk(nodes, language);
    FileSurvey {
        file,
        functions_defined: uncounted_list(built.functions),
        calls: tally_of(&built.calls),
        types_defined: uncounted_list(built.types),
        types_mentioned: drop_basic_types(language, tally_of(&built.mentioned)),
        parse_errors: built.parse_errors,
        truncated: false,
    }
}

/// The message that no syntax tree could be made.
pub open spec fn unparsed_text(path: Seq<char>) -> Seq<char> {
    "Tree-sitter failed to parse '"@ + path + "'"@
}

/// The survey of a source text. A text of more bytes than a tree can tell apart
/// is not parsed.
pub fn survey_source(language: SurveyLanguage, path: &str, file: String, source: &str) -> (r:
    Result<FileSurvey, String>)
    ensures
        match r {
            Ok(survey) => source.spec_bytes().len() <= u32::MAX && parsed_nodes(
                language,
                source@,
            ) is Some && surveys(survey, language, file@, parsed_nodes(language, source@)->0),
            Err(message) => message@ == unparsed_text(path@) && (source.spec_bytes().len()
                > u32::MAX || parsed_nodes(language, source@) is None),
        },
{
    let bytes = source.as_bytes();
    let parsed = if bytes.len() <= u32::MAX as usize {
        parse_nodes(language, source)
    } else {
        None
    };
    match parsed {
        Some(nodes) => Ok(survey_nodes(language, file, &nodes)),
        None => {
            let mut out = String::from_str("Tree-sitter failed to parse '");
            out.append(path);
            out.append("'");
            Err(out)
        },
    }
}

/// The names whose references are counted: the functions a survey found, and its
/// types by the names they are referred to.
pub fn counted_names(survey: &FileSurvey) -> (r: (Vec<String>, Vec<String>))
    ensures
        texts(r.0@) == pair_texts(survey.functions_defined@).map_values(
            |p: (Seq<char>, nat)| p.0,
        ),
        texts(r.1@) == pair_texts(survey.types_defined@).map_values(
            |p: (Seq<char>, nat)| bare_type_name(p.0),
        ),
{
    let mut functions: Vec<String> = Vec::new();
    let ghost names = pair_texts(survey.functions_defined@).map_values(|p: (Seq<char>, nat)| p.0);
    let mut i: usize = 0;
    while i < survey.functions_defined.len()
        invariant
            i <= survey.functions_defined@.len(),
            names == pair_texts(survey.functions_defined@).map_values(|p: (Seq<char>, nat)| p.0),
            texts(functions@) == names.take(i as int),
        decreases survey.functions_defined@.len() - i,
    {
        let name = survey.functions_defined[i].0.clone();
        proof {
            lemma_texts_push(functions@, name);
            assert(names[i as int] == name@);
        }
        functions.push(name);
        i += 1;
        assert(texts(functions@) =~= names.take(i as int));
    }
    assert(names.take(i as int) =~= names);
    let mut types: Vec<String> = Vec::new();
    let ghost bare = pair_texts(survey.types_defined@).map_values(
        |p: (Seq<char>, nat)| bare_type_name(p.0),
    );
    let mut k: usize = 0;
    while k < survey.types_defined.len()
        invariant
            k <= survey.types_defined@.len(),
            bare == pair_texts(survey.types_defined@).map_values(
                |p: (Seq<char>, nat)| bare_type_name(p.0),
            ),
            texts(types@) == bare.take(k as int),
        decreases survey.types_defined@.len() - k,
    {
        let name = reference_type_name(survey.types_defined[k].0.as_str());
        proof {
            lemma_texts_push(types@, name);
            assert(bare[k as int] == name@);
        }
        types.push(name);
        k += 1;
        assert(texts(types@) =~= bare.take(k as int));
    }
    assert(bare.take(k as int) =~= bare);
    (functions, types)
}

/// The number counted for a name, none if it was not.
pub open spec fn count_for(counts: Map<Seq<char>, usize>, name: Seq<char>) -> nat {
    if counts.contains_key(name) {
        counts[name] as nat
    } else {
        0
    }
}

fn count_of(counts: &NameMap<usize>, name: &str) -> (r: usize)
    requires
        counts.wf(),
    ensures
        r == count_for(counts@, name@),
{
    match counts.get(name) {
        Some(count) => *count,
        None => 0,
    }
}

/// Adds the counts of distinct callers and of type referencers to a survey.
pub fn fill_reference_counts(
    survey: FileSurvey,
    function_counts: &NameMap<usize>,
    type_counts: &NameMap<usize>,
) -> (r: FileSurvey)
    requires
        function_counts.wf(),
        type_counts.wf(),
    ensures
        pair_texts(r.functions_defined@) == pair_texts(survey.functions_defined@).map_values(
            |p: (Seq<char>, nat)| (p.0, count_for(function_counts@, p.0)),
        ),
        pair_texts(r.types_defined@) == pair_texts(survey.types_defined@).map_values(
            |p: (Seq<char>, nat)| (p.0, count_for(type_counts@, bare_type_name(p.0))),
        ),
        r.file == survey.file,
        r.calls == survey.calls,
        r.types_mentioned == survey.types_mentioned,
        r.parse_errors == survey.parse_errors,
        r.truncated == survey.truncated,
{
    let ghost functions = pair_texts(survey.functions_defined@).map_values(
        |p: (Seq<char>, nat)| (p.0, count_for(function_counts@, p.0)),
    );
    let mut functions_defined: Vec<(String, usize)> = Vec::new();
    let mut i: usize = 0;
    while i < survey.functions_defined.len()
        invariant
            i <= survey.functions_defined@.len(),
            function_counts.wf(),
            functions == pair_texts(survey.functions_defined@).map_values(
                |p: (Seq<char>, nat)| (p.0, count_for(function_counts@, p.0)),
            ),
            pair_texts(functions_defined@) == functions.take(i as int),
        decreases survey.functions_defined@.len() - i,
    {
        let name = survey.functions_defined[i].0.clone();
        let count: usize = count_of(function_counts, name.as_str());
        proof {
            lemma_pair_push(functions_defined@, name, count);
            assert(functions[i as int] == (name@, count as nat));
        }
        functions_defined.push((name, count));
        i += 1;
        assert(pair_texts(functions_defined@) =~= functions.take(i as int));
    }
    assert(functions.take(i as int) =~= functions);
    let ghost types = pair_texts(survey.types_defined@).map_values(
        |p: (Seq<char>, nat)| (p.0, count_for(type_counts@, bare_type_name(p.0))),
    );
    let mut types_defined: Vec<(String, usize)> = Vec::new();
    let mut k: usize = 0;
    while k < survey.types_defined.len()
        invariant
            k <= survey.types_defined@.len(),
            type_counts.wf(),
            types == pair_texts(survey.types_defined@).map_values(
                |p: (Seq<char>, nat)| (p.0, count_for(type_counts@, bare_type_name(p.0))),
            ),
            pair_texts(types_defined@) == types.take(k as int),
        decreases survey.types_defined@.len() - k,
    {
        let name = survey.types_defined[k].0.clone();
        let bare = reference_type_name(name.as_str());
        let count: usize = count_of(type_counts, bare.as_str());
        proof {
            lemma_pair_push(types_defined@, name, count);
            assert(types[k as int] == (name@, count as nat));
        }
        types_defined.push((name, count));
        k += 1;
        assert(pair_texts(types_defined@) =~= types.take(k as int));
    }
    assert(types.take(k as int) =~= types);
    FileSurvey {
        file: survey.file,
        functions_defined,
        calls: survey.calls,
        types_defined,
        types_mentioned: survey.types_mentioned,
        parse_errors: survey.parse_errors,
        truncated: survey.truncated,
    }
}

/// The path that a request names: itself where it is absolute, else below the
/// workspace.
pub open spec fn candidate(root: Seq<char>, requested: Seq<char>) -> Seq<char> {
    if has_prefix(requested, "/"@) {
        requested
    } else {
        below(root, requested)
    }
}

/// The path that a request names.
pub fn survey_candidate(root: &str, requested: &str) -> (r: String)
    ensures
        r@ == candidate(root@, requested@),
{
    if starts_with(requested, "/") {
        String::from_str(requested)
    } else {
        join_path(root, requested)
    }
}

/// A directory as it begins the paths of what is in it.
pub open spec fn as_lead(root: Seq<char>) -> Seq<char> {
    below(root, ""@)
}

/// Whether a path is that of a directory, or of something in it. Both are
/// without links, `.` and `..`.
pub open spec fn in_dir(path: Seq<char>, root: Seq<char>) -> bool {
    path == root || has_prefix(path, as_lead(root))
}

/// A path as seen from a directory it is in.
pub open spec fn from_dir(path: Seq<char>, root: Seq<char>) -> Seq<char> {
    match after_prefix(path, as_lead(root)) {
        Some(rest) => rest,
        None => Seq::empty(),
    }
}

/// Whether a file has an extension that can be analyzed.
pub open spec fn is_supported(path: Seq<char>) -> bool {
    path_extension(path) matches Some(extension) && supported().contains(extension)
}

/// A file that can be analyzed is in a language that a survey reads, and the
/// other way round.
pub proof fn supported_files_have_a_language(path: Seq<char>)
    ensures
        is_supported(path) <==> SurveyLanguage::of_path(path) is Some,
{
    let s = supported();
    if is_supported(path) {
        let e = path_extension(path)->0;
        let i = choose|i: int| 0 <= i < s.len() && s[i] == e;
        assert(s[i] == e);
    }
    if SurveyLanguage::of_path(path) is Some {
        assert(s[0] == "c"@ && s[1] == "h"@ && s[2] == "cc"@ && s[3] == "cpp"@ && s[4] == "cxx"@
            && s[5] == "c++"@ && s[6] == "hh"@ && s[7] == "hpp"@ && s[8] == "hxx"@ && s[9]
            == "h++"@ && s[10] == "rs"@ && s[11] == "py"@ && s[12] == "zig"@);
    }
}

/// Why a file is not surveyed.
pub open spec fn refusal(root: Seq<char>, path: Seq<char>, is_file: bool) -> Option<Seq<char>> {
    if !in_dir(path, root) {
        Some("source file '"@ + path + "' is outside workspace '"@ + root + "'"@)
    } else if !is_file {
        Some("'"@ + path + "' is not a regular file"@)
    } else if !is_supported(path) {
        Some(
            "unsupported source file '"@ + path
                + "'; expected C, C++, Rust, Python, or Zig"@,
        )
    } else {
        None
    }
}

/// Which language a file is surveyed in, and the path it is named by: only a
/// regular file of a known kind in the workspace is. `root` and `path` are
/// without links, `.` and `..`.
pub fn survey_target(root: &str, path: &str, is_file: bool) -> (r: Result<
    (SurveyLanguage, String),
    String,
>)
    ensures
        match r {
            Ok((language, file)) => refusal(root@, path@, is_file) is None
                && SurveyLanguage::of_path(path@) == Some(language) && file@ == from_dir(
                path@,
                root@,
            ),
            Err(message) => refusal(root@, path@, is_file) == Some(message@),
        },
{
    let lead = join_path(root, "");
    let file = strip_prefix(path, lead.as_str());
    if !str_eq(path, root) && file.is_none() {
        let mut out = String::from_str("source file '");
        out.append(path);
        out.append("' is outside workspace '");
        out.append(root);
        out.append("'");
        return Err(out);
    }
    if !is_file {
        let mut out = String::from_str("'");
        out.append(path);
        out.append("' is not a regular file");
        return Err(out);
    }
    proof {
        supported_files_have_a_language(path@);
    }
    match SurveyLanguage::from_path(path) {
        Some(language) => Ok(
            (
                language,
                match file {
                    Some(file) => file,
                    None => String::new(),
                },
            ),
        ),
        None => {
            let mut out = String::from_str("unsupported source file '");
            out.append(path);
            out.append("'; expected C, C++, Rust, Python, or Zig");
            Err(out)
        },
    }
}

} // verus!
