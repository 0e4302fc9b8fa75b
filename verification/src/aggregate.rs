//! Reading the aggregate that a field declaration names.
use vstd::prelude::*;
use crate::text::{
    alphanumeric, chars_of, is_alphanumeric, is_numeric, is_white_space, numeric, pieces,
    replace_char, replaced, split_on, split_words, str_eq, texts, trimmed_start, white_space, words,
};

verus! {

/// A type C provides, which no struct is declared as and nothing is registered
/// under.
pub open spec fn builtin_type(name: Seq<char>) -> bool {
    ||| name == "void"@
    ||| name == "char"@
    ||| name == "short"@
    ||| name == "int"@
    ||| name == "long"@
    ||| name == "float"@
    ||| name == "double"@
    ||| name == "signed"@
    ||| name == "unsigned"@
    ||| name == "bool"@
    ||| name == "_Bool"@
    ||| name == "size_t"@
    ||| name == "ssize_t"@
    ||| name == "u8"@
    ||| name == "u16"@
    ||| name == "u32"@
    ||| name == "u64"@
    ||| name == "s8"@
    ||| name == "s16"@
    ||| name == "s32"@
    ||| name == "s64"@
}

/// Whether a name is a type that C provides.
pub fn is_builtin_type(name: &str) -> (r: bool)
    ensures
        r == builtin_type(name@),
{
    str_eq(name, "void") || str_eq(name, "char") || str_eq(name, "short") || str_eq(name, "int")
        || str_eq(name, "long") || str_eq(name, "float") || str_eq(name, "double") || str_eq(
        name,
        "signed",
    ) || str_eq(name, "unsigned") || str_eq(name, "bool") || str_eq(name, "_Bool") || str_eq(
        name,
        "size_t",
    ) || str_eq(name, "ssize_t") || str_eq(name, "u8") || str_eq(name, "u16") || str_eq(name, "u32")
        || str_eq(name, "u64") || str_eq(name, "s8") || str_eq(name, "s16") || str_eq(name, "s32")
        || str_eq(name, "s64")
}

pub open spec fn qualifier(word: Seq<char>) -> bool {
    word == "const"@ || word == "volatile"@ || word == "restrict"@ || word == "_Atomic"@
}

/// How much of a text stands before the bracket that closes one opened before it,
/// and `depth` more inside that one: all of it, where none does.
pub open spec fn group_end(s: Seq<char>, depth: nat) -> nat
    decreases s.len(),
{
    if s.len() == 0 {
        0
    } else if s[0] == '(' {
        1 + group_end(s.skip(1), depth + 1)
    } else if s[0] != ')' {
        1 + group_end(s.skip(1), depth)
    } else if depth == 0 {
        0
    } else {
        1 + group_end(s.skip(1), (depth - 1) as nat)
    }
}

/// What follows the first `n` characters and one more.
pub open spec fn beyond(s: Seq<char>, n: nat) -> Seq<char> {
    if n < s.len() {
        s.skip(n as int + 1)
    } else {
        Seq::empty()
    }
}

/// Whether a group in brackets is the declarator of a function pointer: there is a
/// star in it, and the parameters of the function follow.
pub open spec fn function_declarator(group: Seq<char>, after: Seq<char>) -> bool {
    let after = trimmed_start(after);
    group.contains('*') && after.len() > 0 && after[0] == '('
}

/// Whether a field is declared as a function pointer or an array: a signature, or
/// many of something, and no aggregate. What stands in the brackets of an attribute
/// says nothing about that.
pub open spec fn declares_no_object(declared: Seq<char>) -> bool
    decreases declared.len(),
{
    if declared.len() == 0 {
        false
    } else if declared[0] == '[' {
        true
    } else if declared[0] == '(' {
        let rest = declared.skip(1);
        let end = group_end(rest, 0);
        function_declarator(rest.take(end as int), beyond(rest, end)) || declares_no_object(
            beyond(rest, end),
        )
    } else {
        declares_no_object(declared.skip(1))
    }
}

/// The declaration up to its first bracket, with the marks of pointers blanked.
pub open spec fn bare_declaration(declared: Seq<char>) -> Seq<char> {
    replaced(pieces(declared, '(')[0], '*', " "@)
}

/// The word that names the type: the one after `struct` or `union`, or the
/// first that is not a qualifier. An enumeration is a plain type.
pub open spec fn naming_word(words: Seq<Seq<char>>) -> Option<Seq<char>>
    decreases words.len(),
{
    if words.len() == 0 {
        None
    } else if words[0] == "struct"@ || words[0] == "union"@ {
        if words.len() > 1 {
            Some(words[1])
        } else {
            None
        }
    } else if qualifier(words[0]) {
        naming_word(words.skip(1))
    } else if words[0] == "enum"@ {
        None
    } else {
        Some(words[0])
    }
}

/// Whether a word can name an aggregate: an identifier that is no builtin.
pub open spec fn aggregate_name(name: Seq<char>) -> bool {
    &&& name.len() > 0
    &&& !numeric(name[0])
    &&& forall|i: int| 0 <= i < name.len() ==> alphanumeric(#[trigger] name[i]) || name[i] == '_'
    &&& !builtin_type(name)
}

/// The aggregate that a declaration names.
pub open spec fn aggregate(declared: Seq<char>) -> Option<Seq<char>> {
    if declares_no_object(declared) {
        None
    } else {
        match naming_word(words(bare_declaration(declared))) {
            Some(name) => if aggregate_name(name) {
                Some(name)
            } else {
                None
            },
            None => None,
        }
    }
}

/// Whether a word can name an aggregate.
fn is_aggregate_name(name: &str) -> (r: bool)
    ensures
        r == aggregate_name(name@),
{
    let chars = chars_of(name);
    if chars.len() == 0 || is_numeric(chars[0]) {
        return false;
    }
    let mut i: usize = 0;
    while i < chars.len()
        invariant
            i <= chars@.len(),
            chars@ == name@,
            forall|j: int|
                0 <= j < i ==> alphanumeric(#[trigger] name@[j]) || name@[j] == '_',
        decreases chars@.len() - i,
    {
        if !is_alphanumeric(chars[i]) && chars[i] != '_' {
            assert(!alphanumeric(name@[i as int]));
            return false;
        }
        i += 1;
    }
    !is_builtin_type(name)
}

/// Where the group that begins at a place ends.
fn find_group_end(chars: &Vec<char>, from: usize) -> (r: usize)
    requires
        from <= chars@.len(),
    ensures
        from <= r <= chars@.len(),
        r == from + group_end(chars@.skip(from as int), 0),
{
    let mut depth: usize = 0;
    let mut i: usize = from;
    while i < chars.len()
        invariant
            from <= i <= chars@.len(),
            depth <= i - from,
            from + group_end(chars@.skip(from as int), 0) == i + group_end(
                chars@.skip(i as int),
                depth as nat,
            ),
        decreases chars@.len() - i,
    {
        let c = chars[i];
        assert(chars@.skip(i as int).skip(1) =~= chars@.skip(i + 1));
        assert(chars@.skip(i as int)[0] == c);
        if c == '(' {
            depth += 1;
        } else if c == ')' {
            if depth == 0 {
                return i;
            }
            depth -= 1;
        }
        i += 1;
    }
    i
}

/// Whether a star stands in a part of a text.
fn has_star(chars: &Vec<char>, from: usize, to: usize) -> (r: bool)
    requires
        from <= to <= chars@.len(),
    ensures
        r == chars@.skip(from as int).take(to - from).contains('*'),
{
    let ghost part = chars@.skip(from as int).take(to - from);
    let mut i: usize = from;
    while i < to
        invariant
            from <= i <= to <= chars@.len(),
            part == chars@.skip(from as int).take(to - from),
            forall|k: int| 0 <= k < i - from ==> part[k] != '*',
        decreases to - i,
    {
        assert(part[i - from] == chars@[i as int]);
        if chars[i] == '*' {
            return true;
        }
        i += 1;
    }
    false
}

/// Whether a bracket opens at a place, white space aside.
fn opens_at(chars: &Vec<char>, from: usize) -> (r: bool)
    requires
        from <= chars@.len(),
    ensures
        r == (trimmed_start(chars@.skip(from as int)).len() > 0 && trimmed_start(
            chars@.skip(from as int),
        )[0] == '('),
{
    let mut i: usize = from;
    while i < chars.len() && is_white_space(chars[i])
        invariant
            from <= i <= chars@.len(),
            trimmed_start(chars@.skip(i as int)) == trimmed_start(chars@.skip(from as int)),
        decreases chars@.len() - i,
    {
        assert(chars@.skip(i as int)[0] == chars@[i as int]);
        assert(chars@.skip(i as int).skip(1) =~= chars@.skip(i + 1));
        i += 1;
    }
    let ghost rest = chars@.skip(i as int);
    assert(i < chars@.len() ==> rest[0] == chars@[i as int] && !white_space(rest[0]));
    assert(trimmed_start(rest) == rest);
    i < chars.len() && chars[i] == '('
}

/// Whether a field is declared as a function pointer or an array.
pub fn is_no_object(declared: &str) -> (r: bool)
    ensures
        r == declares_no_object(declared@),
{
    let chars = chars_of(declared);
    let mut i: usize = 0;
    assert(declared@.skip(0) =~= declared@);
    while i < chars.len()
        invariant
            i <= chars@.len(),
            chars@ == declared@,
            declares_no_object(declared@) == declares_no_object(declared@.skip(i as int)),
        decreases chars@.len() - i,
    {
        let c = chars[i];
        let ghost here = declared@.skip(i as int);
        proof {
            assert(here[0] == c);
            assert(here.skip(1) =~= declared@.skip(i + 1));
        }
        if c == '[' {
            return true;
        }
        if c == '(' {
            let end: usize = find_group_end(&chars, i + 1);
            let next: usize = if end < chars.len() {
                end + 1
            } else {
                end
            };
            let ghost n = group_end(here.skip(1), 0);
            proof {
                assert(beyond(here.skip(1), n) =~= declared@.skip(next as int));
            }
            if has_star(&chars, i + 1, end) && opens_at(&chars, next) {
                return true;
            }
            i = next;
        } else {
            i += 1;
        }
    }
    false
}

/// The struct or union a field is declared as, with the noise a declaration
/// carries stripped: `struct file_operations *` is `file_operations`.
///
/// A field declared as a plain type, a function pointer, or an array of
/// something yields nothing: only an aggregate can hold the members a dispatch
/// goes through. A typedef name is a container like any other. Whatever else begins
/// with a bracket, such as the arguments of an attribute, is cut off.
pub fn aggregate_of(declared: &str) -> (r: Option<String>)
    ensures
        match r {
            Some(name) => aggregate(declared@) == Some(name@),
            None => aggregate(declared@) is None,
        },
{
    if is_no_object(declared) {
        return None;
    }
    let parts = split_on(declared, '(');
    assert(texts(parts@)[0] == parts@[0]@);
    let bare = replace_char(parts[0].as_str(), '*', " ");
    let found = split_words(bare.as_str());
    let ghost all = words(bare@);
    let mut i: usize = 0;
    assert(all.skip(0) =~= all);
    assert(texts(found@) == all);
    while i < found.len()
        invariant
            i <= found@.len(),
            texts(found@) == all,
            !declares_no_object(declared@),
            all == words(bare_declaration(declared@)),
            naming_word(all) == naming_word(all.skip(i as int)),
        decreases found@.len() - i,
    {
        let word = found[i].as_str();
        assert(all[i as int] == word@);
        assert(all.skip(i as int)[0] == word@);
        if str_eq(word, "struct") || str_eq(word, "union") {
            if i + 1 >= found.len() {
                return None;
            }
            let name = found[i + 1].as_str();
            assert(all[i + 1] == name@);
            if is_aggregate_name(name) {
                return Some(String::from_str(name));
            }
            return None;
        }
        if !(str_eq(word, "const") || str_eq(word, "volatile") || str_eq(word, "restrict")
            || str_eq(word, "_Atomic")) {
            if !str_eq(word, "enum") && is_aggregate_name(word) {
                return Some(String::from_str(word));
            }
            return None;
        }
        assert(all.skip(i as int).skip(1) =~= all.skip(i + 1));
        i += 1;
    }
    None
}

} // verus!
