//! What the reading of a declaration promises, said of its characters and words.
use vstd::prelude::*;
use crate::aggregate::{
    aggregate, aggregate_name, bare_declaration, beyond, builtin_type, declares_no_object,
    function_declarator, group_end, naming_word, qualifier,
};
use crate::text::{
    alphanumeric, lemma_first_piece, lemma_one_piece, numeric, pieces, replaced, trimmed_start,
    white_space, words,
};

verus! {

/// Whether a text has no bracket that opens in it.
pub open spec fn opens_nothing(s: Seq<char>) -> bool {
    !s.contains('(') && !s.contains('[')
}

proof fn lemma_skip_opens_nothing(s: Seq<char>)
    requires
        opens_nothing(s),
        s.len() > 0,
    ensures
        opens_nothing(s.skip(1)),
        s[0] != '(' && s[0] != '[',
{
    assert forall|i: int| 0 <= i < s.skip(1).len() implies s.skip(1)[i] != '(' && s.skip(1)[i]
        != '[' by {
        assert(s.skip(1)[i] == s[i + 1]);
    }
}

/// Without brackets a declaration is of one object. With an array's, it is not.
pub proof fn arrays_are_no_object(lead: Seq<char>, rest: Seq<char>)
    requires
        opens_nothing(lead),
    ensures
        !declares_no_object(lead),
        declares_no_object(lead + seq!['['] + rest),
    decreases lead.len(),
{
    let whole = lead + seq!['['] + rest;
    if lead.len() > 0 {
        lemma_skip_opens_nothing(lead);
        arrays_are_no_object(lead.skip(1), rest);
        assert(whole.skip(1) =~= lead.skip(1) + seq!['['] + rest);
    }
}

/// Whether a bracket is the first character of a text that is no white space.
pub open spec fn goes_on_with_bracket(s: Seq<char>) -> bool {
    exists|k: int|
        0 <= k < s.len() && #[trigger] s[k] == '(' && forall|i: int|
            0 <= i < k ==> white_space(#[trigger] s[i])
}

proof fn lemma_goes_on(s: Seq<char>)
    ensures
        goes_on_with_bracket(s) <==> trimmed_start(s).len() > 0 && trimmed_start(s)[0] == '(',
    decreases s.len(),
{
    if s.len() > 0 && white_space(s[0]) {
        let rest = s.skip(1);
        lemma_goes_on(rest);
        if goes_on_with_bracket(s) {
            let k = choose|k: int|
                0 <= k < s.len() && #[trigger] s[k] == '(' && forall|i: int|
                    0 <= i < k ==> white_space(#[trigger] s[i]);
            assert(k > 0);
            assert(rest[k - 1] == '(');
            assert forall|i: int| 0 <= i < k - 1 implies white_space(#[trigger] rest[i]) by {
                assert(s[i + 1] == rest[i]);
            }
        }
        if goes_on_with_bracket(rest) {
            let k = choose|k: int|
                0 <= k < rest.len() && #[trigger] rest[k] == '(' && forall|i: int|
                    0 <= i < k ==> white_space(#[trigger] rest[i]);
            assert(s[k + 1] == '(');
            assert forall|i: int| 0 <= i < k + 1 implies white_space(#[trigger] s[i]) by {
                if i > 0 {
                    assert(rest[i - 1] == s[i]);
                }
            }
        }
    } else if s.len() > 0 {
        if s[0] == '(' {
            assert(goes_on_with_bracket(s));
        }
        if goes_on_with_bracket(s) {
            let k = choose|k: int|
                0 <= k < s.len() && #[trigger] s[k] == '(' && forall|i: int|
                    0 <= i < k ==> white_space(#[trigger] s[i]);
            if k > 0 {
                assert(white_space(s[0]));
            }
        }
    }
}

proof fn lemma_group_end(group: Seq<char>, rest: Seq<char>)
    requires
        !group.contains('('),
        !group.contains(')'),
    ensures
        group_end(group + seq![')'] + rest, 0) == group.len(),
    decreases group.len(),
{
    let whole = group + seq![')'] + rest;
    if group.len() > 0 {
        assert(group[0] != '(' && group[0] != ')');
        let less = group.skip(1);
        assert forall|i: int| 0 <= i < less.len() implies less[i] != '(' && less[i] != ')' by {
            assert(less[i] == group[i + 1]);
        }
        lemma_group_end(less, rest);
        assert(whole.skip(1) =~= less + seq![')'] + rest);
    }
}

/// A group in brackets with a star in it, and brackets after it, is the declarator of
/// a function. Any other group says nothing: what follows it decides.
pub proof fn function_pointers_are_no_object(
    lead: Seq<char>,
    group: Seq<char>,
    rest: Seq<char>,
)
    requires
        opens_nothing(lead),
        !group.contains('('),
        !group.contains(')'),
    ensures
        declares_no_object(lead + seq!['('] + group + seq![')'] + rest) <==> (group.contains('*')
            && goes_on_with_bracket(rest)) || declares_no_object(rest),
    decreases lead.len(),
{
    let whole = lead + seq!['('] + group + seq![')'] + rest;
    if lead.len() > 0 {
        lemma_skip_opens_nothing(lead);
        function_pointers_are_no_object(lead.skip(1), group, rest);
        assert(whole.skip(1) =~= lead.skip(1) + seq!['('] + group + seq![')'] + rest);
    } else {
        let inner = whole.skip(1);
        assert(whole[0] == '(');
        assert(inner =~= group + seq![')'] + rest);
        lemma_group_end(group, rest);
        assert(inner.take(group.len() as int) =~= group);
        assert(beyond(inner, group.len()) =~= rest);
        lemma_goes_on(rest);
        assert(function_declarator(group, rest) == (group.contains('*') && goes_on_with_bracket(
            rest,
        )));
    }
}

/// What is read of a declaration ends at its first bracket, and has blanks for stars.
pub proof fn stars_are_blanks(lead: Seq<char>, rest: Seq<char>)
    requires
        !lead.contains('('),
    ensures
        bare_declaration(lead) == bare_declaration(lead + seq!['('] + rest),
        bare_declaration(lead).len() == lead.len(),
        forall|i: int|
            0 <= i < lead.len() ==> #[trigger] bare_declaration(lead)[i] == (if lead[i] == '*' {
                ' '
            } else {
                lead[i]
            }),
{
    lemma_one_piece(lead, '(');
    lemma_first_piece(lead, '(', rest);
    lemma_blanked(lead);
}

proof fn lemma_blanked(s: Seq<char>)
    ensures
        replaced(s, '*', " "@).len() == s.len(),
        forall|i: int|
            0 <= i < s.len() ==> #[trigger] replaced(s, '*', " "@)[i] == (if s[i] == '*' {
                ' '
            } else {
                s[i]
            }),
    decreases s.len(),
{
    reveal_strlit(" ");
    if s.len() > 0 {
        lemma_blanked(s.drop_last());
    }
}

/// The words that qualify a type.
pub open spec fn qualifying(word: Seq<char>) -> bool {
    word == "const"@ || word == "volatile"@ || word == "restrict"@ || word == "_Atomic"@
}

/// Whether a word is the one that names the type of a declaration: the word after
/// `struct` or `union`, or the first, the qualifying words before aside. The words
/// of an enumeration name none.
pub open spec fn names_the_type(list: Seq<Seq<char>>, k: int) -> bool {
    &&& 0 <= k < list.len()
    &&& {
        ||| k > 0 && (list[k - 1] == "struct"@ || list[k - 1] == "union"@) && forall|i: int|
            0 <= i < k - 1 ==> qualifying(#[trigger] list[i])
        ||| !qualifying(list[k]) && list[k] != "struct"@ && list[k] != "union"@ && list[k]
            != "enum"@ && forall|i: int| 0 <= i < k ==> qualifying(#[trigger] list[i])
    }
}

proof fn lemma_keywords()
    ensures
        !qualifying("struct"@),
        !qualifying("union"@),
        !qualifying("enum"@),
        "struct"@ != "union"@,
        "struct"@ != "enum"@,
        "union"@ != "enum"@,
{
    reveal_strlit("struct");
    reveal_strlit("union");
    reveal_strlit("enum");
    reveal_strlit("const");
    reveal_strlit("volatile");
    reveal_strlit("restrict");
    reveal_strlit("_Atomic");
    assert("struct"@.len() == 6 && "union"@.len() == 5 && "enum"@.len() == 4);
    assert("const"@.len() == 5 && "volatile"@.len() == 8 && "restrict"@.len() == 8
        && "_Atomic"@.len() == 7);
    assert("const"@[0] == 'c' && "union"@[0] == 'u');
}

proof fn lemma_naming_word(list: Seq<Seq<char>>, name: Seq<char>)
    ensures
        naming_word(list) == Some(name) <==> exists|k: int| #[trigger]
            names_the_type(list, k) && list[k] == name,
    decreases list.len(),
{
    lemma_keywords();
    if list.len() > 0 {
        let first = list[0];
        if first == "struct"@ || first == "union"@ {
            if list.len() > 1 {
                assert(names_the_type(list, 1));
            }
            if exists|k: int| #[trigger] names_the_type(list, k) && list[k] == name {
                let k = choose|k: int| #[trigger] names_the_type(list, k) && list[k] == name;
                if k > 1 {
                    assert(qualifying(list[0]));
                }
            }
        } else if qualifier(first) {
            let rest = list.skip(1);
            lemma_naming_word(rest, name);
            if naming_word(rest) == Some(name) {
                let k = choose|k: int| #[trigger] names_the_type(rest, k) && rest[k] == name;
                assert forall|i: int| 0 < i <= k implies list[i] == #[trigger] rest[i - 1] by {
                }
                assert(list[k + 1] == rest[k]);
                if k > 0 && (rest[k - 1] == "struct"@ || rest[k - 1] == "union"@) && forall|i: int|
                    0 <= i < k - 1 ==> qualifying(#[trigger] rest[i]) {
                    assert(list[k] == rest[k - 1]);
                    assert forall|i: int| 0 <= i < k implies qualifying(#[trigger] list[i]) by {
                        if i > 0 {
                            assert(list[i] == rest[i - 1]);
                        }
                    }
                } else {
                    assert forall|i: int| 0 <= i < k + 1 implies qualifying(#[trigger] list[i]) by {
                        if i > 0 {
                            assert(list[i] == rest[i - 1]);
                        }
                    }
                }
                assert(names_the_type(list, k + 1));
            }
            if exists|k: int| #[trigger] names_the_type(list, k) && list[k] == name {
                let k = choose|k: int| #[trigger] names_the_type(list, k) && list[k] == name;
                assert(k > 0);
                assert forall|i: int| 0 <= i < rest.len() implies #[trigger] rest[i] == list[i
                    + 1] by {
                }
                assert(rest[k - 1] == list[k]);
                assert(names_the_type(rest, k - 1));
            }
        } else if first == "enum"@ {
            if exists|k: int| #[trigger] names_the_type(list, k) && list[k] == name {
                let k = choose|k: int| #[trigger] names_the_type(list, k) && list[k] == name;
                if k > 1 {
                    assert(qualifying(list[0]));
                } else if k == 1 {
                    assert(list[0] == "enum"@);
                }
            }
        } else {
            assert(names_the_type(list, 0));
            if exists|k: int| #[trigger] names_the_type(list, k) && list[k] == name {
                let k = choose|k: int| #[trigger] names_the_type(list, k) && list[k] == name;
                if k > 1 {
                    assert(qualifying(list[0]));
                }
            }
        }
    }
}

/// Whether a text is an identifier: letters, digits and underscores, no digit first.
pub open spec fn identifier(s: Seq<char>) -> bool {
    &&& s.len() > 0
    &&& !numeric(s[0])
    &&& forall|i: int| 0 <= i < s.len() ==> alphanumeric(#[trigger] s[i]) || s[i] == '_'
}

/// The types that a struct never is: C's own and those of the kernel by width.
pub open spec fn plain_types() -> Seq<Seq<char>> {
    seq![
        "void"@,
        "char"@,
        "short"@,
        "int"@,
        "long"@,
        "float"@,
        "double"@,
        "signed"@,
        "unsigned"@,
        "bool"@,
        "_Bool"@,
        "size_t"@,
        "ssize_t"@,
        "u8"@,
        "u16"@,
        "u32"@,
        "u64"@,
        "s8"@,
        "s16"@,
        "s32"@,
        "s64"@,
    ]
}

proof fn lemma_plain_types(name: Seq<char>)
    ensures
        builtin_type(name) <==> plain_types().contains(name),
{
    let p = plain_types();
    assert(p[0] == "void"@ && p[1] == "char"@ && p[2] == "short"@ && p[3] == "int"@ && p[4]
        == "long"@ && p[5] == "float"@ && p[6] == "double"@ && p[7] == "signed"@ && p[8]
        == "unsigned"@ && p[9] == "bool"@ && p[10] == "_Bool"@ && p[11] == "size_t"@ && p[12]
        == "ssize_t"@ && p[13] == "u8"@ && p[14] == "u16"@ && p[15] == "u32"@ && p[16] == "u64"@
        && p[17] == "s8"@ && p[18] == "s16"@ && p[19] == "s32"@ && p[20] == "s64"@);
    assert(p.len() == 21);
    if p.contains(name) {
        let i = choose|i: int| 0 <= i < p.len() && p[i] == name;
        assert(0 <= i <= 20);
    }
}

/// A declaration names an aggregate just where it declares one object and the word
/// that names its type is an identifier and none of the plain types.
pub proof fn aggregates_are_named_by_their_word(declared: Seq<char>, name: Seq<char>)
    ensures
        aggregate(declared) == Some(name) <==> !declares_no_object(declared) && identifier(name)
            && !plain_types().contains(name) && exists|k: int| #[trigger]
            names_the_type(words(bare_declaration(declared)), k) && words(
                bare_declaration(declared),
            )[k] == name,
{
    lemma_naming_word(words(bare_declaration(declared)), name);
    lemma_plain_types(name);
    assert(aggregate_name(name) == (identifier(name) && !builtin_type(name)));
}

} // verus!
