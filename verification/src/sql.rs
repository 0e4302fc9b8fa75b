//! The predicates that rows are selected by, and how values are quoted in them.
use vstd::prelude::*;
use crate::text::{join, joined, lemma_texts_push, replace_char, replaced, texts};

verus! {

/// A value as it is written between quotes: every quote in it doubled.
pub open spec fn escaped(value: Seq<char>) -> Seq<char> {
    replaced(value, '\'', "''"@)
}

/// A value as a literal.
pub open spec fn quoted(value: Seq<char>) -> Seq<char> {
    "'"@ + escaped(value) + "'"@
}

/// Reads an escaped value back: of two quotes that stand together one is kept.
/// A quote that stands alone ends the value.
pub open spec fn unescaped(s: Seq<char>) -> Seq<char>
    decreases s.len(),
{
    if s.len() == 0 {
        s
    } else if s[0] != '\'' {
        seq![s[0]] + unescaped(s.skip(1))
    } else if s.len() >= 2 && s[1] == '\'' {
        seq!['\''] + unescaped(s.skip(2))
    } else {
        Seq::empty()
    }
}

proof fn lemma_escaped_prepend(c: char, rest: Seq<char>)
    ensures
        escaped(seq![c] + rest) == (if c == '\'' {
            seq!['\'', '\'']
        } else {
            seq![c]
        }) + escaped(rest),
    decreases rest.len(),
{
    reveal_strlit("''");
    let head = if c == '\'' {
        seq!['\'', '\'']
    } else {
        seq![c]
    };
    let s = seq![c] + rest;
    if rest.len() == 0 {
        assert(s.drop_last() =~= Seq::<char>::empty());
        assert(escaped(Seq::<char>::empty()) =~= Seq::empty());
        assert("''"@ =~= seq!['\'', '\'']);
        assert(escaped(s) =~= head + escaped(rest));
    } else {
        lemma_escaped_prepend(c, rest.drop_last());
        assert(s.drop_last() =~= seq![c] + rest.drop_last());
        assert(s.last() == rest.last());
        assert(escaped(s) =~= head + escaped(rest));
    }
}

/// A value that was escaped is read back as it was, whatever stands in it.
pub proof fn unescaping_gives_the_value_back(value: Seq<char>)
    ensures
        unescaped(escaped(value)) == value,
    decreases value.len(),
{
    if value.len() == 0 {
        assert(escaped(value) =~= Seq::<char>::empty());
        assert(value =~= Seq::<char>::empty());
    } else {
        let rest = value.skip(1);
        lemma_escaped_prepend(value[0], rest);
        assert(value =~= seq![value[0]] + rest);
        unescaping_gives_the_value_back(rest);
        if value[0] == '\'' {
            let e = seq!['\'', '\''] + escaped(rest);
            assert(e.skip(2) =~= escaped(rest));
            assert(escaped(value) == e);
            assert(unescaped(e) == seq!['\''] + rest);
        } else {
            let e = seq![value[0]] + escaped(rest);
            assert(e.skip(1) =~= escaped(rest));
            assert(escaped(value) == e);
        }
    }
}

/// Different values have different literals, so a predicate on one value never
/// selects the rows of another.
pub proof fn quoting_tells_values_apart(a: Seq<char>, b: Seq<char>)
    requires
        quoted(a) == quoted(b),
    ensures
        a == b,
{
    let q = "'"@;
    assert(quoted(a).subrange(q.len() as int, quoted(a).len() - q.len()) =~= escaped(a));
    assert(quoted(b).subrange(q.len() as int, quoted(b).len() - q.len()) =~= escaped(b));
    unescaping_gives_the_value_back(a);
    unescaping_gives_the_value_back(b);
}

/// A value as it is written between quotes.
pub fn escape(value: &str) -> (r: String)
    ensures
        r@ == escaped(value@),
{
    replace_char(value, '\'', "''")
}

/// A value as a literal.
pub fn quote(value: &str) -> (r: String)
    ensures
        r@ == quoted(value@),
{
    let mut out = String::from_str("'");
    out.append(escape(value).as_str());
    out.append("'");
    out
}

/// That a column holds a value.
pub open spec fn equals(column: Seq<char>, value: Seq<char>) -> Seq<char> {
    column + " = "@ + quoted(value)
}

/// Two predicates that must both hold.
pub open spec fn both(a: Seq<char>, b: Seq<char>) -> Seq<char> {
    a + " AND "@ + b
}

/// That a column holds one of some literals.
pub open spec fn one_of(column: Seq<char>, values: Seq<Seq<char>>, sep: Seq<char>) -> Seq<char> {
    column + " IN ("@ + joined(values.map_values(|v: Seq<char>| quoted(v)), sep) + ")"@
}

/// Selects the rows whose column holds a value.
pub fn equals_filter(column: &str, value: &str) -> (r: String)
    ensures
        r@ == equals(column@, value@),
{
    let mut out = String::from_str(column);
    out.append(" = ");
    out.append(quote(value).as_str());
    out
}

/// Selects the rows that two predicates select.
pub fn both_filter(a: &str, b: &str) -> (r: String)
    ensures
        r@ == both(a@, b@),
{
    let mut out = String::from_str(a);
    out.append(" AND ");
    out.append(b);
    out
}

/// The literals of some values.
pub fn quote_all(values: &[String]) -> (r: Vec<String>)
    ensures
        texts(r@) == texts(values@).map_values(|v: Seq<char>| quoted(v)),
{
    let mut out: Vec<String> = Vec::new();
    let mut i: usize = 0;
    while i < values.len()
        invariant
            i <= values@.len(),
            texts(out@) == texts(values@).take(i as int).map_values(|v: Seq<char>| quoted(v)),
        decreases values@.len() - i,
    {
        let literal = quote(values[i].as_str());
        proof {
            lemma_texts_push(out@, literal);
        }
        out.push(literal);
        i += 1;
        assert(texts(out@) =~= texts(values@).take(i as int).map_values(|v: Seq<char>| quoted(v)));
    }
    assert(texts(values@).take(i as int) =~= texts(values@));
    out
}

/// Selects the rows whose column holds one of some values.
pub fn one_of_filter(column: &str, values: &[String], sep: &str) -> (r: String)
    ensures
        r@ == one_of(column@, texts(values@), sep@),
{
    let mut out = String::from_str(column);
    out.append(" IN (");
    out.append(join(&quote_all(values), sep).as_str());
    out.append(")");
    out
}

/// Selects the rows of some names.
pub fn name_in_filter(names: &[String]) -> (r: String)
    ensures
        r@ == one_of("name"@, texts(names@), ","@),
{
    one_of_filter("name", names, ",")
}

/// Selects what is installed in one member of one type.
pub fn slot_filter(container_type: &str, member: &str) -> (r: String)
    ensures
        r@ == both(equals("container_type"@, container_type@), equals("member"@, member@)),
{
    both_filter(
        equals_filter("container_type", container_type).as_str(),
        equals_filter("member", member).as_str(),
    )
}

/// Selects what is installed in a member of this name and could still turn out
/// to be this container's: a row made through a field does not know its
/// container until it is resolved, so it has to be read.
pub fn member_for_container_filter(container_type: &str, member: &str) -> (r: String)
    ensures
        r@ == equals("member"@, member@) + " AND ("@ + equals("container_type"@, container_type@)
            + " OR container_type = '')"@,
{
    let mut out = equals_filter("member", member);
    out.append(" AND (");
    out.append(equals_filter("container_type", container_type).as_str());
    out.append(" OR container_type = '')");
    out
}

/// Selects a type by name, kind and file.
pub fn type_filter(name: &str, kind: &str, file_path: &str) -> (r: String)
    ensures
        r@ == both(
            both(equals("name"@, name@), equals("kind"@, kind@)),
            equals("file_path"@, file_path@),
        ),
{
    both_filter(
        both_filter(
            equals_filter("name", name).as_str(),
            equals_filter("kind", kind).as_str(),
        ).as_str(),
        equals_filter("file_path", file_path).as_str(),
    )
}

/// The predicate that a row was read from one of some file contents.
pub open spec fn of_contents(hashes: Seq<Seq<char>>) -> Seq<char> {
    joined(hashes.map_values(|h: Seq<char>| "git_file_hash = '"@ + h + "'"@), " OR "@)
}

/// Selects the rows read from one of some file contents.
pub fn contents_filter(hashes: &[String]) -> (r: String)
    ensures
        r@ == of_contents(texts(hashes@)),
{
    let mut parts: Vec<String> = Vec::new();
    let mut i: usize = 0;
    let ghost form = |h: Seq<char>| "git_file_hash = '"@ + h + "'"@;
    while i < hashes.len()
        invariant
            i <= hashes@.len(),
            form == (|h: Seq<char>| "git_file_hash = '"@ + h + "'"@),
            texts(parts@) == texts(hashes@).take(i as int).map_values(form),
        decreases hashes@.len() - i,
    {
        let mut part = String::from_str("git_file_hash = '");
        part.append(hashes[i].as_str());
        part.append("'");
        proof {
            lemma_texts_push(parts@, part);
        }
        parts.push(part);
        i += 1;
        assert(texts(parts@) =~= texts(hashes@).take(i as int).map_values(form));
    }
    assert(texts(hashes@).take(i as int) =~= texts(hashes@));
    join(&parts, " OR ")
}

/// The predicate on types by file content, with a name and a kind where given.
pub open spec fn types_of_contents(
    hashes: Seq<Seq<char>>,
    name: Option<&str>,
    kind: Option<&str>,
) -> Seq<char> {
    let named = match name {
        Some(name) => "("@ + of_contents(hashes) + ") AND name = "@ + quoted(name@),
        None => of_contents(hashes),
    };
    match kind {
        Some(kind) => "("@ + named + ") AND kind = "@ + quoted(kind@),
        None => named,
    }
}

/// Selects types by file content, with a name and a kind where given.
pub fn types_by_contents_filter(hashes: &[String], name: Option<&str>, kind: Option<&str>) -> (r:
    String)
    ensures
        r@ == types_of_contents(texts(hashes@), name, kind),
{
    let contents = contents_filter(hashes);
    let named = match name {
        Some(name) => {
            let mut out = String::from_str("(");
            out.append(contents.as_str());
            out.append(") AND name = ");
            out.append(quote(name).as_str());
            out
        },
        None => contents,
    };
    match kind {
        Some(kind) => {
            let mut out = String::from_str("(");
            out.append(named.as_str());
            out.append(") AND kind = ");
            out.append(quote(kind).as_str());
            out
        },
        None => named,
    }
}

/// Selects typedefs by file content, with a name where given.
pub fn typedefs_by_contents_filter(hashes: &[String], name: Option<&str>) -> (r: String)
    ensures
        r@ == (match name {
            Some(name) => "("@ + of_contents(texts(hashes@)) + ") AND kind = 'typedef'"@
                + " AND name = "@ + quoted(name@),
            None => "("@ + of_contents(texts(hashes@)) + ") AND kind = 'typedef'"@,
        }),
{
    let mut out = String::from_str("(");
    out.append(contents_filter(hashes).as_str());
    out.append(") AND kind = 'typedef'");
    if let Some(name) = name {
        out.append(" AND name = ");
        out.append(quote(name).as_str());
    }
    out
}

} // verus!
