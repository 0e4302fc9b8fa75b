//! What is written when functions and types are stored: the contents, and which
//! file defines which name.
use vstd::prelude::*;
use crate::names::{distinct, distinct_names};
use crate::overlay::Located;
use crate::text::{lemma_texts_push, texts};
use crate::types::{FunctionInfo, Named, TypeInfo, TypedefInfo};

verus! {

impl Located for TypedefInfo {
    open spec fn located(&self) -> Seq<char> {
        self.file_path@
    }

    fn location(&self) -> (r: &str) {
        self.file_path.as_str()
    }
}

/// The names of some rows, each with the file it is defined in.
pub open spec fn names_with_files<T: Named + Located>(rows: Seq<T>) -> Seq<(Seq<char>, Seq<char>)> {
    rows.map_values(|row: T| (row.named(), row.located()))
}

/// The texts of pairs.
pub open spec fn pair_texts(pairs: Seq<(String, String)>) -> Seq<(Seq<char>, Seq<char>)> {
    pairs.map_values(|pair: (String, String)| (pair.0@, pair.1@))
}

/// The names of some rows, each with the file it is defined in.
pub fn symbol_filename_pairs<T: Named + Located>(rows: &Vec<T>) -> (r: Vec<(String, String)>)
    ensures
        pair_texts(r@) == names_with_files(rows@),
{
    let ghost wanted = names_with_files(rows@);
    let mut out: Vec<(String, String)> = Vec::new();
    let mut i: usize = 0;
    assert(pair_texts(out@) =~= wanted.take(0));
    while i < rows.len()
        invariant
            i <= rows@.len(),
            wanted == names_with_files(rows@),
            pair_texts(out@) == wanted.take(i as int),
        decreases rows@.len() - i,
    {
        let pair = (String::from_str(rows[i].name()), String::from_str(rows[i].location()));
        proof {
            assert(pair_texts(out@.push(pair)) =~= pair_texts(out@).push((pair.0@, pair.1@)));
            assert(wanted.take(i + 1) =~= wanted.take(i as int).push(wanted[i as int]));
        }
        out.push(pair);
        i += 1;
    }
    assert(wanted.take(i as int) =~= wanted);
    out
}

/// Rows that have a text worth storing once.
pub trait Defined: Sized {
    spec fn defined_as(&self) -> Seq<char>;

    fn definition_text(&self) -> (r: &str)
        ensures
            r@ == self.defined_as(),
    ;
}

impl Defined for FunctionInfo {
    open spec fn defined_as(&self) -> Seq<char> {
        self.body@
    }

    fn definition_text(&self) -> (r: &str) {
        self.body.as_str()
    }
}

impl Defined for TypeInfo {
    open spec fn defined_as(&self) -> Seq<char> {
        self.definition@
    }

    fn definition_text(&self) -> (r: &str) {
        self.definition.as_str()
    }
}

impl Defined for TypedefInfo {
    open spec fn defined_as(&self) -> Seq<char> {
        self.definition@
    }

    fn definition_text(&self) -> (r: &str) {
        self.definition.as_str()
    }
}

/// The texts of some rows that are not empty.
pub open spec fn definitions<T: Defined>(rows: Seq<T>) -> Seq<Seq<char>>
    decreases rows.len(),
{
    if rows.len() == 0 {
        Seq::empty()
    } else {
        let before = definitions(rows.drop_last());
        if rows.last().defined_as().len() > 0 {
            before.push(rows.last().defined_as())
        } else {
            before
        }
    }
}

/// The texts of some rows that are not empty.
pub fn definition_texts<T: Defined>(rows: &Vec<T>) -> (r: Vec<String>)
    ensures
        texts(r@) == definitions(rows@),
{
    let mut out: Vec<String> = Vec::new();
    let mut i: usize = 0;
    assert(rows@.take(0) =~= Seq::empty());
    assert(texts(out@) =~= Seq::empty());
    while i < rows.len()
        invariant
            i <= rows@.len(),
            texts(out@) == definitions(rows@.take(i as int)),
        decreases rows@.len() - i,
    {
        proof {
            assert(rows@.take(i + 1).drop_last() =~= rows@.take(i as int));
            assert(rows@.take(i + 1).last() == rows@[i as int]);
        }
        let text = rows[i].definition_text();
        if !text.is_empty() {
            let copy = String::from_str(text);
            proof {
                lemma_texts_push(out@, copy);
            }
            out.push(copy);
        }
        i += 1;
    }
    assert(rows@.take(i as int) =~= rows@);
    out
}

/// The different texts of some rows that are not empty: each is stored once.
pub fn unique_definitions<T: Defined>(rows: &Vec<T>) -> (r: Vec<String>)
    ensures
        texts(r@) == distinct(definitions(rows@)),
{
    distinct_names(definition_texts(rows))
}

/// What one batch writes.
pub struct CombinedBatch {
    /// The functions, and then the macros, which are stored as functions.
    pub functions: Vec<FunctionInfo>,
    /// The bodies of the functions and the definitions of the types.
    pub contents: Vec<String>,
    /// The names of the functions and of the types, each with its file.
    pub symbols: Vec<(String, String)>,
}

/// Prepares one batch of functions, types and macros.
pub fn insert_batch_combined(
    functions: Vec<FunctionInfo>,
    types: &Vec<TypeInfo>,
    macros: Vec<FunctionInfo>,
) -> (r: CombinedBatch)
    ensures
        r.functions@ == functions@ + macros@,
        texts(r.contents@) == definitions(functions@ + macros@) + definitions(types@),
        pair_texts(r.symbols@) == names_with_files(functions@ + macros@) + names_with_files(types@),
{
    let mut functions = functions;
    let mut macros = macros;
    functions.append(&mut macros);
    let mut contents = definition_texts(&functions);
    let mut more = definition_texts(types);
    proof {
        assert(texts(contents@ + more@) =~= texts(contents@) + texts(more@));
    }
    contents.append(&mut more);
    let mut symbols = symbol_filename_pairs(&functions);
    let mut pairs = symbol_filename_pairs(types);
    proof {
        assert(pair_texts(symbols@ + pairs@) =~= pair_texts(symbols@) + pair_texts(pairs@));
    }
    symbols.append(&mut pairs);
    CombinedBatch { functions, contents, symbols }
}

} // verus!
