//! Regular expressions that ignore case.
use vstd::prelude::*;

verus! {

/// What is wrong with a regular expression, if anything is.
pub uninterp spec fn regex_complaint(pattern: Seq<char>, ignoring_case: bool) -> Option<Seq<char>>;

/// Whether a regular expression is found in a text. One with something wrong is
/// found nowhere.
pub uninterp spec fn regex_found(
    pattern: Seq<char>,
    ignoring_case: bool,
    text: Seq<char>,
) -> bool;

/// `regex::RegexBuilder::build`, with case ignored or not: the text of the error,
/// or nothing where the pattern is a regular expression. What a regular expression
/// is is left to the crate.
#[verifier::external_body]
fn build_complaint(pattern: &str, ignoring_case: bool) -> (r: Option<String>)
    ensures
        match r {
            Some(complaint) => regex_complaint(pattern@, ignoring_case) == Some(complaint@),
            None => regex_complaint(pattern@, ignoring_case) is None,
        },
{
    match regex::RegexBuilder::new(pattern).case_insensitive(ignoring_case).build() {
        Ok(_) => None,
        Err(e) => Some(e.to_string()),
    }
}

/// `regex::Regex::is_match` of the regular expression that the pattern builds, with
/// case ignored or not; false where it builds none. What it matches is left to the
/// crate.
#[verifier::external_body]
fn is_match(pattern: &str, ignoring_case: bool, text: &str) -> (r: bool)
    ensures
        r == regex_found(pattern@, ignoring_case, text@),
{
    match regex::RegexBuilder::new(pattern).case_insensitive(ignoring_case).build() {
        Ok(regex) => regex.is_match(text),
        Err(_) => false,
    }
}

/// What is wrong with a pattern. Patterns ignore case.
pub open spec fn pattern_complaint(pattern: Seq<char>) -> Option<Seq<char>> {
    regex_complaint(pattern, true)
}

/// Whether a pattern is found in a text. Patterns ignore case.
pub open spec fn pattern_found(pattern: Seq<char>, text: Seq<char>) -> bool {
    regex_found(pattern, true, text)
}

/// Says what is wrong with a pattern, if anything is.
pub fn find_complaint(pattern: &str) -> (r: Option<String>)
    ensures
        match r {
            Some(complaint) => pattern_complaint(pattern@) == Some(complaint@),
            None => pattern_complaint(pattern@) is None,
        },
{
    build_complaint(pattern, true)
}

/// Looks for a pattern in a text.
pub fn is_found(pattern: &str, text: &str) -> (r: bool)
    ensures
        r == pattern_found(pattern@, text@),
{
    is_match(pattern, true, text)
}

} // verus!
