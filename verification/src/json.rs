//! The columns that hold JSON: lists of names, and objects.
use vstd::prelude::*;
use crate::text::{at_most_chars, take_chars, texts};

verus! {

/// What reading a text as a JSON array of strings gives: the strings, or what
/// is wrong with the text.
pub uninterp spec fn json_names(json: Seq<char>) -> Result<Seq<Seq<char>>, Seq<char>>;

/// `serde_json::from_str` for a list of strings: the list, or the text of the
/// error. What JSON is is left to the crate.
#[verifier::external_body]
pub(crate) fn read_json_names(json: &str) -> (r: Result<Vec<String>, String>)
    ensures
        match r {
            Ok(names) => json_names(json@) matches Ok(list) && list == texts(names@),
            Err(complaint) => json_names(json@) matches Err(text) && text == complaint@,
        },
{
    match serde_json::from_str::<Vec<String>>(json) {
        Ok(names) => Ok(names),
        Err(e) => Err(e.to_string()),
    }
}

/// What writing a list of strings as JSON gives.
pub uninterp spec fn json_of_names(names: Seq<Seq<char>>) -> Seq<char>;

/// `serde_json::to_string` for a list of strings, which it always writes, as a
/// text that reads back as the same list.
#[verifier::external_body]
pub(crate) fn write_json_names(names: &Vec<String>) -> (r: Result<String, String>)
    ensures
        match r {
            Ok(json) => json@ == json_of_names(texts(names@)) && (json_names(json@) matches Ok(list)
                && list == texts(names@)),
            Err(_) => false,
        },
{
    match serde_json::to_string(names) {
        Ok(json) => Ok(json),
        Err(e) => Err(e.to_string()),
    }
}

/// What is wrong with a text that is to be a JSON object, if anything is.
pub uninterp spec fn object_complaint(json: Seq<char>) -> Option<Seq<char>>;

/// `serde_json::from_str` for a JSON object of any values: the text of the error,
/// or nothing where the text is one. What JSON is is left to the crate.
#[verifier::external_body]
pub(crate) fn find_object_complaint(json: &str) -> (r: Option<String>)
    ensures
        match r {
            Some(complaint) => object_complaint(json@) == Some(complaint@),
            None => object_complaint(json@) is None,
        },
{
    match serde_json::from_str::<serde_json::Map<String, serde_json::Value>>(json) {
        Ok(_) => None,
        Err(e) => Some(e.to_string()),
    }
}

/// The message that a list of names could not be read, with the beginning of
/// what was there instead.
pub open spec fn call_list_complaint(complaint: Seq<char>, json: Seq<char>) -> Seq<char> {
    "call list is not a JSON array of names ("@ + complaint + "): "@ + at_most_chars(json, 120)
}

/// The message that a list of names could not be read.
pub fn call_list_error(complaint: &str, json: &str) -> (r: String)
    ensures
        r@ == call_list_complaint(complaint@, json@),
{
    let mut out = String::from_str("call list is not a JSON array of names (");
    out.append(complaint);
    out.append("): ");
    out.append(take_chars(json, 120).as_str());
    out
}

/// Parses the `calls` column: a JSON array of callee names.
///
/// An unparsable value is an error rather than an empty list, which would turn a
/// malformed value into a function that appears to call nothing.
pub fn parse_call_list(json: &str) -> (r: Result<Vec<String>, String>)
    ensures
        match r {
            Ok(names) => json_names(json@) matches Ok(list) && list == texts(names@),
            Err(message) => json_names(json@) matches Err(complaint) && message@
                == call_list_complaint(complaint, json@),
        },
{
    match read_json_names(json) {
        Ok(names) => Ok(names),
        Err(complaint) => Err(call_list_error(complaint.as_str(), json)),
    }
}

/// Parses the `types` column, where an unparsable value says nothing.
pub fn parse_type_list(json: &str) -> (r: Option<Vec<String>>)
    ensures
        match r {
            Some(names) => json_names(json@) matches Ok(list) && list == texts(names@),
            None => json_names(json@) is Err,
        },
{
    match read_json_names(json) {
        Ok(names) => Some(names),
        Err(_) => None,
    }
}

/// A list of names as it is stored.
pub fn write_name_list(names: &Vec<String>) -> (r: Result<String, String>)
    ensures
        match r {
            Ok(json) => json@ == json_of_names(texts(names@)) && (json_names(json@) matches Ok(list)
                && list == texts(names@)),
            Err(_) => false,
        },
{
    write_json_names(names)
}

} // verus!
