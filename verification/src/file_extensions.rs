//! Which files are read, by their extension: the one place that says so.
use vstd::prelude::*;
use crate::paths::{extension_of, path_extension};
use crate::text::{ends_with, has_suffix, join, joined, str_eq, texts};

verus! {

/// All extensions that can be analyzed, without the leading dot.
pub open spec fn supported() -> Seq<Seq<char>> {
    seq![
        "c"@,
        "h"@,
        "cc"@,
        "cpp"@,
        "cxx"@,
        "c++"@,
        "hh"@,
        "hpp"@,
        "hxx"@,
        "h++"@,
        "rs"@,
        "py"@,
        "zig"@,
    ]
}

/// The extensions that are indexed unless others are asked for.
pub open spec fn defaults() -> Seq<Seq<char>> {
    seq!["c"@, "h"@, "rs"@, "zig"@]
}

/// All supported extensions.
pub fn supported_extensions() -> (r: Vec<String>)
    ensures
        texts(r@) == supported(),
{
    let r = vec![
        String::from_str("c"),
        String::from_str("h"),
        String::from_str("cc"),
        String::from_str("cpp"),
        String::from_str("cxx"),
        String::from_str("c++"),
        String::from_str("hh"),
        String::from_str("hpp"),
        String::from_str("hxx"),
        String::from_str("h++"),
        String::from_str("rs"),
        String::from_str("py"),
        String::from_str("zig"),
    ];
    assert(texts(r@) =~= supported());
    r
}

/// The default extensions.
pub fn default_extensions() -> (r: Vec<String>)
    ensures
        texts(r@) == defaults(),
{
    let r = vec![
        String::from_str("c"),
        String::from_str("h"),
        String::from_str("rs"),
        String::from_str("zig"),
    ];
    assert(texts(r@) =~= defaults());
    r
}

/// The default extensions with commas between them.
pub fn default_extensions_string() -> (r: String)
    ensures
        r@ == joined(defaults(), ","@),
{
    join(&default_extensions(), ",")
}

/// Whether the file has an extension that can be analyzed.
pub fn is_supported_for_analysis(file_path: &str) -> (r: bool)
    ensures
        r == (path_extension(file_path@) matches Some(extension) && supported().contains(
            extension,
        )),
{
    match extension_of(file_path) {
        None => false,
        Some(extension) => {
            let known = supported_extensions();
            let mut i: usize = 0;
            while i < known.len()
                invariant
                    i <= known@.len(),
                    texts(known@) == supported(),
                    path_extension(file_path@) == Some(extension@),
                    forall|j: int| 0 <= j < i ==> supported()[j] != extension@,
                decreases known@.len() - i,
            {
                assert(texts(known@)[i as int] == known@[i as int]@);
                if str_eq(known[i].as_str(), extension.as_str()) {
                    assert(supported()[i as int] == extension@);
                    return true;
                }
                i += 1;
            }
            assert(!supported().contains(extension@));
            false
        },
    }
}

/// Whether a path ends like that of a C or C++ file.
pub open spec fn c_cpp_path(path: Seq<char>) -> bool {
    ||| has_suffix(path, ".c"@)
    ||| has_suffix(path, ".h"@)
    ||| has_suffix(path, ".cc"@)
    ||| has_suffix(path, ".cpp"@)
    ||| has_suffix(path, ".cxx"@)
    ||| has_suffix(path, ".c++"@)
    ||| has_suffix(path, ".hh"@)
    ||| has_suffix(path, ".hpp"@)
    ||| has_suffix(path, ".hxx"@)
    ||| has_suffix(path, ".h++"@)
}

/// Whether the file is one of C or C++, the languages symbols are extracted
/// from.
pub fn is_c_cpp_file(file_path: &str) -> (r: bool)
    ensures
        r == c_cpp_path(file_path@),
{
    ends_with(file_path, ".c") || ends_with(file_path, ".h") || ends_with(file_path, ".cc")
        || ends_with(file_path, ".cpp") || ends_with(file_path, ".cxx") || ends_with(
        file_path,
        ".c++",
    ) || ends_with(file_path, ".hh") || ends_with(file_path, ".hpp") || ends_with(
        file_path,
        ".hxx",
    ) || ends_with(file_path, ".h++")
}

/// Whether the file is a Python file.
pub fn is_python_file(file_path: &str) -> (r: bool)
    ensures
        r == has_suffix(file_path@, ".py"@),
{
    ends_with(file_path, ".py")
}

/// Whether the file is a Zig file.
pub fn is_zig_file(file_path: &str) -> (r: bool)
    ensures
        r == has_suffix(file_path@, ".zig"@),
{
    ends_with(file_path, ".zig")
}

/// Every default extension is a supported one.
pub proof fn defaults_are_supported()
    ensures
        forall|i: int| 0 <= i < defaults().len() ==> supported().contains(#[trigger] defaults()[i]),
{
    assert(supported()[0] == "c"@);
    assert(supported()[1] == "h"@);
    assert(supported()[10] == "rs"@);
    assert(supported()[12] == "zig"@);
}

} // verus!
