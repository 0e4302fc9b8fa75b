//! File paths as text, with `/` between their components.
use vstd::prelude::*;
use crate::text::{chars_of, pieces, split_on, str_eq, texts};

verus! {

/// The last of some path segments that names something: empty segments and `.`
/// name nothing.
pub open spec fn last_named(segments: Seq<Seq<char>>) -> Option<Seq<char>>
    decreases segments.len(),
{
    if segments.len() == 0 {
        None
    } else if segments.last().len() == 0 || segments.last() == "."@ {
        last_named(segments.drop_last())
    } else {
        Some(segments.last())
    }
}

/// The final component of a path, unless the path ends in `..` or names
/// nothing.
pub open spec fn file_name(path: Seq<char>) -> Option<Seq<char>> {
    match last_named(pieces(path, '/')) {
        Some(name) => if name == ".."@ {
            None
        } else {
            Some(name)
        },
        None => None,
    }
}

/// What stands after the last dot of a file name, unless that dot is all the
/// name begins with.
pub open spec fn name_extension(name: Seq<char>) -> Option<Seq<char>> {
    let parts = pieces(name, '.');
    if parts.len() < 2 || (parts.len() == 2 && parts[0].len() == 0) {
        None
    } else {
        Some(parts.last())
    }
}

/// The extension of a path's final component.
pub open spec fn path_extension(path: Seq<char>) -> Option<Seq<char>> {
    match file_name(path) {
        Some(name) => name_extension(name),
        None => None,
    }
}

/// The extension of a path's final component.
pub fn extension_of(path: &str) -> (r: Option<String>)
    ensures
        match r {
            Some(extension) => path_extension(path@) == Some(extension@),
            None => path_extension(path@) is None,
        },
{
    let segments = split_on(path, '/');
    let ghost all = texts(segments@);
    let mut n: usize = segments.len();
    assert(all.take(n as int) =~= all);
    while n > 0 && (segments[n - 1].as_str().is_empty() || str_eq(segments[n - 1].as_str(), "."))
        invariant
            n <= segments@.len(),
            all == texts(segments@),
            last_named(all) == last_named(all.take(n as int)),
        decreases n,
    {
        assert(all[n - 1] == segments@[n - 1]@);
        assert(all.take(n as int).drop_last() =~= all.take(n - 1));
        n -= 1;
    }
    if n == 0 {
        return None;
    }
    let name = segments[n - 1].as_str();
    assert(all.take(n as int).last() == name@);
    if str_eq(name, "..") {
        return None;
    }
    let parts = split_on(name, '.');
    assert(forall|i: int| 0 <= i < parts@.len() ==> texts(parts@)[i] == parts@[i]@);
    if parts.len() < 2 || (parts.len() == 2 && parts[0].as_str().is_empty()) {
        None
    } else {
        Some(parts[parts.len() - 1].clone())
    }
}

/// A name below a directory.
pub open spec fn below(dir: Seq<char>, name: Seq<char>) -> Seq<char> {
    if dir.len() == 0 || dir.last() == '/' {
        dir + name
    } else {
        dir + "/"@ + name
    }
}

/// A relative name below a directory.
pub fn join_path(dir: &str, name: &str) -> (r: String)
    ensures
        r@ == below(dir@, name@),
{
    let chars = chars_of(dir);
    let mut out = String::from_str(dir);
    if chars.len() > 0 && chars[chars.len() - 1] != '/' {
        out.append("/");
    }
    out.append(name);
    out
}

/// Whether a path names the current directory: `.` with nothing after it but
/// separators and more `.`.
pub open spec fn current_dir(path: Seq<char>) -> bool {
    let segments = pieces(path, '/');
    &&& segments[0] == "."@
    &&& forall|i: int|
        1 <= i < segments.len() ==> (#[trigger] segments[i]).len() == 0 || segments[i] == "."@
}

/// Whether a path names the current directory.
pub fn is_current_dir(path: &str) -> (r: bool)
    ensures
        r == current_dir(path@),
{
    let segments = split_on(path, '/');
    assert(forall|i: int| 0 <= i < segments@.len() ==> texts(segments@)[i] == segments@[i]@);
    if !str_eq(segments[0].as_str(), ".") {
        return false;
    }
    let mut i: usize = 1;
    while i < segments.len()
        invariant
            1 <= i <= segments@.len(),
            texts(segments@) == pieces(path@, '/'),
            forall|j: int|
                1 <= j < i ==> (#[trigger] pieces(path@, '/')[j]).len() == 0 || pieces(
                    path@,
                    '/',
                )[j] == "."@,
        decreases segments@.len() - i,
    {
        assert(texts(segments@)[i as int] == segments@[i as int]@);
        if !segments[i].as_str().is_empty() && !str_eq(segments[i].as_str(), ".") {
            return false;
        }
        i += 1;
    }
    true
}

} // verus!
