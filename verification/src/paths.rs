use vstd::prelude::*;

verus! {

/// What `Path::file_name` gives for the path `path`: its last component, or
/// nothing when the path ends in `..` or is a root or empty.
pub uninterp spec fn path_file_name(path: Seq<char>) -> Option<Seq<char>>;

/// Calls `std::path::Path::file_name`. The contract names the answer; the
/// rules by which the standard library splits a path into components are
/// left to it.
#[verifier::external_body]
pub(crate) fn file_name(path: &str) -> (name: Option<String>)
    ensures
        name matches Some(n) ==> path_file_name(path@) == Some(n@),
        name is None ==> path_file_name(path@) is None,
{
    match std::path::Path::new(path).file_name() {
        Some(n) => Some(n.to_string_lossy().into_owned()),
        None => None,
    }
}

/// Whether `Path` equality holds between `a` and `b`: both have the same
/// components (so `a/b` and `a//b` name the same path).
pub uninterp spec fn path_eq(a: Seq<char>, b: Seq<char>) -> bool;

/// Calls `<Path as PartialEq>::eq`. The contract names the answer, and
/// states that a path equals itself (`Path` is `Eq`).
#[verifier::external_body]
pub(crate) fn same_path(a: &str, b: &str) -> (r: bool)
    ensures
        r == path_eq(a@, b@),
        a@ == b@ ==> r,
{
    std::path::Path::new(a) == std::path::Path::new(b)
}

/// What `Path::parent` gives for `path`: the path without its last
/// component, or nothing for a root or an empty path.
pub uninterp spec fn path_parent(path: Seq<char>) -> Option<Seq<char>>;

/// Calls `std::path::Path::parent`. The contract names the answer.
#[verifier::external_body]
pub(crate) fn parent(path: &str) -> (p: Option<String>)
    ensures
        p matches Some(q) ==> path_parent(path@) == Some(q@),
        p is None ==> path_parent(path@) is None,
{
    match std::path::Path::new(path).parent() {
        Some(q) => Some(q.to_string_lossy().into_owned()),
        None => None,
    }
}

/// What `Path::join` gives for `base` and `part`: `part` appended to `base`
/// with a separator, or `part` alone when it is absolute.
pub uninterp spec fn path_join(base: Seq<char>, part: Seq<char>) -> Seq<char>;

/// Calls `std::path::Path::join`. The contract names the answer.
#[verifier::external_body]
pub(crate) fn join(base: &str, part: &str) -> (r: String)
    ensures
        r@ == path_join(base@, part@),
{
    std::path::Path::new(base).join(part).to_string_lossy().into_owned()
}

/// What `Path::with_file_name` gives for `path` and `name`: `path` with its
/// last component replaced by `name`.
pub uninterp spec fn path_with_file_name(path: Seq<char>, name: Seq<char>) -> Seq<char>;

/// Calls `std::path::Path::with_file_name`. The contract names the answer.
#[verifier::external_body]
pub(crate) fn with_file_name(path: &str, name: &str) -> (r: String)
    ensures
        r@ == path_with_file_name(path@, name@),
{
    std::path::Path::new(path).with_file_name(name).to_string_lossy().into_owned()
}

/// Position of the last `.` in `name`.
pub open spec fn last_dot(name: Seq<char>) -> Option<int>
    decreases name.len(),
{
    if name.len() == 0 {
        None
    } else if name.last() == '.' {
        Some(name.len() - 1)
    } else {
        last_dot(name.drop_last())
    }
}

/// The extension of a file name as `Path::extension` documents it: the part
/// after the final `.`; none when there is no `.`, or when the only `.` is
/// the first character.
pub open spec fn name_extension(name: Seq<char>) -> Option<Seq<char>> {
    match last_dot(name) {
        Some(k) => if k == 0 {
            None
        } else {
            Some(name.skip(k + 1))
        },
        None => None,
    }
}

/// The extension of `path`: that of its file name, none without a file name.
pub open spec fn path_extension(path: Seq<char>) -> Option<Seq<char>> {
    match path_file_name(path) {
        Some(n) => name_extension(n),
        None => None,
    }
}

/// Calls `std::path::Path::extension`. The contract states what its
/// documentation says, in terms of the file name that `Path::file_name` gives.
#[verifier::external_body]
pub(crate) fn extension(path: &str) -> (e: Option<String>)
    ensures
        e matches Some(x) ==> path_extension(path@) == Some(x@),
        e is None ==> path_extension(path@) is None,
{
    match std::path::Path::new(path).extension() {
        Some(x) => Some(x.to_string_lossy().into_owned()),
        None => None,
    }
}

} // verus!
