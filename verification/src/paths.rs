use vstd::prelude::*;

verus! {

/// What `std::path::Path::file_name` returns for a path, read with the path
/// syntax of the platform the crate is built for: the final component, if the
/// path has one that is not `..`.
pub uninterp spec fn path_file_name(path: Seq<char>) -> Option<Seq<char>>;

/// What `std::path::Path::parent` returns for a path, read with the path
/// syntax of the platform the crate is built for: the path without its final
/// component, or nothing when the path is a root or empty.
pub uninterp spec fn path_parent(path: Seq<char>) -> Option<Seq<char>>;

/// Calls `std::path::Path::file_name` on `path`. Claimed: the result is
/// `path_file_name(path@)`, converted to a `String` (the component of a `&str`
/// is valid UTF-8, so the conversion loses nothing).
#[verifier::external_body]
pub(crate) fn file_name_of(path: &str) -> (name: Option<String>)
    ensures
        name.deep_view() == path_file_name(path@),
{
    match std::path::Path::new(path).file_name() {
        Some(n) => Some(n.to_string_lossy().into_owned()),
        None => None,
    }
}

/// Calls `std::path::Path::parent` on `path`. Claimed: the result is
/// `path_parent(path@)`, converted to a `String` (a prefix of a `&str` that
/// ends at a component boundary is valid UTF-8, so nothing is lost).
#[verifier::external_body]
pub(crate) fn parent_of(path: &str) -> (parent: Option<String>)
    ensures
        parent.deep_view() == path_parent(path@),
{
    match std::path::Path::new(path).parent() {
        Some(p) => Some(p.to_string_lossy().into_owned()),
        None => None,
    }
}

/// What `std::path::Path` compares when it compares two paths: the path's
/// components, as `Path::components` yields them (repeated separators and
/// inner `.` components dropped, a trailing separator ignored), collected
/// back into a path. Two paths are equal as `Path` values exactly when these
/// agree.
pub uninterp spec fn path_identity(path: Seq<char>) -> Seq<char>;

/// Calls `std::path::Path::components` on `path` and collects the components
/// back into a `PathBuf`. Claimed: that path, as a `String`, is
/// `path_identity(path@)` (every component of a `&str` is valid UTF-8, and so
/// is the separator put between them, so the conversion loses nothing).
#[verifier::external_body]
pub(crate) fn identity_of(path: &str) -> (identity: String)
    ensures
        identity@ == path_identity(path@),
{
    std::path::Path::new(path).components().collect::<std::path::PathBuf>().to_string_lossy().into_owned()
}

/// What `std::path::Path::join` gives for a directory and a name, read with
/// the path syntax of the platform the crate is built for: the name appended
/// after a separator (or the name alone, when it is an absolute path).
pub uninterp spec fn path_join(dir: Seq<char>, name: Seq<char>) -> Seq<char>;

/// Calls `std::path::Path::join` on `dir` and `name`. Claimed: the result, as
/// a `String`, is `path_join(dir@, name@)` (joining two `&str`s gives valid
/// UTF-8, so the conversion loses nothing).
#[verifier::external_body]
pub(crate) fn joined(dir: &str, name: &str) -> (path: String)
    ensures
        path@ == path_join(dir@, name@),
{
    std::path::Path::new(dir).join(name).to_string_lossy().into_owned()
}

} // verus!
