//! File paths, held as text; their components come from `std::path::Path`.
use vstd::prelude::*;

verus! {

/// `std::path::Path::file_name` of a path, converted lossily to text.
pub uninterp spec fn path_file_name(path: Seq<char>) -> Option<Seq<char>>;

/// `std::path::Path::parent` of a path, converted lossily to text.
pub uninterp spec fn path_parent(path: Seq<char>) -> Option<Seq<char>>;

/// `std::path::Path::starts_with`: whether `base` is a prefix of `path`,
/// whole components compared.
pub uninterp spec fn path_starts_with(path: Seq<char>, base: Seq<char>) -> bool;

/// `==` on `std::path::Path`: whether two paths have the same components.
pub uninterp spec fn path_equals(a: Seq<char>, b: Seq<char>) -> bool;

/// `std::path::Path::file_stem` of a path, converted lossily to text.
pub uninterp spec fn path_file_stem(path: Seq<char>) -> Option<Seq<char>>;

/// `std::path::Path::extension` of a path, as text.
pub uninterp spec fn path_extension(path: Seq<char>) -> Option<Seq<char>>;

/// `std::path::Path::join`: `name` appended to `base` as a new component
/// (an absolute `name` replaces `base`), converted lossily to text.
pub uninterp spec fn path_join(base: Seq<char>, name: Seq<char>) -> Seq<char>;

/// `std::path::Path::strip_prefix`: the rest of `path` after the whole
/// components of `base`, or `None` when `base` does not start `path`.
pub uninterp spec fn path_strip_prefix(path: Seq<char>, base: Seq<char>) -> Option<Seq<char>>;

/// `std::path::Path::file_name` (lossily converted to a `String`): the final
/// component of `path`, or `None` when the path ends in `..` or is a root or
/// empty. The result is named by `path_file_name`.
#[verifier::external_body]
pub(crate) fn file_name_of(path: &str) -> (r: Option<String>)
    ensures
        r matches Some(n) ==> path_file_name(path@) == Some(n@),
        r is None ==> path_file_name(path@) is None,
{
    std::path::Path::new(path).file_name().map(|s| s.to_string_lossy().to_string())
}

/// `std::path::Path::parent` (lossily converted to a `String`): the path
/// without its final component, or `None` for a root or empty path. The
/// result is named by `path_parent`.
#[verifier::external_body]
pub(crate) fn parent_of(path: &str) -> (r: Option<String>)
    ensures
        r matches Some(n) ==> path_parent(path@) == Some(n@),
        r is None ==> path_parent(path@) is None,
{
    std::path::Path::new(path).parent().map(|p| p.to_string_lossy().to_string())
}

/// `std::path::Path::starts_with`: whether `base` is a prefix of `path`,
/// comparing whole components. The result is named by `path_starts_with`.
#[verifier::external_body]
pub(crate) fn starts_with_path(path: &str, base: &str) -> (r: bool)
    ensures
        r == path_starts_with(path@, base@),
{
    std::path::Path::new(path).starts_with(base)
}


/// `==` on `std::path::Path`: paths are equal when their components are
/// (`a/b`, `a//b` and `a/b/` are one path), so the same text is always the
/// same path. The result is named by `path_equals`.
#[verifier::external_body]
pub(crate) fn same_path(a: &str, b: &str) -> (r: bool)
    ensures
        r == path_equals(a@, b@),
        a@ == b@ ==> r,
{
    std::path::Path::new(a) == std::path::Path::new(b)
}


/// `std::path::Path::file_stem` (lossily converted to a `String`): the file
/// name without its extension, or `None` when there is no file name. The
/// result is named by `path_file_stem`.
#[verifier::external_body]
pub(crate) fn file_stem_of(path: &str) -> (r: Option<String>)
    ensures
        r matches Some(n) ==> path_file_stem(path@) == Some(n@),
        r is None ==> path_file_stem(path@) is None,
{
    std::path::Path::new(path).file_stem().map(|s| s.to_string_lossy().to_string())
}


/// `std::path::Path::extension`: the text after the last dot of the file
/// name, or `None` when there is none. The result is named by
/// `path_extension`.
#[verifier::external_body]
pub(crate) fn extension_of(path: &str) -> (r: Option<String>)
    ensures
        r matches Some(n) ==> path_extension(path@) == Some(n@),
        r is None ==> path_extension(path@) is None,
{
    std::path::Path::new(path).extension().map(|s| s.to_string_lossy().to_string())
}

/// `std::path::Path::join` (lossily converted to a `String`): `name`
/// appended to `base` as a new component. The result is named by
/// `path_join`.
#[verifier::external_body]
pub(crate) fn join_path(base: &str, name: &str) -> (r: String)
    ensures
        r@ == path_join(base@, name@),
{
    std::path::Path::new(base).join(name).to_string_lossy().to_string()
}

/// `std::path::Path::strip_prefix` (lossily converted to a `String`): the
/// rest of `path` after `base`, or `None` when `base` is not a prefix of
/// `path` by whole components. The result is named by `path_strip_prefix`.
#[verifier::external_body]
pub(crate) fn strip_path_prefix(path: &str, base: &str) -> (r: Option<String>)
    ensures
        r matches Some(n) ==> path_strip_prefix(path@, base@) == Some(n@),
        r is None ==> path_strip_prefix(path@, base@) is None,
{
    std::path::Path::new(path).strip_prefix(base).ok().map(|p| p.to_string_lossy().to_string())
}

} // verus!
