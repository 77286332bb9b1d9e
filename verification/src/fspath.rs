//! Calls into `std::path`, whose component rules depend on the platform.
//! Each function makes one call on `std::path::Path`; what it returns is
//! named by a spec function of the path text.
use vstd::prelude::*;

verus! {

/// `Path::file_name` of the path, as text.
pub uninterp spec fn file_name_result(path: Seq<char>) -> Option<Seq<char>>;

/// `Path::parent` of the path, as text.
pub uninterp spec fn parent_result(path: Seq<char>) -> Option<Seq<char>>;

/// `Path::join` of the two paths, as text.
pub uninterp spec fn join_result(base: Seq<char>, tail: Seq<char>) -> Seq<char>;

/// `Path::strip_prefix` of the path by the base, as text.
pub uninterp spec fn strip_prefix_result(path: Seq<char>, base: Seq<char>) -> Option<Seq<char>>;

/// The text of the first item of `Path::components`.
pub uninterp spec fn first_component_result(path: Seq<char>) -> Option<Seq<char>>;

/// `Path::starts_with` (whole components only).
pub uninterp spec fn starts_with_result(path: Seq<char>, base: Seq<char>) -> bool;

/// `Path::eq` (component-wise equality).
pub uninterp spec fn path_eq_result(left: Seq<char>, right: Seq<char>) -> bool;

/// The text of each item of `Path::components`, in order.
pub uninterp spec fn components_result(path: Seq<char>) -> Seq<Seq<char>>;

/// `Path::is_absolute`.
pub uninterp spec fn is_absolute_result(path: Seq<char>) -> bool;

/// `std::path::Path::file_name`. Claims that the result is `file_name_result`
/// of the path.
#[verifier::external_body]
pub(crate) fn path_file_name(path: &str) -> (r: Option<String>)
    ensures
        r.deep_view() == file_name_result(path@),
{
    std::path::Path::new(path).file_name().map(|name| name.to_string_lossy().to_string())
}

/// `std::path::Path::parent`. Claims that the result is `parent_result` of
/// the path.
#[verifier::external_body]
pub(crate) fn path_parent(path: &str) -> (r: Option<String>)
    ensures
        r.deep_view() == parent_result(path@),
{
    std::path::Path::new(path).parent().map(|parent| parent.to_string_lossy().to_string())
}

/// `std::path::Path::join`. Claims that the result is `join_result` of the
/// two paths.
#[verifier::external_body]
pub(crate) fn path_join(base: &str, tail: &str) -> (r: String)
    ensures
        r@ == join_result(base@, tail@),
{
    std::path::Path::new(base).join(tail).to_string_lossy().to_string()
}

/// `std::path::Path::strip_prefix`. Claims that the result is
/// `strip_prefix_result` of the path and the base, and, as its documentation
/// says, that it succeeds exactly when `Path::starts_with` holds.
#[verifier::external_body]
pub(crate) fn path_strip_prefix(path: &str, base: &str) -> (r: Option<String>)
    ensures
        r.deep_view() == strip_prefix_result(path@, base@),
        r is Some <==> starts_with_result(path@, base@),
{
    std::path::Path::new(path).strip_prefix(base).ok().map(|rest| rest.to_string_lossy().to_string())
}

/// `std::path::Path::components`, first item. Claims that the result is
/// `first_component_result` of the path.
#[verifier::external_body]
pub(crate) fn path_first_component(path: &str) -> (r: Option<String>)
    ensures
        r.deep_view() == first_component_result(path@),
{
    std::path::Path::new(path).components().next().and_then(|part| part.as_os_str().to_str()).map(|part| part.to_string())
}

/// `std::path::Path::starts_with`. Claims that the result is
/// `starts_with_result` of the path and the base.
#[verifier::external_body]
pub(crate) fn path_starts_with(path: &str, base: &str) -> (r: bool)
    ensures
        r == starts_with_result(path@, base@),
{
    std::path::Path::new(path).starts_with(base)
}

/// `<std::path::Path as PartialEq>::eq`. Claims that the result is
/// `path_eq_result` of the two paths, and that equal texts give equal paths.
#[verifier::external_body]
pub(crate) fn path_eq(left: &str, right: &str) -> (r: bool)
    ensures
        r == path_eq_result(left@, right@),
        left@ == right@ ==> r,
{
    std::path::Path::new(left) == std::path::Path::new(right)
}

/// `std::path::Path::is_absolute`. Claims that the result is
/// `is_absolute_result` of the path.
#[verifier::external_body]
pub(crate) fn path_is_absolute(path: &str) -> (r: bool)
    ensures
        r == is_absolute_result(path@),
{
    std::path::Path::new(path).is_absolute()
}

/// `std::path::Path::components`. Claims that the result is
/// `components_result` of the path: the text of each component, in order.
#[verifier::external_body]
pub(crate) fn path_components(path: &str) -> (r: Vec<String>)
    ensures
        r.deep_view() == components_result(path@),
{
    std::path::Path::new(path).components().map(|part| part.as_os_str().to_string_lossy().to_string()).collect()
}

} // verus!
