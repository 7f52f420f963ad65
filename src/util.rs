//! Small helpers on paths.
use vstd::prelude::*;

verus! {

/// The final component of the path `path`, when it has one that is valid
/// UTF-8. It depends on the text of the path alone.
pub uninterp spec fn file_name_of(path: Seq<char>) -> Option<Seq<char>>;

/// Relies on `std::path::Path::file_name` and `OsStr::to_str`: the last
/// component of the path, if any, as text.
#[verifier::external_body]
fn file_name(path: &str) -> (r: Option<String>)
    ensures
        match r {
            Some(n) => file_name_of(path@) == Some(n@),
            None => file_name_of(path@) is None,
        },
{
    match std::path::Path::new(path).file_name() {
        Some(n) => match n.to_str() {
            Some(t) => Some(t.to_string()),
            None => None,
        },
        None => None,
    }
}

/// The file name of `path`, or `None` when it has none (or not as text).
pub fn path_name(path: &str) -> (r: Option<String>)
    ensures
        match r {
            Some(n) => file_name_of(path@) == Some(n@),
            None => file_name_of(path@) is None,
        },
{
    file_name(path)
}

/// The file name of `path`.
pub fn path_name_to_string(path: &str) -> (r: String)
    requires
        file_name_of(path@) is Some,
    ensures
        file_name_of(path@) == Some(r@),
{
    match file_name(path) {
        Some(n) => n,
        None => String::new(),
    }
}

} // verus!
