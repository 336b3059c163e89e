//! What the operating environment answers: the user's home directory, the programs on
//! `PATH`, the parent of a path.

use vstd::prelude::*;

verus! {

/// The home directory that `dirs::home_dir` reports, as text (a non-UTF-8 path is
/// converted lossily). Which directory it is depends on the environment of the process,
/// so that is not stated; `dirs` never reports an empty one.
#[verifier::external_body]
pub fn home_dir() -> (r: Option<String>)
    ensures
        r matches Some(h) ==> h@.len() > 0,
{
    dirs::home_dir().map(|p| p.to_string_lossy().into_owned())
}

/// The path at which `which::which` finds the program `name`, or `None` where it finds
/// none. It depends on `PATH` and on what is on disk, so nothing is stated of it.
#[verifier::external_body]
pub fn which(name: &str) -> (r: Option<String>) {
    which::which(name).ok().map(|p| p.to_string_lossy().into_owned())
}

/// `home` is an answer that a call of `home_dir` gave (as text). Nothing fixes which
/// answer a call gives; this only holds of answers that calls gave.
pub open spec fn home_dir_gave(home: Option<Seq<char>>) -> bool {
    exists|r: Option<String>|
        #[trigger] call_ensures(home_dir, (), r) && home == match r {
            Some(h) => Some(h@),
            None => None,
        }
}

/// `found` is an answer that a call of `which` gave for the program `name` (as text).
pub open spec fn which_gave(name: Seq<char>, found: Option<Seq<char>>) -> bool {
    exists|s: &str, r: Option<String>|
        #[trigger] call_ensures(which, (s,), r) && s@ == name && found == match r {
            Some(p) => Some(p@),
            None => None,
        }
}

/// A call of `which` for the program `name` answered whether it found it with `found`.
pub open spec fn which_found(name: Seq<char>, found: bool) -> bool {
    exists|s: &str, r: Option<String>|
        #[trigger] call_ensures(which, (s,), r) && s@ == name && found == r is Some
}

/// What `std::path::Path::parent` gives for a path: the path without its final
/// component, or `None` for a root, a prefix or the empty path.
pub uninterp spec fn path_parent(p: Seq<char>) -> Option<Seq<char>>;

/// `std::path::Path::parent` applied to `p`. Its result is `path_parent` of `p`; that an
/// empty path has no parent is the one fact the documentation gives that is stated here.
#[verifier::external_body]
pub fn parent(p: &str) -> (r: Option<String>)
    ensures
        r matches Some(q) ==> path_parent(p@) == Some(q@),
        r is None ==> path_parent(p@) is None,
        p@.len() == 0 ==> r is None,
{
    std::path::Path::new(p).parent().map(|q| q.to_string_lossy().into_owned())
}

} // verus!
