//! Install scripts fetched with curl and run with `sh`.

use vstd::prelude::*;
use crate::system;

verus! {

/// Tools installed by a `curl | sh` install script.
pub struct Curl;

impl Curl {
    /// Whether the program `binary` is found on `PATH`: the answer of a `which` lookup of
    /// `binary`. What is on disk decides that answer.
    pub fn is_installed(binary: &str) -> (b: bool)
        ensures
            system::which_found(binary@, b),
    {
        let r = system::which(binary);
        proof {
            assert(call_ensures(system::which, (binary,), r));
        }
        r.is_some()
    }
}

} // verus!
