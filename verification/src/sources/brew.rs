//! Homebrew.

use vstd::prelude::*;

verus! {

/// Tools installed with `brew install`.
pub struct Brew;

} // verus!
