//! The places tools are installed from.

pub mod brew;
pub mod curl;
pub mod mise;

use vstd::prelude::*;

verus! {

/// Why installing a tool failed: the message to show.
#[derive(Debug, Clone, PartialEq)]
pub struct SourceError {
    pub message: String,
}

/// A place tools can be installed from.
pub trait Source {
    /// Installs the tool `name`.
    fn install(&self, name: &str) -> Result<(), SourceError>;

    /// Whether the tool `name` is installed.
    fn is_installed(&self, name: &str) -> bool;
}

} // verus!
