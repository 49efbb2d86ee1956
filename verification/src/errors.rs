//! Error taxonomy of the bootstrap sequence.

use vstd::prelude::*;

verus! {

/// A bootstrap failure.  Every variant but `ConfigParse` is fatal;
/// a parse failure may be recovered by resetting the document to its
/// default contents.
#[derive(PartialEq, Eq, Structural, Clone, Copy, Debug)]
pub enum BootError {
    /// A directory or file could not be created or is not writable.
    Filesystem,
    /// The persisted configuration document is present but malformed.
    ConfigParse,
    /// The configuration document could not be saved or reset.
    ConfigWrite,
    /// No free port could be found within the search bound.
    PortExhaustion,
    /// The server binary is missing or the process could not be created.
    ProcessSpawn,
    /// The native webview runtime is missing and cannot be installed.
    WebviewUnavailable,
}

impl BootError {
    /// A short label for a user-facing diagnostic.
    pub fn label(&self) -> (r: &'static str)
        ensures
            *self == BootError::Filesystem ==> r@ == "filesystem not writable"@,
            *self == BootError::ConfigParse ==> r@ == "malformed configuration document"@,
            *self == BootError::ConfigWrite ==> r@ == "failed to write configuration document"@,
            *self == BootError::PortExhaustion ==> r@ == "no free port found"@,
            *self == BootError::ProcessSpawn ==> r@ == "failed to spawn server process"@,
            *self == BootError::WebviewUnavailable ==> r@ == "webview runtime unavailable"@,
    {
        match self {
            BootError::Filesystem => "filesystem not writable",
            BootError::ConfigParse => "malformed configuration document",
            BootError::ConfigWrite => "failed to write configuration document",
            BootError::PortExhaustion => "no free port found",
            BootError::ProcessSpawn => "failed to spawn server process",
            BootError::WebviewUnavailable => "webview runtime unavailable",
        }
    }
}

} // verus!
