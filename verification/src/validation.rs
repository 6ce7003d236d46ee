//! What a directory turned out to be.

use vstd::prelude::*;

verus! {

/// What a directory holds, seen as a Codex data directory.
#[derive(Debug, Clone, Copy, PartialEq, Eq, Structural)]
pub enum CodexHomeValidation {
    /// At least one log with a Codex record.
    Data,
    /// No log with any record.
    Empty,
    /// Logs, but none with a Codex record; or no directory at all.
    Unsupported,
    /// Something in it could not be read.
    Inaccessible,
}

} // verus!
