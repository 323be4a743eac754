//! The ways the sync engine's own logic can refuse an input. Failures of
//! reading, writing and rendering belong to the caller that does them.
use vstd::prelude::*;

verus! {

/// Why the sync engine refused an input.
#[derive(Debug, Clone, Copy, PartialEq, Eq, Structural)]
pub enum SyncError {
    /// A root is not a directory, or a path is not below its claimed root.
    InvalidInput,
    /// An entry is neither a file, a directory nor a link.
    Unclassifiable,
}

} // verus!
