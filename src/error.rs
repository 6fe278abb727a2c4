//! What can go wrong while reading an image.

use vstd::prelude::*;

verus! {

/// Why a read from an image failed.
#[derive(Debug, Clone, Copy, PartialEq, Eq, Structural)]
pub enum ReadError {
    /// The image ends before a structure or region that it should hold.
    TruncatedRead,
    /// No root directory entry carries the requested name.
    EntryNotFound,
    /// A chain names cluster 0 or 1, or a cluster past the end of the table.
    BadCluster,
    /// A chain visits more clusters than the table has entries, so it loops.
    CyclicChain,
}

} // verus!
