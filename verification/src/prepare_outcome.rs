use vstd::prelude::*;

verus! {

/// What the preparation of a transfer reports: the byte offset to continue from and the
/// total size of the resource, when known.
#[derive(Debug, Clone, Copy, PartialEq, Eq, Structural)]
pub struct PrepareOutcome {
    pub next_offset: u64,
    pub total_size: u64,
}

} // verus!
