use vstd::prelude::*;

verus! {

/// What one chunk transfer reports: where the next chunk starts, the total size known,
/// and whether the transfer is finished.
#[derive(Debug, Clone, Copy, PartialEq, Eq, Structural)]
pub struct ChunkOutcome {
    pub next_offset: u64,
    pub total_size: u64,
    pub done: bool,
}

} // verus!
