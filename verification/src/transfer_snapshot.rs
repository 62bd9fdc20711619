use vstd::prelude::*;
use crate::direction::Direction;

verus! {

/// A view of the scheduler: how many task groups wait in the queue, how many run, and the
/// deduplication keys of those that run.
#[derive(Debug, Clone)]
pub struct TransferSnapshot {
    pub queued_groups: usize,
    pub active_groups: usize,
    pub active_keys: Vec<(Direction, String)>,
}

} // verus!
