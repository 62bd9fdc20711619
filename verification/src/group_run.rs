//! The decisions of one running transfer: where it starts after preparation, what it
//! reports after each chunk, and whether a failed chunk is tried again. The application
//! performs the preparation and chunk requests, watches for cancellation, and hands the
//! outcomes here.
use vstd::prelude::*;
use crate::chunk_outcome::ChunkOutcome;
use crate::error::{code_value, ErrorView, InnerErrorCode, MeowError};
use crate::prepare_outcome::PrepareOutcome;

verus! {

/// The state of one running transfer.
#[derive(Debug, Clone, Copy)]
pub struct GroupRun {
    offset: u64,
    known_total: u64,
    max_chunk_retries: u32,
    failures: u32,
}

/// What one running transfer knows.
pub struct GroupRunView {
    /// Where the next chunk starts.
    pub offset: u64,
    /// The total size, as best known.
    pub known_total: u64,
    /// How many times a failed chunk may be tried again.
    pub max_chunk_retries: u32,
    /// How many times the current chunk has failed.
    pub failures: u32,
}

/// What to do after a chunk failed.
#[derive(Debug)]
pub enum RetryDecision {
    /// Try the same chunk again.
    Retry,
    /// Stop: the task fails with this error.
    GiveUp(MeowError),
}

impl View for GroupRun {
    type V = GroupRunView;

    closed spec fn view(&self) -> GroupRunView {
        GroupRunView {
            offset: self.offset,
            known_total: self.known_total,
            max_chunk_retries: self.max_chunk_retries,
            failures: self.failures,
        }
    }
}

/// Only a failed HTTP exchange is worth trying again.
pub open spec fn is_retryable(e: ErrorView) -> bool {
    e.code == code_value(InnerErrorCode::HttpError)
}

/// The total a report carries: the reported one when positive, else what was known.
pub open spec fn merge_total(reported: u64, known: u64) -> u64 {
    if reported > 0 { reported } else { known }
}

impl GroupRun {
    /// The run never counts more failures of a chunk than it may retry.
    pub closed spec fn wf(&self) -> bool {
        self.failures <= self.max_chunk_retries
    }

    /// The run after preparation: it continues where preparation says, with the prepared
    /// total when positive, else the task's own size.
    pub fn start(prepared: PrepareOutcome, task_total: u64, max_chunk_retries: u32) -> (r: GroupRun)
        ensures
            r.wf(),
            r@.offset == prepared.next_offset,
            r@.known_total == merge_total(prepared.total_size, task_total),
            r@.max_chunk_retries == max_chunk_retries,
            r@.failures == 0,
    {
        let known_total = if prepared.total_size > 0 { prepared.total_size } else { task_total };
        GroupRun { offset: prepared.next_offset, known_total, max_chunk_retries, failures: 0 }
    }

    /// Where the next chunk starts.
    pub fn offset(&self) -> (o: u64)
        ensures
            o == self@.offset,
    {
        self.offset
    }

    /// The total size, as best known.
    pub fn known_total(&self) -> (t: u64)
        ensures
            t == self@.known_total,
    {
        self.known_total
    }

    /// Takes in a chunk that succeeded: the run moves to the chunk's next offset, adopts
    /// its total when positive, and forgets earlier failures. Gives back what to report:
    /// the next offset, the total now known, and whether the transfer is finished.
    pub fn on_chunk_done(&mut self, outcome: ChunkOutcome) -> (report: ChunkOutcome)
        requires
            old(self).wf(),
        ensures
            final(self).wf(),
            final(self)@ == (GroupRunView {
                offset: outcome.next_offset,
                known_total: merge_total(outcome.total_size, old(self)@.known_total),
                failures: 0,
                ..old(self)@
            }),
            report == (ChunkOutcome {
                next_offset: outcome.next_offset,
                total_size: merge_total(outcome.total_size, old(self)@.known_total),
                done: outcome.done,
            }),
    {
        if outcome.total_size > 0 {
            self.known_total = outcome.total_size;
        }
        self.offset = outcome.next_offset;
        self.failures = 0;
        ChunkOutcome { next_offset: outcome.next_offset, total_size: self.known_total, done: outcome.done }
    }

    /// Takes in a chunk that failed. A failure of the HTTP exchange is tried again while
    /// the chunk has failed no more often than the retry budget allows; any other failure
    /// (a response that breaks the range protocol, a local file error) ends the run at once,
    /// as does a retryable one once the budget is spent.
    pub fn on_chunk_failed(&mut self, error: MeowError) -> (d: RetryDecision)
        requires
            old(self).wf(),
        ensures
            final(self).wf(),
            is_retryable(error@) && old(self)@.failures < old(self)@.max_chunk_retries ==> d is Retry
                && final(self)@ == (GroupRunView { failures: (old(self)@.failures + 1) as u32, ..old(self)@ }),
            !(is_retryable(error@) && old(self)@.failures < old(self)@.max_chunk_retries) ==>
                d == RetryDecision::GiveUp(error) && final(self)@ == old(self)@,
    {
        let retryable = error.code() == InnerErrorCode::HttpError.as_i32();
        if retryable && self.failures < self.max_chunk_retries {
            self.failures = self.failures + 1;
            RetryDecision::Retry
        } else {
            RetryDecision::GiveUp(error)
        }
    }
}

} // verus!
