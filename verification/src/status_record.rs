use vstd::prelude::*;
use crate::direction::Direction;
use crate::ids::TaskId;
use crate::inner_task::InnerTask;
use crate::transfer_status::{StatusView, TransferStatus};

verus! {

/// A progress report about one task: which task, how many of how many bytes are done, and
/// its status. Listeners receive it with the done fraction computed from the two sizes.
#[derive(Debug, Clone)]
pub struct StatusRecord {
    pub task_id: TaskId,
    pub file_sign: String,
    pub file_name: String,
    pub total_size: u64,
    pub transferred: u64,
    pub status: TransferStatus,
    pub direction: Direction,
}

/// What a progress report says.
pub struct RecordView {
    pub task_id: TaskId,
    pub file_sign: Seq<char>,
    pub file_name: Seq<char>,
    pub total_size: u64,
    pub transferred: u64,
    pub status: StatusView,
    pub direction: Direction,
}

impl View for StatusRecord {
    type V = RecordView;

    open spec fn view(&self) -> RecordView {
        RecordView {
            task_id: self.task_id,
            file_sign: self.file_sign@,
            file_name: self.file_name@,
            total_size: self.total_size,
            transferred: self.transferred,
            status: self.status@,
            direction: self.direction,
        }
    }
}

/// The report about task `t` with the given status and byte counts.
pub open spec fn record_of(t: InnerTask, status: StatusView, transferred: u64, total: u64) -> RecordView {
    RecordView {
        task_id: t.task_id,
        file_sign: t.file_sign@,
        file_name: t.file_name@,
        total_size: total,
        transferred,
        status,
        direction: t.direction,
    }
}

/// Builds the report about task `t` with the given status and byte counts.
pub fn make_record(t: &InnerTask, status: TransferStatus, transferred: u64, total: u64) -> (r: StatusRecord)
    ensures
        r@ == record_of(*t, status@, transferred, total),
{
    StatusRecord {
        task_id: t.task_id,
        file_sign: t.file_sign.clone(),
        file_name: t.file_name.clone(),
        total_size: total,
        transferred,
        status,
        direction: t.direction,
    }
}

} // verus!
