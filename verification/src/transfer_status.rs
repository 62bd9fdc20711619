use vstd::prelude::*;
use crate::error::{ErrorView, MeowError};

verus! {

/// Where a transfer stands, as reported to progress listeners.
#[derive(Clone, Debug)]
pub enum TransferStatus {
    NoStatus,
    /// waiting to upload / download
    Pending,
    /// uploading / downloading
    Transmission,
    /// upload / download paused
    Paused,
    /// upload / download finished
    Complete,
    /// upload / download failed
    Failed(MeowError),
    /// upload / download canceled
    Canceled,
}

/// What a status says, with a failure's error read through its view.
pub enum StatusView {
    NoStatus,
    Pending,
    Transmission,
    Paused,
    Complete,
    Failed(ErrorView),
    Canceled,
}

impl View for TransferStatus {
    type V = StatusView;

    open spec fn view(&self) -> StatusView {
        match self {
            TransferStatus::NoStatus => StatusView::NoStatus,
            TransferStatus::Pending => StatusView::Pending,
            TransferStatus::Transmission => StatusView::Transmission,
            TransferStatus::Paused => StatusView::Paused,
            TransferStatus::Complete => StatusView::Complete,
            TransferStatus::Failed(e) => StatusView::Failed(e@),
            TransferStatus::Canceled => StatusView::Canceled,
        }
    }
}

/// The number each status is reported as.
pub open spec fn status_number(s: TransferStatus) -> int {
    match s {
        TransferStatus::Pending => 0,
        TransferStatus::Transmission => 1,
        TransferStatus::Paused => 2,
        TransferStatus::Complete => 3,
        TransferStatus::Failed(_) => 4,
        TransferStatus::Canceled => 5,
        TransferStatus::NoStatus => -1,
    }
}

/// A status ends the life of its task: complete, failed or canceled.
pub open spec fn is_terminal(s: TransferStatus) -> bool {
    s is Complete || s is Failed || s is Canceled
}

impl TransferStatus {
    pub fn as_i32(&self) -> (r: i32)
        ensures
            r == status_number(*self),
    {
        match self {
            TransferStatus::Pending => 0,
            TransferStatus::Transmission => 1,
            TransferStatus::Paused => 2,
            TransferStatus::Complete => 3,
            TransferStatus::Failed(_) => 4,
            TransferStatus::Canceled => 5,
            TransferStatus::NoStatus => -1,
        }
    }

    /// True for the statuses that end a task: complete, failed, canceled.
    pub fn is_terminal(&self) -> (r: bool)
        ensures
            r == is_terminal(*self),
    {
        match self {
            TransferStatus::Complete | TransferStatus::Failed(_) | TransferStatus::Canceled => true,
            _ => false,
        }
    }
}

impl Default for TransferStatus {
    fn default() -> (s: Self)
        ensures
            s is NoStatus,
    {
        TransferStatus::NoStatus
    }
}

/// Statuses are equal when they are the same variant and, for failures, equal errors.
pub open spec fn status_eq(a: TransferStatus, b: TransferStatus) -> bool {
    match (a, b) {
        (TransferStatus::NoStatus, TransferStatus::NoStatus) => true,
        (TransferStatus::Pending, TransferStatus::Pending) => true,
        (TransferStatus::Transmission, TransferStatus::Transmission) => true,
        (TransferStatus::Paused, TransferStatus::Paused) => true,
        (TransferStatus::Complete, TransferStatus::Complete) => true,
        (TransferStatus::Failed(x), TransferStatus::Failed(y)) =>
            x.spec_code() == y.spec_code() && x.spec_msg() == y.spec_msg(),
        (TransferStatus::Canceled, TransferStatus::Canceled) => true,
        _ => false,
    }
}

impl PartialEq for TransferStatus {
    fn eq(&self, other: &Self) -> (r: bool) {
        match (self, other) {
            (TransferStatus::NoStatus, TransferStatus::NoStatus) => true,
            (TransferStatus::Pending, TransferStatus::Pending) => true,
            (TransferStatus::Transmission, TransferStatus::Transmission) => true,
            (TransferStatus::Paused, TransferStatus::Paused) => true,
            (TransferStatus::Complete, TransferStatus::Complete) => true,
            (TransferStatus::Failed(x), TransferStatus::Failed(y)) => x == y,
            (TransferStatus::Canceled, TransferStatus::Canceled) => true,
            _ => false,
        }
    }
}

impl vstd::std_specs::cmp::PartialEqSpecImpl for TransferStatus {
    open spec fn obeys_eq_spec() -> bool {
        true
    }

    open spec fn eq_spec(&self, other: &TransferStatus) -> bool {
        status_eq(*self, *other)
    }
}

impl Eq for TransferStatus {
}

} // verus!
