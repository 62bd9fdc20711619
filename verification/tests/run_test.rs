use rusty_spotted_cat::chunk_outcome::ChunkOutcome;
use rusty_spotted_cat::error::{InnerErrorCode, MeowError};
use rusty_spotted_cat::group_run::{GroupRun, RetryDecision};
use rusty_spotted_cat::pounce_task::PounceTask;
use rusty_spotted_cat::prepare_outcome::PrepareOutcome;

fn http_error() -> MeowError {
    MeowError::from_code_str(InnerErrorCode::HttpError, "connection closed")
}

#[test]
fn default_retry_3_recovers_after_two_chunk_failures() {
    let mut run = GroupRun::start(PrepareOutcome { next_offset: 0, total_size: 4 }, 0, PounceTask::DEFAULT_MAX_CHUNK_RETRIES);
    assert!(matches!(run.on_chunk_failed(http_error()), RetryDecision::Retry));
    assert!(matches!(run.on_chunk_failed(http_error()), RetryDecision::Retry));
    let report = run.on_chunk_done(ChunkOutcome { next_offset: 4, total_size: 4, done: true });
    assert_eq!(report, ChunkOutcome { next_offset: 4, total_size: 4, done: true });
}

#[test]
fn configured_retry_0_fails_on_first_chunk_failure() {
    let mut run = GroupRun::start(PrepareOutcome { next_offset: 0, total_size: 4 }, 0, PounceTask::normalized_max_chunk_retries(0));
    match run.on_chunk_failed(http_error()) {
        RetryDecision::GiveUp(err) => assert_eq!(err.code(), InnerErrorCode::HttpError.as_i32()),
        RetryDecision::Retry => panic!("expected to give up"),
    }
}

#[test]
fn retry_budget_is_per_chunk() {
    let mut run = GroupRun::start(PrepareOutcome { next_offset: 0, total_size: 8 }, 0, 1);
    assert!(matches!(run.on_chunk_failed(http_error()), RetryDecision::Retry));
    run.on_chunk_done(ChunkOutcome { next_offset: 4, total_size: 8, done: false });
    assert!(matches!(run.on_chunk_failed(http_error()), RetryDecision::Retry));
    assert!(matches!(run.on_chunk_failed(http_error()), RetryDecision::GiveUp(_)));
    assert_eq!(run.offset(), 4);
}

#[test]
fn run_adopts_totals_when_known() {
    let run = GroupRun::start(PrepareOutcome { next_offset: 3, total_size: 0 }, 10, 3);
    assert_eq!(run.offset(), 3);
    assert_eq!(run.known_total(), 10);
    let mut run = GroupRun::start(PrepareOutcome { next_offset: 0, total_size: 20 }, 10, 3);
    assert_eq!(run.known_total(), 20);
    let report = run.on_chunk_done(ChunkOutcome { next_offset: 5, total_size: 0, done: false });
    assert_eq!(report, ChunkOutcome { next_offset: 5, total_size: 20, done: false });
    let report = run.on_chunk_done(ChunkOutcome { next_offset: 9, total_size: 30, done: false });
    assert_eq!(report.total_size, 30);
    assert_eq!(run.offset(), 9);
}

#[test]
fn range_protocol_errors_are_not_retried() {
    let mut run = GroupRun::start(PrepareOutcome { next_offset: 4, total_size: 8 }, 0, 3);
    let err = MeowError::from_code_str(InnerErrorCode::InvalidRange, "missing content-range header in 206 response");
    match run.on_chunk_failed(err) {
        RetryDecision::GiveUp(e) => {
            assert_eq!(e.code(), InnerErrorCode::InvalidRange.as_i32());
            assert_eq!(e.msg(), "missing content-range header in 206 response");
        }
        RetryDecision::Retry => panic!("a protocol error must not be retried"),
    }
    let io = MeowError::from_code_str(InnerErrorCode::IoError, "disk full");
    assert!(matches!(run.on_chunk_failed(io), RetryDecision::GiveUp(_)));
}
