use rusty_spotted_cat::direction::Direction;
use rusty_spotted_cat::error::{InnerErrorCode, MeowError};
use rusty_spotted_cat::ids::TaskId;
use rusty_spotted_cat::inner_task::{InnerTask, TaskKey};
use rusty_spotted_cat::scheduler_state::{
    CommandReply, SchedulerAction, SchedulerCommand, SchedulerState, WorkerEvent,
};
use rusty_spotted_cat::transfer_status::TransferStatus;

fn download(id: u128, url: &str, total: u64) -> InnerTask {
    InnerTask {
        task_id: TaskId::from_u128(id),
        file_sign: String::new(),
        file_name: "f.bin".to_string(),
        direction: Direction::Download,
        total_size: total,
        chunk_size: 4,
        url: url.to_string(),
        max_chunk_retries: 3,
    }
}

fn upload(id: u128, sign: &str, total: u64) -> InnerTask {
    InnerTask {
        task_id: TaskId::from_u128(id),
        file_sign: sign.to_string(),
        file_name: "u.bin".to_string(),
        direction: Direction::Upload,
        total_size: total,
        chunk_size: 4,
        url: "http://host/upload".to_string(),
        max_chunk_retries: 3,
    }
}

fn key(d: Direction, id: &str) -> TaskKey {
    TaskKey::new(d, id.to_string())
}

fn statuses(actions: &[SchedulerAction]) -> Vec<(u128, TransferStatus, u64, u64)> {
    actions
        .iter()
        .filter_map(|a| match a {
            SchedulerAction::Notify { listener, record } => {
                Some((listener.as_u128(), record.status.clone(), record.transferred, record.total_size))
            }
            _ => None,
        })
        .collect()
}

fn starts(actions: &[SchedulerAction]) -> Vec<(String, u64)> {
    actions
        .iter()
        .filter_map(|a| match a {
            SchedulerAction::StartRun { key, start_offset, .. } => Some((key.id.clone(), *start_offset)),
            _ => None,
        })
        .collect()
}

fn control(reply: CommandReply) -> Result<(), MeowError> {
    match reply {
        CommandReply::Control(r) => r,
        other => panic!("unexpected reply {other:?}"),
    }
}

#[test]
fn enqueue_announces_pending_then_starts() {
    let mut s = SchedulerState::new(1, 1);
    let mut out = Vec::new();
    s.enqueue(download(1, "http://a", 8), &mut out);
    assert_eq!(
        statuses(&out),
        vec![(1, TransferStatus::Pending, 0, 8), (1, TransferStatus::Transmission, 0, 8)]
    );
    assert_eq!(starts(&out), vec![("http://a".to_string(), 0)]);
    let snap = s.snapshot();
    assert_eq!(snap.queued_groups, 0);
    assert_eq!(snap.active_groups, 1);
    assert_eq!(snap.active_keys, vec![(Direction::Download, "http://a".to_string())]);
}

#[test]
fn concurrency_limit_holds_per_direction() {
    let mut s = SchedulerState::new(1, 2);
    let mut out = Vec::new();
    s.enqueue(download(1, "http://a", 8), &mut out);
    s.enqueue(download(2, "http://b", 8), &mut out);
    s.enqueue(download(3, "http://c", 8), &mut out);
    s.enqueue(upload(4, "sign-x", 8), &mut out);
    s.enqueue(upload(5, "sign-y", 8), &mut out);
    let started: Vec<String> = starts(&out).into_iter().map(|x| x.0).collect();
    assert_eq!(started, vec!["http://a", "http://b", "sign-x"]);
    let snap = s.snapshot();
    assert_eq!(snap.active_groups, 3);
    assert_eq!(snap.queued_groups, 2);
    // finishing a download frees a download slot for the waiting one, not for the upload
    let mut out = Vec::new();
    s.on_worker_event(WorkerEvent::Completed { key: key(Direction::Download, "http://a"), total_size: 8 }, &mut out);
    assert_eq!(starts(&out), vec![("http://c".to_string(), 0)]);
    assert_eq!(s.snapshot().queued_groups, 1);
}

#[test]
fn duplicate_is_refused_and_reported_to_new_task() {
    let mut s = SchedulerState::new(1, 1);
    let mut out = Vec::new();
    s.enqueue(download(1, "http://a", 8), &mut out);
    let mut out = Vec::new();
    s.enqueue(download(2, "http://a", 99), &mut out);
    assert_eq!(out.len(), 2);
    match &out[0] {
        SchedulerAction::Notify { listener, record } => {
            assert_eq!(listener.as_u128(), 2);
            assert_eq!(record.task_id.as_u128(), 1);
            assert_eq!(record.total_size, 8);
            match &record.status {
                TransferStatus::Failed(e) => assert_eq!(e.code(), InnerErrorCode::DuplicateTaskError.as_i32()),
                other => panic!("unexpected {other:?}"),
            }
        }
        other => panic!("unexpected {other:?}"),
    }
    assert!(matches!(&out[1], SchedulerAction::Release { task_id } if task_id.as_u128() == 2));
    // uploads are deduplicated by sign, not by URL
    let mut out = Vec::new();
    s.enqueue(upload(3, "s1", 8), &mut out);
    s.enqueue(upload(4, "s2", 8), &mut out);
    assert_eq!(s.snapshot().active_groups, 2);
    assert_eq!(s.snapshot().queued_groups, 1);
}

#[test]
fn cancel_unknown_task_returns_task_not_found() {
    let mut s = SchedulerState::new(1, 1);
    let mut out = Vec::new();
    let id = TaskId::from_u128(0x67e5504410b1426f9247bb680e5fe0c8);
    s.enqueue(download(id.as_u128(), "http://127.0.0.1:9/not-used", 0), &mut out);
    assert!(control(s.handle_command(SchedulerCommand::Cancel(id), &mut out)).is_ok());
    let err = control(s.handle_command(SchedulerCommand::Cancel(id), &mut out)).unwrap_err();
    assert_eq!(err.code(), InnerErrorCode::TaskNotFound.as_i32());
    assert_eq!(err.msg(), "task not found: 67e55044-10b1-426f-9247-bb680e5fe0c8");
    assert!(matches!(s.handle_command(SchedulerCommand::Close, &mut out), CommandReply::Closed));
}

#[test]
fn pause_unknown_task_returns_task_not_found() {
    let mut s = SchedulerState::new(1, 1);
    let mut out = Vec::new();
    let id = TaskId::from_u128(7);
    s.enqueue(download(7, "http://127.0.0.1:9/not-used", 0), &mut out);
    assert!(s.cancel(id, &mut out).is_ok());
    let err = s.pause(id, &mut out).unwrap_err();
    assert_eq!(err.code(), InnerErrorCode::TaskNotFound.as_i32());
}

#[test]
fn resume_unknown_task_returns_task_not_found() {
    let mut s = SchedulerState::new(1, 1);
    let mut out = Vec::new();
    let id = TaskId::from_u128(8);
    s.enqueue(download(8, "http://127.0.0.1:9/not-used", 0), &mut out);
    assert!(s.cancel(id, &mut out).is_ok());
    let err = s.resume(id, &mut out).unwrap_err();
    assert_eq!(err.code(), InnerErrorCode::TaskNotFound.as_i32());
}

#[test]
fn cancel_running_task_stops_and_reports() {
    let mut s = SchedulerState::new(1, 1);
    let mut out = Vec::new();
    s.enqueue(download(1, "http://a", 8), &mut out);
    let mut out = Vec::new();
    s.on_worker_event(WorkerEvent::Progress { key: key(Direction::Download, "http://a"), next_offset: 4, total_size: 8 }, &mut out);
    assert_eq!(statuses(&out), vec![(1, TransferStatus::Transmission, 4, 8)]);
    let mut out = Vec::new();
    assert!(s.cancel(TaskId::from_u128(1), &mut out).is_ok());
    assert!(matches!(&out[0], SchedulerAction::CancelRun { key } if key.id == "http://a"));
    assert!(matches!(&out[1], SchedulerAction::ForgetRun { key } if key.id == "http://a"));
    assert_eq!(statuses(&out), vec![(1, TransferStatus::Canceled, 4, 8)]);
    assert!(matches!(&out[3], SchedulerAction::Release { task_id } if task_id.as_u128() == 1));
    assert_eq!(s.snapshot().active_groups, 0);
}

#[test]
fn pause_then_resume_keeps_same_task_id_and_finishes() {
    let mut s = SchedulerState::new(1, 1);
    let k = key(Direction::Download, "http://r");
    let id = TaskId::from_u128(42);
    let mut out = Vec::new();
    s.enqueue(download(42, "http://r", 12), &mut out);
    s.on_worker_event(WorkerEvent::Progress { key: k.copy(), next_offset: 4, total_size: 12 }, &mut out);
    let mut out = Vec::new();
    assert!(s.pause(id, &mut out).is_ok());
    assert!(matches!(&out[0], SchedulerAction::CancelRun { .. }));
    assert_eq!(statuses(&out), vec![(42, TransferStatus::Paused, 4, 12)]);
    // the run has not stopped yet: resuming is refused for now
    let err = s.resume(id, &mut out).unwrap_err();
    assert_eq!(err.code(), InnerErrorCode::InvalidTaskState.as_i32());
    assert_eq!(err.msg(), "resume target is still stopping, retry later");
    // the run reports that it stopped; the group stays
    let mut out = Vec::new();
    s.on_worker_event(WorkerEvent::Canceled { key: k.copy() }, &mut out);
    assert!(statuses(&out).is_empty());
    // now resume succeeds with the same id and continues at the offset reached
    let mut out = Vec::new();
    assert!(s.resume(id, &mut out).is_ok());
    assert_eq!(
        statuses(&out),
        vec![(42, TransferStatus::Pending, 4, 12), (42, TransferStatus::Transmission, 4, 12)]
    );
    assert_eq!(starts(&out), vec![("http://r".to_string(), 4)]);
    let mut out = Vec::new();
    s.on_worker_event(WorkerEvent::Completed { key: k.copy(), total_size: 12 }, &mut out);
    assert_eq!(statuses(&out), vec![(42, TransferStatus::Complete, 12, 12)]);
    assert_eq!(s.resume(id, &mut out).unwrap_err().code(), InnerErrorCode::TaskNotFound.as_i32());
}

#[test]
fn resume_of_task_that_is_not_paused_is_refused() {
    let mut s = SchedulerState::new(1, 1);
    let mut out = Vec::new();
    s.enqueue(download(1, "http://a", 8), &mut out);
    let err = s.resume(TaskId::from_u128(1), &mut out).unwrap_err();
    assert_eq!(err.code(), InnerErrorCode::InvalidTaskState.as_i32());
    assert_eq!(err.msg(), "resume target is not paused");
}

#[test]
fn pausing_a_waiting_task_takes_it_out_of_line() {
    let mut s = SchedulerState::new(1, 1);
    let mut out = Vec::new();
    s.enqueue(download(1, "http://a", 8), &mut out);
    s.enqueue(download(2, "http://b", 8), &mut out);
    assert_eq!(s.snapshot().queued_groups, 1);
    let mut out = Vec::new();
    assert!(s.pause(TaskId::from_u128(2), &mut out).is_ok());
    assert_eq!(statuses(&out), vec![(2, TransferStatus::Paused, 0, 8)]);
    assert_eq!(s.snapshot().queued_groups, 0);
    // when the slot frees, the paused task does not start
    let mut out = Vec::new();
    s.on_worker_event(WorkerEvent::Completed { key: key(Direction::Download, "http://a"), total_size: 8 }, &mut out);
    assert!(starts(&out).is_empty());
    // once resumed it starts
    let mut out = Vec::new();
    assert!(s.resume(TaskId::from_u128(2), &mut out).is_ok());
    assert_eq!(starts(&out), vec![("http://b".to_string(), 0)]);
}

#[test]
fn failure_ends_task_with_error() {
    let mut s = SchedulerState::new(1, 1);
    let mut out = Vec::new();
    s.enqueue(download(1, "http://a", 8), &mut out);
    s.on_worker_event(WorkerEvent::Progress { key: key(Direction::Download, "http://a"), next_offset: 4, total_size: 8 }, &mut out);
    let mut out = Vec::new();
    let error = MeowError::from_code_str(InnerErrorCode::HttpError, "boom");
    s.on_worker_event(WorkerEvent::Failed { key: key(Direction::Download, "http://a"), error: error.clone() }, &mut out);
    assert!(matches!(&out[0], SchedulerAction::ForgetRun { .. }));
    assert_eq!(statuses(&out), vec![(1, TransferStatus::Failed(error), 4, 8)]);
    assert_eq!(s.snapshot().active_groups, 0);
    // the offset is forgotten: a new task for the same URL starts from zero
    let mut out = Vec::new();
    s.enqueue(download(2, "http://a", 8), &mut out);
    assert_eq!(starts(&out), vec![("http://a".to_string(), 0)]);
}

#[test]
fn close_pauses_everything_and_empties() {
    let mut s = SchedulerState::new(1, 1);
    let mut out = Vec::new();
    s.enqueue(download(1, "http://a", 8), &mut out);
    s.enqueue(download(2, "http://b", 9), &mut out);
    let mut out = Vec::new();
    s.close(&mut out);
    assert!(matches!(&out[0], SchedulerAction::CancelRun { key } if key.id == "http://a"));
    assert_eq!(
        statuses(&out),
        vec![(1, TransferStatus::Paused, 0, 8), (2, TransferStatus::Paused, 0, 9)]
    );
    let snap = s.snapshot();
    assert_eq!(snap.queued_groups, 0);
    assert_eq!(snap.active_groups, 0);
    assert_eq!(s.pause(TaskId::from_u128(1), &mut out).unwrap_err().code(), InnerErrorCode::TaskNotFound.as_i32());
}

#[test]
fn zero_limit_never_starts() {
    let mut s = SchedulerState::new(0, 0);
    let mut out = Vec::new();
    s.enqueue(download(1, "http://a", 8), &mut out);
    assert!(starts(&out).is_empty());
    assert_eq!(s.snapshot().queued_groups, 1);
    assert_eq!(s.max_upload_concurrency(), 0);
    assert_eq!(s.max_download_concurrency(), 0);
}

#[test]
fn snapshot_command_reports_counts() {
    let mut s = SchedulerState::new(1, 1);
    let mut out = Vec::new();
    assert!(matches!(s.handle_command(SchedulerCommand::Enqueue(download(1, "http://a", 8)), &mut out), CommandReply::Submitted));
    match s.handle_command(SchedulerCommand::Snapshot, &mut out) {
        CommandReply::Snapshot(snap) => {
            assert_eq!(snap.active_groups, 1);
            assert_eq!(snap.queued_groups, 0);
        }
        other => panic!("unexpected {other:?}"),
    }
}

#[test]
fn completed_task_is_released_and_unknown_afterwards() {
    let mut s = SchedulerState::new(1, 1);
    let mut out = Vec::new();
    s.enqueue(download(7, "http://c", 8), &mut out);
    let k = key(Direction::Download, "http://c");
    let mut out = Vec::new();
    s.on_worker_event(WorkerEvent::Progress { key: k.clone(), next_offset: 4, total_size: 8 }, &mut out);
    assert_eq!(statuses(&out), vec![(7, TransferStatus::Transmission, 4, 8)]);
    let mut out = Vec::new();
    s.on_worker_event(WorkerEvent::Completed { key: k, total_size: 8 }, &mut out);
    assert!(matches!(&out[0], SchedulerAction::ForgetRun { .. }));
    assert_eq!(statuses(&out), vec![(7, TransferStatus::Complete, 8, 8)]);
    assert!(matches!(out.last(), Some(SchedulerAction::Release { task_id }) if task_id.as_u128() == 7));
    let mut out = Vec::new();
    let err = control(s.handle_command(SchedulerCommand::Pause(TaskId::from_u128(7)), &mut out)).unwrap_err();
    assert_eq!(err.code(), InnerErrorCode::TaskNotFound.as_i32());
}

#[test]
fn task_id_keeps_naming_its_group_across_operations() {
    let mut s = SchedulerState::new(1, 1);
    let mut out = Vec::new();
    s.enqueue(upload(1, "sign-a", 8), &mut out);
    s.enqueue(upload(2, "sign-b", 8), &mut out);
    let id2 = TaskId::from_u128(2);
    // the second waits; pausing, resuming and a report about the first keep it addressable
    assert!(control(s.handle_command(SchedulerCommand::Pause(id2), &mut out)).is_ok());
    s.on_worker_event(WorkerEvent::Progress { key: key(Direction::Upload, "sign-a"), next_offset: 4, total_size: 8 }, &mut out);
    assert!(control(s.handle_command(SchedulerCommand::Resume(id2), &mut out)).is_ok());
    assert!(control(s.handle_command(SchedulerCommand::Cancel(id2), &mut out)).is_ok());
    let err = control(s.handle_command(SchedulerCommand::Cancel(id2), &mut out)).unwrap_err();
    assert_eq!(err.code(), InnerErrorCode::TaskNotFound.as_i32());
    assert!(control(s.handle_command(SchedulerCommand::Pause(TaskId::from_u128(1)), &mut out)).is_ok());
}

#[test]
fn paused_task_is_not_started_until_resumed() {
    let mut s = SchedulerState::new(1, 1);
    let mut out = Vec::new();
    s.enqueue(download(1, "http://a", 8), &mut out);
    s.enqueue(download(2, "http://b", 8), &mut out);
    assert!(control(s.handle_command(SchedulerCommand::Pause(TaskId::from_u128(2)), &mut out)).is_ok());
    // the slot frees up, but the paused task stays out
    let mut out = Vec::new();
    s.on_worker_event(WorkerEvent::Completed { key: key(Direction::Download, "http://a"), total_size: 8 }, &mut out);
    assert!(starts(&out).is_empty());
    assert_eq!(s.snapshot().active_groups, 0);
    assert_eq!(s.snapshot().queued_groups, 0);
    let mut out = Vec::new();
    assert!(control(s.handle_command(SchedulerCommand::Resume(TaskId::from_u128(2)), &mut out)).is_ok());
    assert_eq!(starts(&out), vec![("http://b".to_string(), 0)]);
}
