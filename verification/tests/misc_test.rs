use rusty_spotted_cat::client_gate::ClientGate;
use rusty_spotted_cat::direction::Direction;
use rusty_spotted_cat::error::{InnerErrorCode, MeowError};
use rusty_spotted_cat::http_breakpoint::BreakpointDownloadHttpConfig;
use rusty_spotted_cat::ids::{GlobalProgressListenerId, TaskId};
use rusty_spotted_cat::listeners::ListenerRegistry;
use rusty_spotted_cat::meow_config::{EngineConfig, MeowConfig};
use rusty_spotted_cat::pounce_task::PounceTask;
use rusty_spotted_cat::sign::FileSigner;
use rusty_spotted_cat::task_callbacks::TaskCallbacks;
use rusty_spotted_cat::transfer_status::TransferStatus;

fn pounce(direction: Direction, path: &str, name: &str, url: &str, total: u64) -> PounceTask {
    PounceTask {
        direction,
        file_name: name.to_string(),
        file_path: path.to_string(),
        total_size: total,
        chunk_size: PounceTask::normalized_chunk_size(0),
        url: url.to_string(),
        client_file_sign: None,
        breakpoint_download_http: None,
        max_chunk_retries: PounceTask::DEFAULT_MAX_CHUNK_RETRIES,
    }
}

#[test]
fn statuses_have_numbers() {
    assert_eq!(TransferStatus::Pending.as_i32(), 0);
    assert_eq!(TransferStatus::Transmission.as_i32(), 1);
    assert_eq!(TransferStatus::Paused.as_i32(), 2);
    assert_eq!(TransferStatus::Complete.as_i32(), 3);
    assert_eq!(TransferStatus::Failed(MeowError::from_code1(InnerErrorCode::IoError)).as_i32(), 4);
    assert_eq!(TransferStatus::Canceled.as_i32(), 5);
    assert_eq!(TransferStatus::NoStatus.as_i32(), -1);
    assert_eq!(TransferStatus::default(), TransferStatus::NoStatus);
    assert!(TransferStatus::Complete.is_terminal());
    assert!(!TransferStatus::Paused.is_terminal());
    assert_ne!(TransferStatus::Pending, TransferStatus::Paused);
}

#[test]
fn md5_sign_is_lower_hex_of_digest() {
    let signer = FileSigner::new();
    assert_eq!(signer.finish(), "d41d8cd98f00b204e9800998ecf8427e");
    let mut signer = FileSigner::new();
    signer.update(b"a");
    signer.update(b"bc");
    assert_eq!(signer.finish(), "900150983cd24fb0d6963f7d28e17f72");
}

#[test]
fn chunk_size_and_retries_normalization() {
    assert_eq!(PounceTask::normalized_chunk_size(0), 1024 * 1024);
    assert_eq!(PounceTask::normalized_chunk_size(2048), 2048);
    assert_eq!(PounceTask::normalized_max_chunk_retries(0), 0);
    assert_eq!(PounceTask::normalized_max_chunk_retries(5), 5);
    assert_eq!(PounceTask::DEFAULT_MAX_CHUNK_RETRIES, 3);
}

#[test]
fn empty_tasks_are_refused() {
    assert!(!pounce(Direction::Download, "/tmp/x", "x", "http://h/x", 0).is_empty());
    assert!(pounce(Direction::Upload, "/tmp/x", "x", "http://h/x", 0).is_empty());
    assert!(!pounce(Direction::Upload, "/tmp/x", "x", "http://h/x", 5).is_empty());
    assert!(pounce(Direction::Download, "", "x", "http://h/x", 0).is_empty());
    assert!(pounce(Direction::Download, "/tmp/x", "", "http://h/x", 0).is_empty());
    assert!(pounce(Direction::Download, "/tmp/x", "x", "", 0).is_empty());
    let err = pounce(Direction::Download, "/tmp/x", "x", "", 0).check_submittable().unwrap_err();
    assert_eq!(err.code(), InnerErrorCode::ParameterEmpty.as_i32());
    assert!(pounce(Direction::Download, "/tmp/x", "x", "u", 0).check_submittable().is_ok());
}

#[test]
fn pounce_task_becomes_inner_task() {
    let mut d = pounce(Direction::Download, "/tmp/x", "x", "http://h/x", 0);
    d.client_file_sign = Some("label".to_string());
    let t = d.into_inner(TaskId::from_u128(9), "ignored".to_string());
    assert_eq!(t.file_sign, "label");
    assert_eq!(t.dedupe_key().id, "http://h/x");
    let u = pounce(Direction::Upload, "/tmp/x", "x", "http://h/up", 5).into_inner(TaskId::from_u128(10), "abc".to_string());
    assert_eq!(u.file_sign, "abc");
    assert_eq!(u.dedupe_key().id, "abc");
    assert_eq!(u.dedupe_key().direction, Direction::Upload);
    let own = BreakpointDownloadHttpConfig { range_accept: "*/*".to_string() };
    let mut with_own = pounce(Direction::Download, "/tmp/x", "x", "http://h/x", 0);
    with_own.breakpoint_download_http = Some(own);
    assert_eq!(with_own.download_http_or(BreakpointDownloadHttpConfig::default()).range_accept, "*/*");
    let plain = pounce(Direction::Download, "/tmp/x", "x", "http://h/x", 0);
    assert_eq!(plain.download_http_or(BreakpointDownloadHttpConfig::default()).range_accept, "application/octet-stream");
}

#[test]
fn listeners_register_and_unregister() {
    let mut r: ListenerRegistry<u32> = ListenerRegistry::new();
    let a = GlobalProgressListenerId::new_v4();
    let b = GlobalProgressListenerId::new_v4();
    r.register(a, 1);
    r.register(b, 2);
    assert_eq!(r.len(), 2);
    assert!(r.unregister(a));
    assert!(!r.unregister(a));
    assert_eq!(r.len(), 1);
    assert_eq!(*r.listener(0), 2);
    r.clear();
    assert_eq!(r.len(), 0);
    assert!(!r.unregister(b));
}

#[test]
fn random_ids_differ() {
    let a = TaskId::new_v4();
    let b = TaskId::new_v4();
    assert_ne!(a, b);
    assert_eq!(TaskId::from_u128(a.as_u128()), a);
}

#[test]
fn task_callbacks_hold_the_callback() {
    let c: TaskCallbacks<u8> = TaskCallbacks::new(Some(3));
    assert_eq!(*c.progress_cb(), Some(3));
    let e: TaskCallbacks<u8> = TaskCallbacks::empty();
    assert_eq!(*e.progress_cb(), None);
}

#[test]
fn configs_have_defaults_and_builders() {
    let c = MeowConfig::default();
    assert_eq!(c.max_upload_concurrency(), 2);
    assert_eq!(c.max_download_concurrency(), 2);
    assert_eq!(c.http_timeout(), std::time::Duration::from_secs(5));
    assert_eq!(c.tcp_keepalive(), std::time::Duration::from_secs(30));
    assert_eq!(c.breakpoint_download_http().range_accept, "application/octet-stream");
    assert!(c.http_client_ref().is_none());
    let c = MeowConfig::new(1, 3)
        .with_http_timeout(std::time::Duration::from_secs(9))
        .with_tcp_keepalive(std::time::Duration::from_secs(1))
        .with_breakpoint_download_http(BreakpointDownloadHttpConfig { range_accept: "*/*".to_string() });
    assert_eq!(c.max_upload_concurrency(), 1);
    assert_eq!(c.max_download_concurrency(), 3);
    assert_eq!(c.http_timeout(), std::time::Duration::from_secs(9));
    assert_eq!(c.tcp_keepalive(), std::time::Duration::from_secs(1));
    assert_eq!(c.breakpoint_download_http().range_accept, "*/*");
    let e = EngineConfig::default();
    assert_eq!(e.max_upload_concurrency(), 2);
    let e = EngineConfig::new(4, 5).with_breakpoint_download_http(BreakpointDownloadHttpConfig { range_accept: "x".to_string() });
    assert_eq!(e.max_download_concurrency(), 5);
    assert_eq!(e.breakpoint_download_http().range_accept, "x");
    assert!(e.http_client_ref().is_none());
}

#[test]
fn closed_client_refuses_requests_and_second_close() {
    let mut gate = ClientGate::new();
    assert!(!gate.is_closed());
    assert!(gate.ensure_open().is_ok());
    assert!(gate.begin_close().is_ok());
    assert!(gate.is_closed());
    let err = gate.ensure_open().unwrap_err();
    assert_eq!(err.code(), InnerErrorCode::ClientClosed.as_i32());
    assert_eq!(err.msg(), "meow client is already closed");
    let again = gate.begin_close().unwrap_err();
    assert_eq!(again.code(), InnerErrorCode::ClientClosed.as_i32());
    assert!(gate.is_closed());
}

#[test]
fn unfinished_close_reopens_the_client() {
    let mut gate = ClientGate::new();
    gate.begin_close().unwrap();
    gate.reopen();
    assert!(!gate.is_closed());
    assert!(gate.ensure_open().is_ok());
    assert!(gate.begin_close().is_ok());
}

#[test]
fn unregister_undoes_register() {
    let mut r: ListenerRegistry<u32> = ListenerRegistry::new();
    let a = GlobalProgressListenerId::new_v4();
    let b = GlobalProgressListenerId::new_v4();
    r.register(a, 10);
    r.register(b, 20);
    assert!(r.unregister(b));
    assert_eq!(r.len(), 1);
    assert_eq!(*r.listener(0), 10);
    assert!(r.unregister(a));
    assert_eq!(r.len(), 0);
}

#[test]
fn new_ids_are_version_4_uuids() {
    for _ in 0..16 {
        let t = TaskId::new_v4().as_u128();
        assert_eq!((t >> 76) & 0xf, 4);
        assert_eq!((t >> 62) & 0x3, 0b10);
        let g = GlobalProgressListenerId::new_v4().as_u128();
        assert_eq!((g >> 76) & 0xf, 4);
        assert_eq!((g >> 62) & 0x3, 0b10);
    }
}

#[test]
fn ids_read_as_hyphenated_uuids() {
    let id = TaskId::from_u128(0x67e5_5044_10b1_426f_9247_bb68_0e5f_e0c8);
    assert_eq!(id.to_uuid_string(), "67e55044-10b1-426f-9247-bb680e5fe0c8");
    let g = GlobalProgressListenerId::new_v4();
    assert_eq!(g.to_uuid_string(), uuid::Uuid::from_u128(g.as_u128()).hyphenated().to_string());
}

#[test]
fn download_settings_compare_by_accept_value() {
    let a = BreakpointDownloadHttpConfig::default();
    let b = BreakpointDownloadHttpConfig { range_accept: "application/octet-stream".to_string() };
    let c = BreakpointDownloadHttpConfig { range_accept: "*/*".to_string() };
    assert_eq!(a, b);
    assert_ne!(a, c);
}
