use rusty_spotted_cat::chunk_outcome::ChunkOutcome;
use rusty_spotted_cat::default_http_client::{
    check_range_response, download_chunk_outcome, download_prepare_outcome, finished_chunk, plan_download_range,
    parse_content_range, range_spec, upload_chunk_outcome, upload_prepare_outcome,
    upload_read_len, ContentRange,
};
use rusty_spotted_cat::error::InnerErrorCode;
use rusty_spotted_cat::http_breakpoint::{
    total_size_from_head, BreakpointDownloadHttpConfig, DefaultStyleUpload, UploadResumeInfo,
};
use rusty_spotted_cat::prepare_outcome::PrepareOutcome;
use rusty_spotted_cat::text::{is_blank, parse_u64, u64_to_decimal};

#[test]
fn range_spec_cuts_at_last_byte() {
    assert_eq!(range_spec(0, 1048576, 10_000_000), "bytes=0-1048575");
    assert_eq!(range_spec(4, 4, 8), "bytes=4-7");
    assert_eq!(range_spec(6, 4, 8), "bytes=6-7");
    assert_eq!(range_spec(5, 4, 0), "bytes=5-");
    assert_eq!(range_spec(123456789012, 1, 999999999999), "bytes=123456789012-123456789012");
}

#[test]
fn head_content_length_gives_total() {
    assert_eq!(total_size_from_head(Some("8")).unwrap(), 8);
    assert_eq!(total_size_from_head(Some("+42")).unwrap(), 42);
    assert_eq!(total_size_from_head(Some("18446744073709551615")).unwrap(), u64::MAX);
    for bad in [Some("0"), Some(""), Some("+"), Some("12a"), Some("-1"), Some("18446744073709551616"), None] {
        let err = total_size_from_head(bad).unwrap_err();
        assert_eq!(err.code(), InnerErrorCode::HttpError.as_i32());
        assert_eq!(err.msg(), "missing or invalid content-length from HEAD");
    }
}

#[test]
fn upload_prepare_continues_at_larger_offset() {
    let info = UploadResumeInfo::from_response_fields(None, Some(100));
    assert_eq!(upload_prepare_outcome(&info, 40, 1000), PrepareOutcome { next_offset: 100, total_size: 1000 });
    assert_eq!(upload_prepare_outcome(&info, 400, 1000), PrepareOutcome { next_offset: 400, total_size: 1000 });
    assert_eq!(upload_prepare_outcome(&info, 40, 50), PrepareOutcome { next_offset: 50, total_size: 50 });
    let done = UploadResumeInfo::from_response_fields(Some("id".to_string()), Some(3));
    assert_eq!(upload_prepare_outcome(&done, 0, 77), PrepareOutcome { next_offset: 77, total_size: 77 });
    let negative = UploadResumeInfo::from_response_fields(None, Some(-5));
    assert_eq!(negative.next_byte, Some(0));
    assert_eq!(upload_prepare_outcome(&UploadResumeInfo::default(), 0, 9), PrepareOutcome { next_offset: 0, total_size: 9 });
}

#[test]
fn download_prepare_uses_local_length() {
    assert_eq!(download_prepare_outcome(4, 8).unwrap(), PrepareOutcome { next_offset: 4, total_size: 8 });
    assert_eq!(download_prepare_outcome(8, 8).unwrap(), PrepareOutcome { next_offset: 8, total_size: 8 });
    let err = download_prepare_outcome(9, 8).unwrap_err();
    assert_eq!(err.code(), InnerErrorCode::IoError.as_i32());
    assert_eq!(err.msg(), "local file larger than remote content-length");
}

#[test]
fn upload_chunk_planning() {
    assert_eq!(upload_read_len(0, 2048, 5000), 2048);
    assert_eq!(upload_read_len(4096, 2048, 5000), 904);
    assert_eq!(upload_read_len(5000, 2048, 5000), 0);
    assert_eq!(finished_chunk(5000, 5000), ChunkOutcome { next_offset: 5000, total_size: 5000, done: true });
    let info = UploadResumeInfo::default();
    assert_eq!(upload_chunk_outcome(&info, 4096, 904, 5000), ChunkOutcome { next_offset: 5000, total_size: 5000, done: true });
    assert_eq!(upload_chunk_outcome(&info, 0, 2048, 5000), ChunkOutcome { next_offset: 2048, total_size: 5000, done: false });
    let complete = UploadResumeInfo::from_response_fields(Some("f".to_string()), None);
    assert_eq!(upload_chunk_outcome(&complete, 0, 10, 5000), ChunkOutcome { next_offset: 5000, total_size: 5000, done: true });
}

#[test]
fn download_rejects_status_200_for_range_request() {
    let err = check_range_response(200, None, 4).unwrap_err();
    assert_eq!(err.code(), InnerErrorCode::InvalidRange.as_i32());
    assert!(err.msg().contains("requires 206 Partial Content"));
}

#[test]
fn download_rejects_206_without_content_range() {
    let err = check_range_response(206, None, 4).unwrap_err();
    assert_eq!(err.code(), InnerErrorCode::InvalidRange.as_i32());
    assert!(err.msg().contains("missing content-range"));
}

#[test]
fn download_rejects_content_range_start_mismatch() {
    let err = check_range_response(206, Some("bytes 0-3/8"), 4).unwrap_err();
    assert_eq!(err.code(), InnerErrorCode::InvalidRange.as_i32());
    assert!(err.msg().contains("start mismatch"));
    assert_eq!(err.msg(), "content-range start mismatch: expected 4, got 0");
}

#[test]
fn download_accepts_valid_206_and_appends_at_exact_offset() {
    let cr = check_range_response(206, Some("bytes 4-7/8"), 4).unwrap();
    assert_eq!(cr, ContentRange { start: 4, end: 7, total: Some(8) });
    let outcome = download_chunk_outcome(4, 4, 8).unwrap();
    assert_eq!(outcome, ChunkOutcome { next_offset: 8, total_size: 8, done: true });
}

#[test]
fn content_range_forms() {
    assert_eq!(parse_content_range("bytes 0-0/*"), Some(ContentRange { start: 0, end: 0, total: None }));
    assert_eq!(parse_content_range("bytes 10-19/100"), Some(ContentRange { start: 10, end: 19, total: Some(100) }));
    assert_eq!(parse_content_range("bytes 10-19"), None);
    assert_eq!(parse_content_range("items 10-19/100"), None);
    assert_eq!(parse_content_range("bytes -19/100"), None);
    assert_eq!(parse_content_range("bytes 1-2/x"), None);
    let err = check_range_response(206, Some("bytes 5-3/8"), 5).unwrap_err();
    assert_eq!(err.msg(), "invalid content-range: bytes 5-3/8");
    let err = check_range_response(206, Some("garbage"), 5).unwrap_err();
    assert_eq!(err.msg(), "invalid content-range: garbage");
    let err = check_range_response(416, Some("bytes 5-7/8"), 5).unwrap_err();
    assert_eq!(err.msg(), "range request requires 206 Partial Content, got status 416");
}

#[test]
fn empty_chunk_body_is_an_error() {
    let err = download_chunk_outcome(0, 0, 8).unwrap_err();
    assert_eq!(err.code(), InnerErrorCode::HttpError.as_i32());
    assert_eq!(err.msg(), "download chunk empty body");
    assert_eq!(download_chunk_outcome(0, 2, 8).unwrap(), ChunkOutcome { next_offset: 2, total_size: 8, done: false });
}

#[test]
fn default_upload_form_fields() {
    let up = DefaultStyleUpload { category: "video".to_string() };
    let fields = up.prepare_fields("abc123", "u.bin", 92160);
    let expected: Vec<(String, String)> = vec![
        ("fileMd5".to_string(), "abc123".to_string()),
        ("fileName".to_string(), "u.bin".to_string()),
        ("category".to_string(), "video".to_string()),
        ("totalSize".to_string(), "92160".to_string()),
    ];
    assert_eq!(fields, expected);
    let fields = up.chunk_fields("abc123", "u.bin", 2048, 1024, 92160);
    let names: Vec<&str> = fields.iter().map(|f| f.0.as_str()).collect();
    assert_eq!(names, vec!["fileMd5", "fileName", "category", "offset", "partSize", "totalSize"]);
    assert_eq!(fields[3].1, "2048");
    assert_eq!(fields[4].1, "1024");
    assert_eq!(DefaultStyleUpload::default().category, "");
}

#[test]
fn download_http_defaults_and_headers() {
    let cfg = BreakpointDownloadHttpConfig::default();
    assert_eq!(cfg.range_accept, "application/octet-stream");
    let headers = cfg.range_get_headers("bytes=0-3");
    assert_eq!(headers, vec![
        ("Range".to_string(), "bytes=0-3".to_string()),
        ("Accept".to_string(), "application/octet-stream".to_string()),
    ]);
}

#[test]
fn written_numbers_read_back() {
    for n in [0u64, 7, 10, 99, 1048576, u64::MAX - 1, u64::MAX] {
        assert_eq!(parse_u64(&u64_to_decimal(n)), Some(n));
    }
}

#[test]
fn exact_range_answer_is_accepted() {
    for (start, end, total) in [(0u64, 0u64, Some(1u64)), (4, 7, Some(8)), (1048576, 2097151, None), (u64::MAX - 1, u64::MAX - 1, Some(u64::MAX))] {
        let total_text = match total {
            Some(t) => u64_to_decimal(t),
            None => "*".to_string(),
        };
        let header = format!("bytes {}-{}/{}", u64_to_decimal(start), u64_to_decimal(end), total_text);
        let cr = check_range_response(206, Some(&header), start).unwrap();
        assert_eq!(cr, ContentRange { start, end, total });
    }
}

#[test]
fn blank_upload_bodies_are_recognised() {
    assert!(is_blank(""));
    assert!(is_blank(" \t\r\n"));
    assert!(is_blank("\u{3000}\u{a0}"));
    assert!(!is_blank(" {} "));
    assert!(!is_blank("x"));
}

#[test]
fn download_range_planning() {
    assert_eq!(plan_download_range(8, 4, 8), None);
    assert_eq!(plan_download_range(9, 4, 8), None);
    assert_eq!(plan_download_range(4, 4, 8).as_deref(), Some("bytes=4-7"));
    assert_eq!(plan_download_range(4, 100, 8).as_deref(), Some("bytes=4-7"));
    // a zero chunk size still names a (empty) range, as the arithmetic gives it
    assert_eq!(plan_download_range(4, 0, 8).as_deref(), Some("bytes=4-3"));
}
