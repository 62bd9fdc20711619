use rusty_spotted_cat::error::{InnerErrorCode, MeowError};

#[test]
fn meow_error_display_contains_code_and_message() {
    let err = MeowError::from_code_str(InnerErrorCode::InvalidRange, "bad range");
    let s = err.display_string();
    assert!(s.contains("code="));
    assert!(s.contains("bad range"));
}

#[test]
fn meow_error_source_is_accessible() {
    let io = std::io::Error::other("disk io");
    let err = MeowError::from_source(InnerErrorCode::IoError, "io failed".to_string(), io.to_string());
    assert!(err.source().is_some());
}

#[test]
fn display_without_message_shows_only_code() {
    let err = MeowError::from_code1(InnerErrorCode::TaskNotFound);
    assert_eq!(err.display_string(), "MeowError(code=108)");
}

#[test]
fn display_with_message_and_negative_code() {
    let err = MeowError::new(-1, "boom".to_string());
    assert_eq!(err.display_string(), "MeowError(code=-1, msg=boom)");
}

#[test]
fn error_codes_have_their_numbers() {
    assert_eq!(InnerErrorCode::Unknown.as_i32(), -1);
    assert_eq!(InnerErrorCode::Success.as_i32(), 0);
    assert_eq!(InnerErrorCode::DuplicateTaskError.as_i32(), 103);
    assert_eq!(InnerErrorCode::HttpError.as_i32(), 106);
    assert_eq!(InnerErrorCode::TaskNotFound.as_i32(), 108);
    assert_eq!(InnerErrorCode::InvalidRange.as_i32(), 114);
    assert_eq!(InnerErrorCode::HttpClientBuildFailed.as_i32(), 119);
}

#[test]
fn errors_equal_when_code_and_message_equal() {
    let a = MeowError::from_source(InnerErrorCode::IoError, "x".to_string(), "first".to_string());
    let b = MeowError::from_code(InnerErrorCode::IoError, "x".to_string());
    let c = MeowError::from_code(InnerErrorCode::HttpError, "x".to_string());
    assert_eq!(a, b);
    assert_ne!(a, c);
    assert_eq!(a.code(), 105);
    assert_eq!(a.msg(), "x");
    assert_eq!(b.source(), None);
}
