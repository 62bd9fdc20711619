use vstd::prelude::*;
use crate::text::{push_signed_decimal, signed_decimal};

verus! {

/// Error codes carried by [`MeowError`].
#[derive(Debug, Clone, Copy, PartialEq, Eq, Structural)]
pub enum InnerErrorCode {
    Unknown,
    /// success
    Success,
    RuntimeCreationFailedError,
    ParameterEmpty,
    /// the same file is already queued or running
    DuplicateTaskError,
    EnqueueError,
    IoError,
    HttpError,
    /// the client was closed; no more tasks can be submitted or controlled
    ClientClosed,
    /// a control call named a task id that is unknown (finished or never existed)
    TaskNotFound,
    ResponseStatusError,
    MissingOrInvalidContentLengthFromHead,
    /// a control command could not be sent to the scheduler
    CommandSendFailed,
    /// a control command was sent but its reply channel closed
    CommandResponseFailed,
    /// a response body (JSON etc.) could not be parsed
    ResponseParseError,
    /// an HTTP Range exchange was inconsistent (status, Content-Range, offsets)
    InvalidRange,
    /// a local file does not exist
    FileNotFound,
    /// a checksum did not match
    ChecksumMismatch,
    /// the task's state does not allow the operation (e.g. resuming a task that is not paused)
    InvalidTaskState,
    /// an internal lock was poisoned
    LockPoisoned,
    /// the built-in HTTP client could not be built
    HttpClientBuildFailed,
}

/// The numeric value of each error code.
pub open spec fn code_value(code: InnerErrorCode) -> int {
    match code {
        InnerErrorCode::Unknown => -1,
        InnerErrorCode::Success => 0,
        InnerErrorCode::RuntimeCreationFailedError => 101,
        InnerErrorCode::ParameterEmpty => 102,
        InnerErrorCode::DuplicateTaskError => 103,
        InnerErrorCode::EnqueueError => 104,
        InnerErrorCode::IoError => 105,
        InnerErrorCode::HttpError => 106,
        InnerErrorCode::ClientClosed => 107,
        InnerErrorCode::TaskNotFound => 108,
        InnerErrorCode::ResponseStatusError => 109,
        InnerErrorCode::MissingOrInvalidContentLengthFromHead => 110,
        InnerErrorCode::CommandSendFailed => 111,
        InnerErrorCode::CommandResponseFailed => 112,
        InnerErrorCode::ResponseParseError => 113,
        InnerErrorCode::InvalidRange => 114,
        InnerErrorCode::FileNotFound => 115,
        InnerErrorCode::ChecksumMismatch => 116,
        InnerErrorCode::InvalidTaskState => 117,
        InnerErrorCode::LockPoisoned => 118,
        InnerErrorCode::HttpClientBuildFailed => 119,
    }
}

impl InnerErrorCode {
    /// The numeric value of the code, as stored in [`MeowError::code`].
    pub fn as_i32(&self) -> (r: i32)
        ensures
            r == code_value(*self),
    {
        match self {
            InnerErrorCode::Unknown => -1,
            InnerErrorCode::Success => 0,
            InnerErrorCode::RuntimeCreationFailedError => 101,
            InnerErrorCode::ParameterEmpty => 102,
            InnerErrorCode::DuplicateTaskError => 103,
            InnerErrorCode::EnqueueError => 104,
            InnerErrorCode::IoError => 105,
            InnerErrorCode::HttpError => 106,
            InnerErrorCode::ClientClosed => 107,
            InnerErrorCode::TaskNotFound => 108,
            InnerErrorCode::ResponseStatusError => 109,
            InnerErrorCode::MissingOrInvalidContentLengthFromHead => 110,
            InnerErrorCode::CommandSendFailed => 111,
            InnerErrorCode::CommandResponseFailed => 112,
            InnerErrorCode::ResponseParseError => 113,
            InnerErrorCode::InvalidRange => 114,
            InnerErrorCode::FileNotFound => 115,
            InnerErrorCode::ChecksumMismatch => 116,
            InnerErrorCode::InvalidTaskState => 117,
            InnerErrorCode::LockPoisoned => 118,
            InnerErrorCode::HttpClientBuildFailed => 119,
        }
    }
}

/// The error type of the library: a numeric code, a message, and optionally the text of
/// the lower-level error that caused it.
#[derive(Debug, Clone)]
pub struct MeowError {
    code: i32,
    msg: String,
    source: Option<String>,
}

/// What an error is made of: its code, its message, and the text of its source if any.
pub struct ErrorView {
    pub code: int,
    pub msg: Seq<char>,
    pub source: Option<Seq<char>>,
}

impl View for MeowError {
    type V = ErrorView;

    open spec fn view(&self) -> ErrorView {
        ErrorView { code: self.spec_code() as int, msg: self.spec_msg(), source: self.spec_source() }
    }
}

impl MeowError {
    pub closed spec fn spec_code(&self) -> i32 {
        self.code
    }

    pub closed spec fn spec_msg(&self) -> Seq<char> {
        self.msg@
    }

    pub closed spec fn spec_source(&self) -> Option<Seq<char>> {
        match self.source {
            Some(s) => Some(s@),
            None => None,
        }
    }

    pub fn new(code: i32, msg: String) -> (e: Self)
        ensures
            e.spec_code() == code,
            e.spec_msg() == msg@,
            e.spec_source() is None,
    {
        MeowError { code, msg, source: None }
    }

    pub fn code(&self) -> (c: i32)
        ensures
            c == self.spec_code(),
    {
        self.code
    }

    pub fn msg(&self) -> (m: String)
        ensures
            m@ == self.spec_msg(),
    {
        self.msg.clone()
    }

    /// The text of the error this one was built from, if any.
    pub fn source(&self) -> (s: Option<String>)
        ensures
            match s {
                Some(t) => self.spec_source() == Some(t@),
                None => self.spec_source() is None,
            },
    {
        match &self.source {
            Some(t) => Some(t.clone()),
            None => None,
        }
    }

    pub fn from_code1(code: InnerErrorCode) -> (e: Self)
        ensures
            e.spec_code() == code_value(code),
            e.spec_msg() == Seq::<char>::empty(),
            e.spec_source() is None,
    {
        MeowError { code: code.as_i32(), msg: String::new(), source: None }
    }

    pub fn from_code(code: InnerErrorCode, msg: String) -> (e: Self)
        ensures
            e.spec_code() == code_value(code),
            e.spec_msg() == msg@,
            e.spec_source() is None,
    {
        MeowError { code: code.as_i32(), msg, source: None }
    }

    pub fn from_code_str(code: InnerErrorCode, msg: &str) -> (e: Self)
        ensures
            e.spec_code() == code_value(code),
            e.spec_msg() == msg@,
            e.spec_source() is None,
    {
        MeowError { code: code.as_i32(), msg: msg.to_owned(), source: None }
    }

    /// Builds an error that records the text of the error that caused it.
    pub fn from_source(code: InnerErrorCode, msg: String, source: String) -> (e: Self)
        ensures
            e.spec_code() == code_value(code),
            e.spec_msg() == msg@,
            e.spec_source() == Some(source@),
    {
        MeowError { code: code.as_i32(), msg, source: Some(source) }
    }
}

impl MeowError {
    /// What the error reads as when shown to a person.
    pub open spec fn display_spec(&self) -> Seq<char> {
        if self.spec_msg().len() == 0 {
            "MeowError(code="@ + signed_decimal(self.spec_code() as int) + ")"@
        } else {
            "MeowError(code="@ + signed_decimal(self.spec_code() as int) + ", msg="@
                + self.spec_msg() + ")"@
        }
    }

    /// The text of the error: `MeowError(code=C)` when it has no message, otherwise
    /// `MeowError(code=C, msg=M)`.
    pub fn display_string(&self) -> (s: String)
        ensures
            s@ == self.display_spec(),
    {
        let mut out = String::new();
        out.append("MeowError(code=");
        push_signed_decimal(&mut out, self.code as i64);
        if self.msg.as_str().is_empty() {
            out.append(")");
        } else {
            out.append(", msg=");
            out.append(self.msg.as_str());
            out.append(")");
        }
        assert(out@ =~= self.display_spec());
        out
    }
}

impl PartialEq for MeowError {
    /// Two errors are equal when their codes and messages are; the source is not compared.
    fn eq(&self, other: &Self) -> (r: bool) {
        self.code == other.code && self.msg == other.msg
    }
}

impl vstd::std_specs::cmp::PartialEqSpecImpl for MeowError {
    open spec fn obeys_eq_spec() -> bool {
        true
    }

    open spec fn eq_spec(&self, other: &MeowError) -> bool {
        self.spec_code() == other.spec_code() && self.spec_msg() == other.spec_msg()
    }
}

impl Eq for MeowError {
}

} // verus!
