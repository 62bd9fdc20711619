use vstd::prelude::*;
use crate::direction::Direction;
use crate::error::{code_value, InnerErrorCode, MeowError};
use crate::http_breakpoint::BreakpointDownloadHttpConfig;
use crate::ids::TaskId;
use crate::inner_task::InnerTask;

verus! {

/// What a caller submits: which file goes which way, where, and in what chunks. The HTTP
/// method, headers and protocol hooks travel beside it in the application.
#[derive(Debug, Clone)]
pub struct PounceTask {
    pub direction: Direction,
    pub file_name: String,
    /// The local path, as text.
    pub file_path: String,
    pub total_size: u64,
    pub chunk_size: u64,
    pub url: String,
    /// The label a download shows in its progress reports; uploads use the file's MD5.
    pub client_file_sign: Option<String>,
    pub breakpoint_download_http: Option<BreakpointDownloadHttpConfig>,
    /// How many times a failed chunk is tried again (only chunk transfers, not the
    /// preparation).
    pub max_chunk_retries: u32,
}

/// The chunk size used when none is given: 1 MiB.
pub const DEFAULT_CHUNK_SIZE: u64 = 1048576;

/// A chunk size of zero means the default chunk size.
pub open spec fn normalized_chunk_size_spec(chunk_size: u64) -> u64 {
    if chunk_size == 0 { DEFAULT_CHUNK_SIZE } else { chunk_size }
}

/// A task that lacks a path, a name or a URL, or an upload of an empty file, cannot run.
pub open spec fn is_empty_spec(t: PounceTask) -> bool {
    t.file_path@.len() == 0 || t.file_name@.len() == 0 || t.url@.len() == 0
        || (t.direction == Direction::Upload && t.total_size == 0)
}

impl PounceTask {
    /// The default number of retries of a failed chunk: after a failure, up to three more
    /// tries.
    pub const DEFAULT_MAX_CHUNK_RETRIES: u32 = 3;

    pub fn normalized_chunk_size(chunk_size: u64) -> (r: u64)
        ensures
            r == normalized_chunk_size_spec(chunk_size),
            r > 0,
    {
        if chunk_size == 0 { DEFAULT_CHUNK_SIZE } else { chunk_size }
    }

    /// The retry count as configured: zero disables retries (each chunk is tried once),
    /// any other value is used as given.
    pub fn normalized_max_chunk_retries(max_chunk_retries: u32) -> (r: u32)
        ensures
            r == max_chunk_retries,
    {
        max_chunk_retries
    }

    pub fn is_empty(&self) -> (r: bool)
        ensures
            r == is_empty_spec(*self),
    {
        self.file_path.as_str().is_empty() || self.file_name.as_str().is_empty() || self.url.as_str().is_empty()
            || match self.direction {
                Direction::Upload => self.total_size == 0,
                Direction::Download => false,
            }
    }

    /// A task can be submitted unless it is empty, which is a `ParameterEmpty` error.
    pub fn check_submittable(&self) -> (r: Result<(), MeowError>)
        ensures
            !is_empty_spec(*self) ==> r is Ok,
            is_empty_spec(*self) ==> (r matches Err(e) && e.spec_code() == code_value(InnerErrorCode::ParameterEmpty)
                && e.spec_msg().len() == 0),
    {
        if self.is_empty() {
            Err(MeowError::from_code1(InnerErrorCode::ParameterEmpty))
        } else {
            Ok(())
        }
    }

    /// The download settings of the task, or `default` when it has none.
    pub fn download_http_or(&self, default: BreakpointDownloadHttpConfig) -> (c: BreakpointDownloadHttpConfig)
        ensures
            match self.breakpoint_download_http {
                Some(own) => c.range_accept@ == own.range_accept@,
                None => c == default,
            },
    {
        match &self.breakpoint_download_http {
            Some(own) => BreakpointDownloadHttpConfig { range_accept: own.range_accept.clone() },
            None => default,
        }
    }

    /// The scheduler's record of the submitted task, under id `task_id`. An upload is
    /// signed with `upload_sign` (the MD5 of its file); a download shows its caller's label,
    /// or nothing.
    pub fn into_inner(self, task_id: TaskId, upload_sign: String) -> (t: InnerTask)
        ensures
            t.task_id == task_id,
            t.file_sign@ == (match self.direction {
                Direction::Upload => upload_sign@,
                Direction::Download => match self.client_file_sign {
                    Some(s) => s@,
                    None => Seq::<char>::empty(),
                },
            }),
            t.file_name == self.file_name,
            t.direction == self.direction,
            t.total_size == self.total_size,
            t.chunk_size == self.chunk_size,
            t.url == self.url,
            t.max_chunk_retries == self.max_chunk_retries,
    {
        let file_sign = match self.direction {
            Direction::Upload => upload_sign,
            Direction::Download => match self.client_file_sign {
                Some(s) => s,
                None => String::new(),
            },
        };
        InnerTask {
            task_id,
            file_sign,
            file_name: self.file_name,
            direction: self.direction,
            total_size: self.total_size,
            chunk_size: self.chunk_size,
            url: self.url,
            max_chunk_retries: self.max_chunk_retries,
        }
    }
}

} // verus!
