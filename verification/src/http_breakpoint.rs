//! How a resumable upload or download talks HTTP is decided by the application: the
//! pieces of that decision that do not depend on the HTTP crate live here.
use vstd::prelude::*;
use crate::error::{code_value, InnerErrorCode, MeowError};
use crate::text::{decimal, parse_u64, parse_u64_spec, u64_to_decimal};

verus! {

/// What an upload endpoint reports about a resumable upload.
#[derive(Debug, Clone)]
pub struct UploadResumeInfo {
    /// The file id the server returned if the upload is already complete.
    pub completed_file_id: Option<String>,
    /// The byte offset the server suggests to continue from (`nextByte`).
    pub next_byte: Option<u64>,
}

impl Default for UploadResumeInfo {
    fn default() -> (r: Self)
        ensures
            r.completed_file_id is None,
            r.next_byte is None,
    {
        UploadResumeInfo { completed_file_id: None, next_byte: None }
    }
}

/// A negative `nextByte` counts as zero.
pub open spec fn clamp_next_byte(n: i64) -> u64 {
    if n < 0 { 0 } else { n as u64 }
}

impl UploadResumeInfo {
    /// Builds the resume information from the two fields of the default upload response
    /// (`fileId` and `nextByte`); a negative `nextByte` counts as zero.
    pub fn from_response_fields(file_id: Option<String>, next_byte: Option<i64>) -> (r: Self)
        ensures
            r.completed_file_id == file_id,
            r.next_byte == (match next_byte {
                Some(n) => Some(clamp_next_byte(n)),
                None => None,
            }),
    {
        let next = match next_byte {
            Some(n) => Some(if n < 0 { 0u64 } else { n as u64 }),
            None => None,
        };
        UploadResumeInfo { completed_file_id: file_id, next_byte: next }
    }
}

/// The default multipart upload protocol: every request carries the file's MD5 sign, its
/// name, a category and the total size; chunk requests add the offset and the part size.
#[derive(Debug, Clone)]
pub struct DefaultStyleUpload {
    pub category: String,
}

impl Default for DefaultStyleUpload {
    fn default() -> (r: Self)
        ensures
            r.category@ == Seq::<char>::empty(),
    {
        DefaultStyleUpload { category: String::new() }
    }
}

/// Form field names of the default upload protocol.
pub open spec fn key_file_md5() -> Seq<char> { "fileMd5"@ }
pub open spec fn key_file_name() -> Seq<char> { "fileName"@ }
pub open spec fn key_category() -> Seq<char> { "category"@ }
pub open spec fn key_total_size() -> Seq<char> { "totalSize"@ }
pub open spec fn key_offset() -> Seq<char> { "offset"@ }
pub open spec fn key_part_size() -> Seq<char> { "partSize"@ }

/// The name of the multipart part that carries the chunk bytes.
pub const KEY_FILE: &'static str = "file";
/// The file name given to the part that carries the chunk bytes.
pub const KEY_UPLOAD_CHUNK_DATA: &'static str = "upload_chunk_data";
/// The content type of the part that carries the chunk bytes.
pub const CHUNK_MIME: &'static str = "application/octet-stream";

/// The views of a list of text form fields.
pub open spec fn fields_view(fields: Seq<(String, String)>) -> Seq<(Seq<char>, Seq<char>)> {
    fields.map_values(|f: (String, String)| (f.0@, f.1@))
}

/// The text fields of the preparation request, in order.
pub open spec fn prepare_fields_spec(
    file_sign: Seq<char>,
    file_name: Seq<char>,
    category: Seq<char>,
    total_size: u64,
) -> Seq<(Seq<char>, Seq<char>)> {
    seq![
        (key_file_md5(), file_sign),
        (key_file_name(), file_name),
        (key_category(), category),
        (key_total_size(), decimal(total_size as nat)),
    ]
}

/// The text fields of a chunk request, in order (the bytes go in a part of their own).
pub open spec fn chunk_fields_spec(
    file_sign: Seq<char>,
    file_name: Seq<char>,
    category: Seq<char>,
    offset: u64,
    part_size: u64,
    total_size: u64,
) -> Seq<(Seq<char>, Seq<char>)> {
    seq![
        (key_file_md5(), file_sign),
        (key_file_name(), file_name),
        (key_category(), category),
        (key_offset(), decimal(offset as nat)),
        (key_part_size(), decimal(part_size as nat)),
        (key_total_size(), decimal(total_size as nat)),
    ]
}

fn field(name: &str, value: String) -> (f: (String, String))
    ensures
        f.0@ == name@,
        f.1@ == value@,
{
    (name.to_owned(), value)
}

impl DefaultStyleUpload {
    /// The text fields of the preparation (resume probe) request, which carries no bytes.
    pub fn prepare_fields(&self, file_sign: &str, file_name: &str, total_size: u64) -> (r: Vec<(String, String)>)
        ensures
            fields_view(r@) == prepare_fields_spec(file_sign@, file_name@, self.category@, total_size),
    {
        let mut v: Vec<(String, String)> = Vec::new();
        proof { reveal_strlit("fileMd5"); reveal_strlit("fileName"); reveal_strlit("category"); reveal_strlit("totalSize"); }
        v.push(field("fileMd5", file_sign.to_owned()));
        v.push(field("fileName", file_name.to_owned()));
        v.push(field("category", self.category.clone()));
        v.push(field("totalSize", u64_to_decimal(total_size)));
        assert(fields_view(v@) =~= prepare_fields_spec(file_sign@, file_name@, self.category@, total_size));
        v
    }

    /// The text fields of a chunk request that sends `part_size` bytes from `offset`.
    pub fn chunk_fields(
        &self,
        file_sign: &str,
        file_name: &str,
        offset: u64,
        part_size: u64,
        total_size: u64,
    ) -> (r: Vec<(String, String)>)
        ensures
            fields_view(r@) == chunk_fields_spec(
                file_sign@,
                file_name@,
                self.category@,
                offset,
                part_size,
                total_size,
            ),
    {
        let mut v: Vec<(String, String)> = Vec::new();
        proof {
            reveal_strlit("fileMd5"); reveal_strlit("fileName"); reveal_strlit("category");
            reveal_strlit("offset"); reveal_strlit("partSize"); reveal_strlit("totalSize");
        }
        v.push(field("fileMd5", file_sign.to_owned()));
        v.push(field("fileName", file_name.to_owned()));
        v.push(field("category", self.category.clone()));
        v.push(field("offset", u64_to_decimal(offset)));
        v.push(field("partSize", u64_to_decimal(part_size)));
        v.push(field("totalSize", u64_to_decimal(total_size)));
        assert(fields_view(v@) =~= chunk_fields_spec(
            file_sign@,
            file_name@,
            self.category@,
            offset,
            part_size,
            total_size,
        ));
        v
    }
}

/// The `Accept` value of ranged GET requests unless configured otherwise.
pub open spec fn default_range_accept() -> Seq<char> {
    "application/octet-stream"@
}

/// The HTTP settings of resumable downloads (the `Accept` header of ranged GETs).
#[derive(Debug, Clone)]
pub struct BreakpointDownloadHttpConfig {
    /// The `Accept` header sent with each ranged GET.
    pub range_accept: String,
}

impl Default for BreakpointDownloadHttpConfig {
    fn default() -> (r: Self)
        ensures
            r.range_accept@ == default_range_accept(),
    {
        proof { reveal_strlit("application/octet-stream"); }
        BreakpointDownloadHttpConfig { range_accept: "application/octet-stream".to_owned() }
    }
}

impl PartialEq for BreakpointDownloadHttpConfig {
    /// Two settings are equal when they send the same `Accept` value.
    fn eq(&self, other: &Self) -> (r: bool) {
        self.range_accept == other.range_accept
    }
}

impl vstd::std_specs::cmp::PartialEqSpecImpl for BreakpointDownloadHttpConfig {
    open spec fn obeys_eq_spec() -> bool {
        true
    }

    open spec fn eq_spec(&self, other: &BreakpointDownloadHttpConfig) -> bool {
        self.range_accept@ == other.range_accept@
    }
}

impl Eq for BreakpointDownloadHttpConfig {
}

impl BreakpointDownloadHttpConfig {
    /// The headers a ranged GET adds to the task's own: `Range` with the given value, then
    /// `Accept` with the configured value.
    pub fn range_get_headers(&self, range_value: &str) -> (r: Vec<(String, String)>)
        ensures
            fields_view(r@) == seq![("Range"@, range_value@), ("Accept"@, self.range_accept@)],
    {
        let mut v: Vec<(String, String)> = Vec::new();
        v.push(field("Range", range_value.to_owned()));
        v.push(field("Accept", self.range_accept.clone()));
        assert(fields_view(v@) =~= seq![("Range"@, range_value@), ("Accept"@, self.range_accept@)]);
        v
    }
}

/// The standard resumable download: plain `Range`/`Accept` headers, total size from the
/// `Content-Length` of a HEAD response.
#[derive(Debug, Clone, Copy, Default)]
pub struct StandardRangeDownload;

/// The error for a HEAD response without a usable `Content-Length`.
pub open spec fn missing_length_message() -> Seq<char> {
    "missing or invalid content-length from HEAD"@
}

/// The total size a HEAD response announces: its `Content-Length` parsed as an unsigned
/// integer, which must be positive.
pub open spec fn total_size_from_head_spec(content_length: Option<Seq<char>>) -> Option<u64> {
    match content_length {
        Some(v) => match parse_u64_spec(v) {
            Some(n) => if n > 0 { Some(n) } else { None },
            None => None,
        },
        None => None,
    }
}

/// The total size of a resource from the text of the `Content-Length` header of its HEAD
/// response (`None` when the header is absent or not text).
pub fn total_size_from_head(content_length: Option<&str>) -> (r: Result<u64, MeowError>)
    ensures
        match content_length {
            Some(v) => total_size_from_head_spec(Some(v@)),
            None => total_size_from_head_spec(None),
        } matches Some(n) ==> r == Ok::<u64, MeowError>(n),
        (match content_length {
            Some(v) => total_size_from_head_spec(Some(v@)),
            None => total_size_from_head_spec(None),
        }) is None ==> (r matches Err(e) && e.spec_code() == code_value(InnerErrorCode::HttpError)
            && e.spec_msg() == missing_length_message()),
{
    let parsed = match content_length {
        Some(v) => parse_u64(v),
        None => None,
    };
    match parsed {
        Some(n) => {
            if n > 0 {
                return Ok(n);
            }
        },
        None => {},
    }
    proof { reveal_strlit("missing or invalid content-length from HEAD"); }
    Err(MeowError::from_code_str(InnerErrorCode::HttpError, "missing or invalid content-length from HEAD"))
}

} // verus!
