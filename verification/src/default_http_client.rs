//! The decisions of the default HTTP transfer: where a resumed transfer continues, how big
//! the next chunk is, which `Range` it asks for, whether a ranged response can be trusted,
//! and where the transfer stands after a chunk. The requests themselves are sent by the
//! application.
use vstd::prelude::*;
use crate::chunk_outcome::ChunkOutcome;
use crate::error::{code_value, InnerErrorCode, MeowError};
use crate::http_breakpoint::UploadResumeInfo;
use crate::prepare_outcome::PrepareOutcome;
use crate::text::{all_digits, decimal, digit_value, law_decimal_round_trip, lemma_decimal_digits, parse_u64, parse_u64_spec, push_decimal};

verus! {

pub open spec fn min_u64(a: u64, b: u64) -> u64 {
    if a <= b { a } else { b }
}

pub open spec fn max_u64(a: u64, b: u64) -> u64 {
    if a >= b { a } else { b }
}

/// Where an upload continues after the preparation request: at the end if the server
/// already holds the whole file, otherwise at the larger of the local offset and the
/// server's `nextByte` (zero when absent), but never past the end.
pub open spec fn upload_prepare_spec(info_complete: bool, next_byte: Option<u64>, local_offset: u64, total: u64) -> PrepareOutcome {
    if info_complete {
        PrepareOutcome { next_offset: total, total_size: total }
    } else {
        let server = match next_byte { Some(n) => n, None => 0 };
        PrepareOutcome { next_offset: min_u64(max_u64(local_offset, server), total), total_size: total }
    }
}

/// The outcome of an upload's preparation from what the server answered.
pub fn upload_prepare_outcome(info: &UploadResumeInfo, local_offset: u64, total_size: u64) -> (r: PrepareOutcome)
    ensures
        r == upload_prepare_spec(info.completed_file_id is Some, info.next_byte, local_offset, total_size),
{
    if info.completed_file_id.is_some() {
        return PrepareOutcome { next_offset: total_size, total_size };
    }
    let server_off = match info.next_byte { Some(n) => n, None => 0 };
    let larger = if local_offset >= server_off { local_offset } else { server_off };
    let next = if larger <= total_size { larger } else { total_size };
    PrepareOutcome { next_offset: next, total_size }
}

/// The message when the local file is already longer than the remote resource.
pub open spec fn local_larger_message() -> Seq<char> {
    "local file larger than remote content-length"@
}

/// Where a download continues: at the length of what is already on disk, which must not
/// exceed the remote size.
pub fn download_prepare_outcome(local_len: u64, total_size: u64) -> (r: Result<PrepareOutcome, MeowError>)
    ensures
        local_len <= total_size ==> r == Ok::<PrepareOutcome, MeowError>(
            PrepareOutcome { next_offset: local_len, total_size }),
        local_len > total_size ==> (r matches Err(e) && e.spec_code() == code_value(InnerErrorCode::IoError)
            && e.spec_msg() == local_larger_message()),
{
    if local_len > total_size {
        proof { reveal_strlit("local file larger than remote content-length"); }
        return Err(MeowError::from_code_str(InnerErrorCode::IoError, "local file larger than remote content-length"));
    }
    if local_len >= total_size {
        return Ok(PrepareOutcome { next_offset: total_size, total_size });
    }
    Ok(PrepareOutcome { next_offset: local_len, total_size })
}

/// How many bytes the next upload chunk sends: the chunk size, cut at the end of the file;
/// zero when the offset is already at or past the end.
pub open spec fn upload_read_len_spec(offset: u64, chunk_size: u64, total: u64) -> u64 {
    if offset >= total { 0 } else { min_u64(chunk_size, (total - offset) as u64) }
}

/// The number of bytes to read and send for the upload chunk at `offset`.
pub fn upload_read_len(offset: u64, chunk_size: u64, total_size: u64) -> (n: u64)
    ensures
        n == upload_read_len_spec(offset, chunk_size, total_size),
        offset + n <= total_size || n == 0,
{
    if offset >= total_size {
        return 0;
    }
    let left = total_size - offset;
    if chunk_size <= left { chunk_size } else { left }
}

/// The outcome of an upload chunk that was not sent because nothing was left to send.
pub fn finished_chunk(offset: u64, total_size: u64) -> (r: ChunkOutcome)
    ensures
        r == (ChunkOutcome { next_offset: offset, total_size, done: true }),
{
    ChunkOutcome { next_offset: offset, total_size, done: true }
}

/// Where an upload stands after the server accepted `sent` bytes at `offset`: finished if
/// the server reports a file id, otherwise advanced by the bytes sent.
pub open spec fn upload_chunk_spec(info_complete: bool, offset: u64, sent: u64, total: u64) -> ChunkOutcome {
    if info_complete {
        ChunkOutcome { next_offset: total, total_size: total, done: true }
    } else {
        ChunkOutcome {
            next_offset: (offset + sent) as u64,
            total_size: total,
            done: offset + sent >= total,
        }
    }
}

pub fn upload_chunk_outcome(info: &UploadResumeInfo, offset: u64, sent: u64, total_size: u64) -> (r: ChunkOutcome)
    requires
        offset + sent <= u64::MAX,
    ensures
        r == upload_chunk_spec(info.completed_file_id is Some, offset, sent, total_size),
{
    if info.completed_file_id.is_some() {
        return ChunkOutcome { next_offset: total_size, total_size, done: true };
    }
    let next = offset + sent;
    ChunkOutcome { next_offset: next, total_size, done: next >= total_size }
}

/// The value of the `Range` header for a chunk: `bytes=START-` when the total is unknown
/// (zero), otherwise `bytes=START-END` with END the last byte of the chunk, cut at the last
/// byte of the resource.
pub open spec fn range_spec_text(start: u64, chunk_size: u64, total: u64) -> Seq<char> {
    if total == 0 {
        "bytes="@ + decimal(start as nat) + "-"@
    } else {
        let end = if start + chunk_size - 1 <= total - 1 { start + chunk_size - 1 } else { total - 1 };
        "bytes="@ + decimal(start as nat) + "-"@ + decimal(end as nat)
    }
}

/// The `Range` header value of the chunk that starts at `start`.
pub fn range_spec(start: u64, chunk_size: u64, total: u64) -> (s: String)
    requires
        total > 0 ==> 1 <= start + chunk_size <= u64::MAX,
    ensures
        s@ == range_spec_text(start, chunk_size, total),
{
    let mut s = String::new();
    s.append("bytes=");
    push_decimal(&mut s, start);
    s.append("-");
    if total == 0 {
        assert(s@ =~= range_spec_text(start, chunk_size, total));
        return s;
    }
    let upper = start + chunk_size - 1;
    let last = total - 1;
    let end = if upper <= last { upper } else { last };
    push_decimal(&mut s, end);
    assert(s@ =~= range_spec_text(start, chunk_size, total));
    s
}

/// The `Range` value of the next chunk of a download at `offset` of `total` bytes, or
/// `None` when nothing is left to fetch (the offset is at or past the total).
pub fn plan_download_range(offset: u64, chunk_size: u64, total: u64) -> (r: Option<String>)
    requires
        offset < total ==> 1 <= offset + chunk_size <= u64::MAX,
    ensures
        offset >= total ==> r is None,
        offset < total ==> (r matches Some(s) && s@ == range_spec_text(offset, chunk_size, total)),
{
    if offset >= total {
        None
    } else {
        Some(range_spec(offset, chunk_size, total))
    }
}

/// A parsed `Content-Range` header: first and last byte, and the total when given.
#[derive(Debug, Clone, Copy, PartialEq, Eq, Structural)]
pub struct ContentRange {
    pub start: u64,
    pub end: u64,
    pub total: Option<u64>,
}

/// The index of the first occurrence of `c` in `s`.
pub open spec fn first_index_of(s: Seq<char>, c: char) -> Option<int>
    decreases s.len(),
{
    if s.len() == 0 {
        None
    } else if s[0] == c {
        Some(0)
    } else {
        match first_index_of(s.drop_first(), c) {
            Some(i) => Some(i + 1),
            None => None,
        }
    }
}

proof fn lemma_first_index_of(s: Seq<char>, c: char)
    ensures
        first_index_of(s, c) matches Some(i) ==> 0 <= i < s.len() && s[i] == c,
    decreases s.len(),
{
    if s.len() > 0 && s[0] != c {
        lemma_first_index_of(s.drop_first(), c);
    }
}

/// What a `Content-Range` value means: `bytes START-END/TOTAL`, where TOTAL may be `*`.
pub open spec fn content_range_spec(s: Seq<char>) -> Option<ContentRange> {
    if s.len() < 6 || s.take(6) != "bytes "@ {
        None
    } else {
        let r = s.skip(6);
        match first_index_of(r, '-') {
            None => None,
            Some(i) => {
                let rest = r.skip(i + 1);
                match first_index_of(rest, '/') {
                    None => None,
                    Some(j) => {
                        let total_text = rest.skip(j + 1);
                        let total = if total_text == "*"@ {
                            Some(None::<u64>)
                        } else {
                            match parse_u64_spec(total_text) {
                                Some(t) => Some(Some(t)),
                                None => None,
                            }
                        };
                        match (parse_u64_spec(r.take(i)), parse_u64_spec(rest.take(j)), total) {
                            (Some(a), Some(b), Some(t)) => Some(ContentRange { start: a, end: b, total: t }),
                            _ => None,
                        }
                    },
                }
            },
        }
    }
}

/// The position of the first `c` in `s` at or after `from`.
fn find_char(s: &str, c: char, from: usize) -> (r: Option<usize>)
    requires
        from <= s@.len(),
    ensures
        match r {
            Some(k) => from <= k < s@.len() && first_index_of(s@.skip(from as int), c) == Some(k - from),
            None => first_index_of(s@.skip(from as int), c) is None,
        },
{
    proof { lemma_first_index_of(s@.skip(from as int), c); }
    let n = s.unicode_len();
    let mut i = from;
    while i < n
        invariant
            from <= i <= n,
            n == s@.len(),
            first_index_of(s@.skip(from as int), c) == (match first_index_of(s@.skip(i as int), c) {
                Some(k) => Some(k + (i - from)),
                None => None,
            }),
        decreases n - i,
    {
        assert(s@.skip(i as int).drop_first() =~= s@.skip(i + 1));
        if s.get_char(i) == c {
            return Some(i);
        }
        i = i + 1;
    }
    assert(s@.skip(i as int).len() == 0);
    None
}

/// Parses a `Content-Range` header value of the form `bytes START-END/TOTAL` (TOTAL may
/// be `*`).
pub fn parse_content_range(s: &str) -> (r: Option<ContentRange>)
    ensures
        r == content_range_spec(s@),
{
    let n = s.unicode_len();
    proof { reveal_strlit("bytes "); reveal_strlit("*"); }
    if n < 6 {
        return None;
    }
    let head = s.substring_char(0, 6);
    if head.unicode_len() != 6 || head.get_char(0) != 'b' || head.get_char(1) != 'y' || head.get_char(2) != 't'
        || head.get_char(3) != 'e' || head.get_char(4) != 's' || head.get_char(5) != ' ' {
        proof {
            if s@.take(6) == "bytes "@ {
                assert(head@ =~= s@.take(6));
            }
        }
        return None;
    }
    assert(s@.take(6) =~= "bytes "@);
    let ghost r = s@.skip(6);
    let dash = match find_char(s, '-', 6) {
        Some(d) => d,
        None => return None,
    };
    let ghost i = dash - 6;
    assert(r.skip(i + 1) =~= s@.skip(dash + 1));
    assert(first_index_of(r, '-') == Some(i));
    let slash = match find_char(s, '/', dash + 1) {
        Some(p) => p,
        None => {
            assert(first_index_of(r.skip(i + 1), '/') is None);
            return None;
        },
    };
    let ghost j = slash - (dash + 1);
    let start_text = s.substring_char(6, dash);
    let end_text = s.substring_char(dash + 1, slash);
    let total_text = s.substring_char(slash + 1, n);
    assert(start_text@ =~= r.take(i));
    assert(end_text@ =~= s@.skip(dash + 1).take(j));
    assert(total_text@ =~= s@.skip(dash + 1).skip(j + 1));
    let total: Option<u64> = if total_text.unicode_len() == 1 && total_text.get_char(0) == '*' {
        assert(total_text@ =~= "*"@);
        None
    } else {
        proof {
            if total_text@ == "*"@ {
                assert(total_text@.len() == 1 && total_text@[0] == '*');
            }
        }
        match parse_u64(total_text) {
            Some(t) => Some(t),
            None => {
                assert(first_index_of(r.skip(i + 1), '/') == Some(j));
                assert(total_text@ =~= r.skip(i + 1).skip(j + 1));
                return None;
            },
        }
    };
    let a = match parse_u64(start_text) { Some(a) => a, None => return None };
    let b = match parse_u64(end_text) { Some(b) => b, None => return None };
    Some(ContentRange { start: a, end: b, total })
}

/// The message when a ranged GET is not answered with `206 Partial Content`.
pub open spec fn not_partial_message(status: u16) -> Seq<char> {
    "range request requires 206 Partial Content, got status "@ + decimal(status as nat)
}

/// The message when a `206` response has no `Content-Range` header.
pub open spec fn missing_content_range_message() -> Seq<char> {
    "missing content-range header in 206 response"@
}

/// The message when the `Content-Range` header cannot be read.
pub open spec fn invalid_content_range_message(value: Seq<char>) -> Seq<char> {
    "invalid content-range: "@ + value
}

/// The message when the response covers bytes from another offset than requested.
pub open spec fn start_mismatch_message(expected: u64, got: u64) -> Seq<char> {
    "content-range start mismatch: expected "@ + decimal(expected as nat) + ", got "@ + decimal(got as nat)
}

/// Whether the answer to a ranged GET for the bytes from `offset` can be written at
/// `offset`: it must be `206 Partial Content` with a readable `Content-Range` whose first
/// byte is `offset` and whose last byte is not before it.
pub open spec fn range_response_spec(status: u16, content_range: Option<Seq<char>>, offset: u64) -> Result<ContentRange, Seq<char>> {
    if status != 206 {
        Err(not_partial_message(status))
    } else {
        match content_range {
            None => Err(missing_content_range_message()),
            Some(v) => match content_range_spec(v) {
                None => Err(invalid_content_range_message(v)),
                Some(cr) => if cr.start != offset {
                    Err(start_mismatch_message(offset, cr.start))
                } else if cr.end < cr.start {
                    Err(invalid_content_range_message(v))
                } else {
                    Ok(cr)
                },
            },
        }
    }
}

/// The `Content-Range` value a server writes for bytes `start` to `end` of a resource of
/// `total` bytes (`*` when the total is not told).
pub open spec fn content_range_text(start: u64, end: u64, total: Option<u64>) -> Seq<char> {
    "bytes "@ + decimal(start as nat) + "-"@ + decimal(end as nat) + "/"@ + match total {
        Some(t) => decimal(t as nat),
        None => "*"@,
    }
}

/// Looking for `c` past a prefix that does not hold it.
proof fn lemma_first_index_of_append(s: Seq<char>, t: Seq<char>, c: char)
    requires
        forall|i: int| 0 <= i < s.len() ==> s[i] != c,
    ensures
        first_index_of(s + t, c) == (match first_index_of(t, c) {
            Some(k) => Some(k + s.len()),
            None => None::<int>,
        }),
    decreases s.len(),
{
    if s.len() == 0 {
        assert(s + t =~= t);
    } else {
        assert((s + t).drop_first() =~= s.drop_first() + t);
        assert((s + t)[0] == s[0]);
        lemma_first_index_of_append(s.drop_first(), t, c);
    }
}

/// A digit string holds no character that is not a digit.
proof fn lemma_digits_lack(s: Seq<char>, c: char)
    requires
        all_digits(s),
        digit_value(c) is None,
    ensures
        forall|i: int| 0 <= i < s.len() ==> s[i] != c,
{
    assert forall|i: int| 0 <= i < s.len() implies s[i] != c by {
        assert(digit_value(s[i]) is Some);
    }
}

/// A server that answers exactly the range that was asked for is believed: a `206`
/// response whose `Content-Range` covers bytes from the requested offset to an end not
/// before it is accepted, and the range read back is the one the server wrote, total
/// included.
#[verifier::rlimit(60)]
pub proof fn law_exact_range_is_accepted(offset: u64, end: u64, total: Option<u64>)
    requires
        offset <= end,
    ensures
        range_response_spec(206, Some(content_range_text(offset, end, total)), offset)
            == Ok::<ContentRange, Seq<char>>(ContentRange { start: offset, end, total }),
{
    reveal_strlit("bytes ");
    reveal_strlit("-");
    reveal_strlit("/");
    reveal_strlit("*");
    let da = decimal(offset as nat);
    let db = decimal(end as nat);
    let dt = match total {
        Some(t) => decimal(t as nat),
        None => "*"@,
    };
    let v = content_range_text(offset, end, total);
    lemma_decimal_digits(offset as nat);
    lemma_decimal_digits(end as nat);
    law_decimal_round_trip(offset);
    law_decimal_round_trip(end);
    assert(v.take(6) =~= "bytes "@);
    let r = v.skip(6);
    let tail_a = "-"@ + (db + ("/"@ + dt));
    assert(r =~= da + tail_a);
    lemma_digits_lack(da, '-');
    lemma_first_index_of_append(da, tail_a, '-');
    assert(first_index_of(tail_a, '-') == Some(0int));
    let i = da.len() as int;
    assert(r.take(i) =~= da);
    let rest = r.skip(i + 1);
    let tail_b = "/"@ + dt;
    assert(rest =~= db + tail_b);
    lemma_digits_lack(db, '/');
    lemma_first_index_of_append(db, tail_b, '/');
    assert(first_index_of(tail_b, '/') == Some(0int));
    let j = db.len() as int;
    assert(rest.take(j) =~= db);
    assert(rest.skip(j + 1) =~= dt);
    match total {
        Some(t) => {
            lemma_decimal_digits(t as nat);
            law_decimal_round_trip(t);
            assert(digit_value(dt[0]) is Some);
            assert(dt != "*"@);
        },
        None => {},
    }
}

/// Checks the status and `Content-Range` of the answer to a ranged GET for the bytes from
/// `offset`; every refusal is an `InvalidRange` error.
pub fn check_range_response(status: u16, content_range: Option<&str>, offset: u64) -> (r: Result<ContentRange, MeowError>)
    ensures
        match range_response_spec(status, match content_range { Some(v) => Some(v@), None => None }, offset) {
            Ok(cr) => r == Ok::<ContentRange, MeowError>(cr),
            Err(m) => r matches Err(e) && e.spec_code() == code_value(InnerErrorCode::InvalidRange)
                && e.spec_msg() == m,
        },
{
    if status != 206 {
        let mut m = String::new();
        m.append("range request requires 206 Partial Content, got status ");
        push_decimal(&mut m, status as u64);
        assert(m@ =~= not_partial_message(status));
        return Err(MeowError::from_code(InnerErrorCode::InvalidRange, m));
    }
    let value = match content_range {
        Some(v) => v,
        None => {
            proof { reveal_strlit("missing content-range header in 206 response"); }
            return Err(MeowError::from_code_str(InnerErrorCode::InvalidRange, "missing content-range header in 206 response"));
        },
    };
    match parse_content_range(value) {
        None => {
            let mut m = String::new();
            m.append("invalid content-range: ");
            m.append(value);
            return Err(MeowError::from_code(InnerErrorCode::InvalidRange, m));
        },
        Some(cr) => {
            if cr.start != offset {
                let mut m = String::new();
                m.append("content-range start mismatch: expected ");
                push_decimal(&mut m, offset);
                m.append(", got ");
                push_decimal(&mut m, cr.start);
                assert(m@ =~= start_mismatch_message(offset, cr.start));
                return Err(MeowError::from_code(InnerErrorCode::InvalidRange, m));
            }
            if cr.end < cr.start {
                let mut m = String::new();
                m.append("invalid content-range: ");
                m.append(value);
                return Err(MeowError::from_code(InnerErrorCode::InvalidRange, m));
            }
            Ok(cr)
        },
    }
}

/// The message when a ranged GET returns no bytes.
pub open spec fn empty_body_message() -> Seq<char> {
    "download chunk empty body"@
}

/// Where a download stands after `received` bytes were written at `offset`; an empty body
/// is an error.
pub fn download_chunk_outcome(offset: u64, received: u64, total_size: u64) -> (r: Result<ChunkOutcome, MeowError>)
    requires
        offset + received <= u64::MAX,
    ensures
        received == 0 ==> (r matches Err(e) && e.spec_code() == code_value(InnerErrorCode::HttpError)
            && e.spec_msg() == empty_body_message()),
        received > 0 ==> r == Ok::<ChunkOutcome, MeowError>(ChunkOutcome {
            next_offset: (offset + received) as u64,
            total_size,
            done: offset + received >= total_size,
        }),
{
    if received == 0 {
        proof { reveal_strlit("download chunk empty body"); }
        return Err(MeowError::from_code_str(InnerErrorCode::HttpError, "download chunk empty body"));
    }
    let next = offset + received;
    Ok(ChunkOutcome { next_offset: next, total_size, done: next >= total_size })
}

/// Where a resumed upload continues. A finished upload goes to its end. Otherwise it never
/// goes past the end, never goes back before the progress kept locally or the server's
/// `nextByte` (unless it reaches the end), and never goes beyond what either side knows to
/// be uploaded: without a `nextByte`, it continues at the local offset.
pub proof fn law_upload_resume_point(complete: bool, next_byte: Option<u64>, local_offset: u64, total: u64)
    ensures
        ({
            let r = upload_prepare_spec(complete, next_byte, local_offset, total);
            &&& r.total_size == total
            &&& complete ==> r.next_offset == total
            &&& !complete ==> r.next_offset <= total
            &&& !complete ==> (r.next_offset >= local_offset || r.next_offset == total)
            &&& !complete && next_byte is Some ==> (r.next_offset >= next_byte.unwrap() || r.next_offset == total)
            &&& !complete ==> (r.next_offset <= local_offset
                || (next_byte is Some && r.next_offset <= next_byte.unwrap()))
            &&& !complete && next_byte is None && local_offset <= total ==> r.next_offset == local_offset
        }),
{
}

/// A ranged answer is accepted only if it is a `206` whose `Content-Range` reads as a
/// range that starts exactly at the requested offset and does not end before it starts;
/// the range accepted is the one read. In particular bytes that start elsewhere are
/// never accepted for the requested offset.
pub proof fn law_accepted_range_starts_at_offset(status: u16, content_range: Option<Seq<char>>, offset: u64)
    ensures
        match range_response_spec(status, content_range, offset) {
            Ok(cr) => {
                &&& status == 206
                &&& content_range is Some
                &&& content_range_spec(content_range.unwrap()) == Some(cr)
                &&& cr.start == offset
                &&& cr.start <= cr.end
            },
            Err(_) => true,
        },
        (content_range matches Some(v) && content_range_spec(v) matches Some(c) && c.start != offset)
            ==> range_response_spec(status, content_range, offset) is Err,
        status != 206 ==> range_response_spec(status, content_range, offset) is Err,
{
}

} // verus!
