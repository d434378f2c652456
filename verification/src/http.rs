//! Requests to and responses from the Docker Engine API over HTTP/1.1.

use vstd::prelude::*;
use vstd::string::StringExecFns;
use vstd::utf8::{decode_utf8, encode_utf8, valid_utf8};
use crate::bytes::{
    find_bytes, first_occurrence, lemma_byte_absent, lemma_byte_first_at, lemma_first_occurrence,
    lemma_first_occurrence_at, occurs_at,
};
use crate::chunked::{ChunkError, chunk_error_message, chunk_error_text, dechunk, try_decode_chunked};
use crate::text::{
    all_ascii, ascii, decimal, decimal_string, lemma_ascii_utf8, lemma_decimal_ascii,
    lemma_decimal_value, lossy_string, parse_unsigned, parse_unsigned_bytes, trim,
    trim_str, utf8_lossy, utf8_str, utf8_string,
};

verus! {

// ---------------------------------------------------------------------------
// Lines and fields of an HTTP header block
// ---------------------------------------------------------------------------

pub open spec fn blank_line() -> Seq<u8> {
    seq![0x0Du8, 0x0Au8, 0x0Du8, 0x0Au8]
}

/// A line without the `\r` that may end it.
pub open spec fn strip_cr(line: Seq<u8>) -> Seq<u8> {
    if line.len() > 0 && line.last() == 0x0D {
        line.drop_last()
    } else {
        line
    }
}

/// The first line of a text, as `str::lines` yields it.
pub open spec fn first_line(h: Seq<u8>) -> Seq<u8> {
    match first_occurrence(h, seq![0x0Au8]) {
        Some(k) => strip_cr(h.subrange(0, k)),
        None => h,
    }
}

/// The text after the first line and its `\n`.
pub open spec fn after_first_line(h: Seq<u8>) -> Seq<u8> {
    match first_occurrence(h, seq![0x0Au8]) {
        Some(k) => h.subrange(k + 1, h.len() as int),
        None => Seq::empty(),
    }
}

pub open spec fn ascii_lower(b: u8) -> u8 {
    if 0x41 <= b <= 0x5A {
        (b + 0x20) as u8
    } else {
        b
    }
}

pub open spec fn lowercase(s: Seq<u8>) -> Seq<u8> {
    s.map_values(|b: u8| ascii_lower(b))
}

/// Equality up to ASCII case, as `eq_ignore_ascii_case`.
pub open spec fn eq_ignore_case(a: Seq<u8>, b: Seq<u8>) -> bool {
    lowercase(a) == lowercase(b)
}

#[verifier::opaque]
pub open spec fn transfer_encoding_name() -> Seq<u8> {
    seq![0x74u8, 0x72, 0x61, 0x6E, 0x73, 0x66, 0x65, 0x72, 0x2D, 0x65, 0x6E, 0x63, 0x6F, 0x64, 0x69, 0x6E, 0x67]
}

#[verifier::opaque]
pub open spec fn chunked_word() -> Seq<u8> {
    seq![0x63u8, 0x68, 0x75, 0x6E, 0x6B, 0x65, 0x64]
}

/// A header line `Transfer-Encoding: ...` (any case) whose value mentions
/// `chunked` (any case).
pub open spec fn is_chunked_header(line: Seq<u8>) -> bool {
    match first_occurrence(line, seq![0x3Au8]) {
        Some(k) => eq_ignore_case(line.subrange(0, k), transfer_encoding_name())
            && first_occurrence(lowercase(line.subrange(k + 1, line.len() as int)), chunked_word()) is Some,
        None => false,
    }
}

/// Some line of `h` is a chunked `Transfer-Encoding` header.
pub open spec fn chunked_in_lines(h: Seq<u8>) -> bool
    decreases h.len(),
{
    if h.len() == 0 {
        false
    } else {
        match first_occurrence(h, seq![0x0Au8]) {
            Some(k) => {
                proof {
                    lemma_first_occurrence(h, seq![0x0Au8]);
                }
                is_chunked_header(strip_cr(h.subrange(0, k))) || chunked_in_lines(
                    h.subrange(k + 1, h.len() as int),
                )
            },
            None => is_chunked_header(h),
        }
    }
}

/// The first three space-separated fields of a status line, as
/// `splitn(3, ' ')` yields them: the last holds the rest of the line.
pub open spec fn status_fields(line: Seq<u8>) -> (Seq<u8>, Option<Seq<u8>>, Option<Seq<u8>>) {
    match first_occurrence(line, seq![0x20u8]) {
        None => (line, None, None),
        Some(i) => {
            let tail = line.subrange(i + 1, line.len() as int);
            match first_occurrence(tail, seq![0x20u8]) {
                None => (line.subrange(0, i), Some(tail), None),
                Some(j) => (
                    line.subrange(0, i),
                    Some(tail.subrange(0, j)),
                    Some(tail.subrange(j + 1, tail.len() as int)),
                ),
            }
        },
    }
}

// ---------------------------------------------------------------------------
// Responses of the Docker Engine API
// ---------------------------------------------------------------------------

/// A response of the Docker Engine API: its status code, reason phrase and
/// body (already decoded from chunked transfer coding).
#[derive(Debug)]
pub struct DockerResponse {
    pub status: u16,
    pub reason: String,
    pub body: Vec<u8>,
}

/// Why a response could not be read.
#[derive(Clone, Copy, Debug, PartialEq, Eq, Structural)]
pub enum ResponseError {
    /// No blank line ends the header block.
    Malformed,
    /// The header block is not UTF-8.
    NonUtf8Headers,
    /// The header block is empty.
    MissingStatus,
    /// The status line has no second field.
    MissingStatusCode,
    /// The second field is not a `u16`.
    InvalidStatusCode,
    /// The chunked body is broken.
    Chunked(ChunkError),
}

pub open spec fn response_error_message(e: ResponseError) -> Seq<char> {
    match e {
        ResponseError::Malformed => "malformed Docker API response"@,
        ResponseError::NonUtf8Headers => "non-UTF-8 Docker API headers"@,
        ResponseError::MissingStatus => "missing Docker API status"@,
        ResponseError::MissingStatusCode => "missing Docker API status code"@,
        ResponseError::InvalidStatusCode => "invalid Docker API status code"@,
        ResponseError::Chunked(c) => chunk_error_message(c),
    }
}

/// The message by which a response error is reported.
pub fn response_error_text(e: ResponseError) -> (res: String)
    ensures
        res@ == response_error_message(e),
{
    match e {
        ResponseError::Malformed => "malformed Docker API response".to_owned(),
        ResponseError::NonUtf8Headers => "non-UTF-8 Docker API headers".to_owned(),
        ResponseError::MissingStatus => "missing Docker API status".to_owned(),
        ResponseError::MissingStatusCode => "missing Docker API status code".to_owned(),
        ResponseError::InvalidStatusCode => "invalid Docker API status code".to_owned(),
        ResponseError::Chunked(c) => chunk_error_text(c),
    }
}

/// What a response holds, in mathematical terms.
pub struct ResponseView {
    pub status: u16,
    pub reason: Seq<char>,
    pub body: Seq<u8>,
}

pub open spec fn response_view(r: DockerResponse) -> ResponseView {
    ResponseView { status: r.status, reason: r.reason@, body: r.body@ }
}

/// How a raw response is read: the header block ends at the first blank line
/// and must be UTF-8; its first line holds the HTTP version, the status code
/// and the reason phrase; a chunked `Transfer-Encoding` header in a later
/// line makes the body chunked. The outer `None` marks a chunk size too large
/// for the arithmetic on it.
pub open spec fn read_response(raw: Seq<u8>) -> Option<Result<ResponseView, ResponseError>> {
    match first_occurrence(raw, blank_line()) {
        None => Some(Err(ResponseError::Malformed)),
        Some(he) => {
            let h = raw.subrange(0, he);
            if !valid_utf8(h) {
                Some(Err(ResponseError::NonUtf8Headers))
            } else if h.len() == 0 {
                Some(Err(ResponseError::MissingStatus))
            } else {
                let fields = status_fields(first_line(h));
                match fields.1 {
                    None => Some(Err(ResponseError::MissingStatusCode)),
                    Some(code) => match parse_unsigned(code, 10, 65535) {
                        None => Some(Err(ResponseError::InvalidStatusCode)),
                        Some(status) => {
                            let reason = match fields.2 {
                                Some(r) => decode_utf8(r),
                                None => Seq::empty(),
                            };
                            let body = raw.subrange(he + 4, raw.len() as int);
                            if chunked_in_lines(after_first_line(h)) {
                                match dechunk(body) {
                                    None => None,
                                    Some(Err(e)) => Some(Err(ResponseError::Chunked(e))),
                                    Some(Ok(d)) => Some(
                                        Ok(ResponseView { status: status as u16, reason, body: d }),
                                    ),
                                }
                            } else {
                                Some(Ok(ResponseView { status: status as u16, reason, body }))
                            }
                        },
                    },
                }
            }
        },
    }
}


/// The first position of byte `b` in `s`.
pub fn find_byte(s: &[u8], b: u8) -> (res: Option<usize>)
    ensures
        match res {
            Some(i) => first_occurrence(s@, seq![b]) == Some(i as int) && i < s.len() && s@[i as int] == b,
            None => first_occurrence(s@, seq![b]) is None,
        },
{
    let needle: [u8; 1] = [b];
    assert(needle@ =~= seq![b]);
    let r = find_bytes(s, &needle);
    if let Some(i) = r {
        assert(s@.subrange(i as int, i + 1)[0] == s@[i as int]);
    }
    r
}

fn strip_cr_slice(line: &[u8]) -> (res: &[u8])
    ensures
        res@ == strip_cr(line@),
{
    if line.len() > 0 && line[line.len() - 1] == 0x0D {
        &line[0..line.len() - 1]
    } else {
        line
    }
}

fn lowercase_vec(s: &[u8]) -> (res: Vec<u8>)
    ensures
        res@ == lowercase(s@),
{
    let mut out: Vec<u8> = Vec::new();
    let mut i: usize = 0;
    while i < s.len()
        invariant
            i <= s@.len(),
            out@ =~= lowercase(s@.subrange(0, i as int)),
        decreases s@.len() - i,
    {
        let b = s[i];
        let l = if 0x41 <= b && b <= 0x5A { b + 0x20 } else { b };
        out.push(l);
        i = i + 1;
        assert(out@ =~= lowercase(s@.subrange(0, i as int)));
    }
    assert(s@.subrange(0, i as int) =~= s@);
    out
}

/// Compares two byte strings up to ASCII case.
pub fn eq_ignore_ascii_case(a: &[u8], b: &[u8]) -> (res: bool)
    ensures
        res == eq_ignore_case(a@, b@),
{
    if a.len() != b.len() {
        assert(lowercase(a@).len() != lowercase(b@).len());
        return false;
    }
    let la = lowercase_vec(a);
    let lb = lowercase_vec(b);
    let mut i: usize = 0;
    while i < la.len()
        invariant
            la@ == lowercase(a@),
            lb@ == lowercase(b@),
            la@.len() == lb@.len(),
            i <= la@.len(),
            forall|k: int| 0 <= k < i ==> la@[k] == lb@[k],
        decreases la@.len() - i,
    {
        if la[i] != lb[i] {
            return false;
        }
        i = i + 1;
    }
    assert(la@ =~= lb@);
    true
}

fn transfer_encoding_bytes() -> (res: [u8; 17])
    ensures
        res@ == transfer_encoding_name(),
{
    let r: [u8; 17] = [
        0x74, 0x72, 0x61, 0x6E, 0x73, 0x66, 0x65, 0x72, 0x2D, 0x65, 0x6E, 0x63, 0x6F, 0x64, 0x69,
        0x6E, 0x67,
    ];
    reveal(transfer_encoding_name);
    assert(r@ =~= transfer_encoding_name());
    r
}

fn chunked_bytes() -> (res: [u8; 7])
    ensures
        res@ == chunked_word(),
{
    let r: [u8; 7] = [0x63, 0x68, 0x75, 0x6E, 0x6B, 0x65, 0x64];
    reveal(chunked_word);
    assert(r@ =~= chunked_word());
    r
}

fn is_chunked_header_exec(line: &[u8]) -> (res: bool)
    ensures
        res == is_chunked_header(line@),
{
    match find_byte(line, 0x3A) {
        None => false,
        Some(k) => {
            let name = transfer_encoding_bytes();
            let head = &line[0..k];
            let same = eq_ignore_ascii_case(head, &name);
            if !same {
                return false;
            }
            let tail = &line[k + 1..line.len()];
            let value = lowercase_vec(tail);
            let word = chunked_bytes();
            let found = find_bytes(value.as_slice(), &word);
            let r = found.is_some();
            assert(r == (first_occurrence(lowercase(tail@), chunked_word()) is Some));
            r
        },
    }
}

/// Whether some line of a header block announces chunked transfer coding.
fn lines_chunked(h: &[u8]) -> (res: bool)
    ensures
        res == chunked_in_lines(h@),
{
    let mut pos: usize = 0;
    assert(h@.subrange(0, h@.len() as int) =~= h@);
    loop
        invariant
            pos <= h@.len(),
            chunked_in_lines(h@) == chunked_in_lines(h@.subrange(pos as int, h@.len() as int)),
        decreases h@.len() - pos,
    {
        let s = &h[pos..h.len()];
        if s.len() == 0 {
            return false;
        }
        match find_byte(s, 0x0A) {
            None => {
                return is_chunked_header_exec(s);
            },
            Some(k) => {
                proof {
                    lemma_first_occurrence(s@, seq![0x0Au8]);
                }
                if is_chunked_header_exec(strip_cr_slice(&s[0..k])) {
                    return true;
                }
                assert(s@.subrange(k + 1, s@.len() as int) =~= h@.subrange(pos + k + 1, h@.len() as int));
                pos = pos + k + 1;
            },
        }
    }
}


/// The protocol name and version of a status line, `HTTP/1.1`.
pub open spec fn http11() -> Seq<u8> {
    seq![0x48u8, 0x54, 0x54, 0x50, 0x2F, 0x31, 0x2E, 0x31]
}

/// A status line: version, status code and reason phrase, separated by spaces.
pub open spec fn status_line(code: u16, reason: Seq<u8>) -> Seq<u8> {
    http11() + seq![0x20u8] + decimal(code as nat) + seq![0x20u8] + reason
}

/// A response with no header fields and a body sent as it is.
pub open spec fn plain_response(code: u16, reason: Seq<u8>, body: Seq<u8>) -> Seq<u8> {
    status_line(code, reason) + blank_line() + body
}

/// Printable ASCII, as a reason phrase is written.
pub open spec fn printable(s: Seq<u8>) -> bool {
    forall|i: int| 0 <= i < s.len() ==> 0x20 <= #[trigger] s[i] <= 0x7E
}

/// Reading gives back what was written: a response without header fields
/// and with a printable reason phrase reads as its status code, its reason
/// phrase and its body, whatever the body holds.
pub proof fn read_response_of_plain_response(code: u16, reason: Seq<u8>, body: Seq<u8>)
    requires
        printable(reason),
    ensures
        read_response(plain_response(code, reason, body)) == Some(
            Ok::<ResponseView, ResponseError>(
                ResponseView { status: code, reason: ascii(reason), body },
            ),
        ),
{
    let digits = decimal(code as nat);
    lemma_decimal_value(code as nat);
    lemma_decimal_ascii(code as nat);
    let line = status_line(code, reason);
    let raw = plain_response(code, reason, body);
    let v = http11();
    let tail = digits + seq![0x20u8] + reason;
    assert(line =~= v + seq![0x20u8] + tail);
    // The status line holds neither CR nor LF, and only ASCII.
    assert forall|i: int| 0 <= i < line.len() implies #[trigger] line[i] != 0x0D && line[i] != 0x0A
        && line[i] < 0x80 by {
        if i < 9 {
        } else if i < 9 + digits.len() {
            assert(line[i] == digits[i - 9]);
            assert(0x30 <= digits[i - 9] <= 0x39);
        } else if i == 9 + digits.len() {
        } else {
            assert(line[i] == reason[i - 10 - digits.len()]);
        }
    }
    // The header block is the status line.
    assert(raw.subrange(line.len() as int, line.len() + 4int) =~= blank_line());
    assert forall|j: int| 0 <= j < line.len() implies !occurs_at(raw, blank_line(), j) by {
        assert(raw[j] == line[j]);
        if occurs_at(raw, blank_line(), j) {
            assert(raw.subrange(j, j + 4)[0] == raw[j]);
        }
    }
    lemma_first_occurrence_at(raw, blank_line(), line.len() as int);
    let h = raw.subrange(0, line.len() as int);
    assert(h =~= line);
    assert(all_ascii(line));
    lemma_ascii_utf8(line);
    // It is its own first line, with nothing after it.
    lemma_byte_absent(line, 0x0A);
    assert(first_line(h) == line);
    assert(after_first_line(h) =~= Seq::<u8>::empty());
    // Its fields split at the two spaces.
    lemma_byte_first_at(line, 0x20, 8);
    assert(line.subrange(9, line.len() as int) =~= tail);
    lemma_byte_first_at(tail, 0x20, digits.len() as int);
    assert(tail.subrange(0, digits.len() as int) =~= digits);
    assert(tail.subrange(digits.len() + 1int, tail.len() as int) =~= reason);
    assert(digits[0] != 0x2B);
    assert(crate::text::unsigned_digits(digits) == digits);
    assert(all_ascii(reason));
    lemma_ascii_utf8(reason);
    assert(raw.subrange(line.len() + 4int, raw.len() as int) =~= body);
}

/// Reads a raw response of the Docker Engine API (see `read_response`).
/// `None` stands where a chunk size leaves no room for the arithmetic on it.
pub fn parse_response(raw: &[u8]) -> (res: Option<Result<DockerResponse, String>>)
    ensures
        match read_response(raw@) {
            None => res is None,
            Some(Ok(v)) => res matches Some(Ok(r)) && response_view(r) == v,
            Some(Err(e)) => res matches Some(Err(m)) && m@ == response_error_message(e),
        },
{
    let marker: [u8; 4] = [0x0D, 0x0A, 0x0D, 0x0A];
    assert(marker@ =~= blank_line());
    let he = match find_bytes(raw, &marker) {
        Some(e) => e,
        None => return Some(Err(response_error_text(ResponseError::Malformed))),
    };
    proof {
        lemma_first_occurrence(raw@, blank_line());
    }
    let h = &raw[0..he];
    if utf8_str(h).is_none() {
        return Some(Err(response_error_text(ResponseError::NonUtf8Headers)));
    }
    if he == 0 {
        return Some(Err(response_error_text(ResponseError::MissingStatus)));
    }
    let (line, rest): (&[u8], &[u8]) = match find_byte(h, 0x0A) {
        Some(k) => {
            proof {
                crate::text::lemma_split_at_ascii(h@, k as int);
            }
            let line_raw = &h[0..k];
            proof {
                if line_raw@.len() > 0 && line_raw@.last() == 0x0D {
                    crate::text::lemma_split_at_ascii(line_raw@, line_raw@.len() - 1);
                }
            }
            (strip_cr_slice(line_raw), &h[k + 1..he])
        },
        None => (h, &h[he..he]),
    };
    assert(rest@ =~= after_first_line(h@));
    assert(line@ == first_line(h@));
    assert(valid_utf8(line@));
    let sp1 = match find_byte(line, 0x20) {
        Some(i) => i,
        None => return Some(Err(response_error_text(ResponseError::MissingStatusCode))),
    };
    let tail = &line[sp1 + 1..line.len()];
    proof {
        crate::text::lemma_split_at_ascii(line@, sp1 as int);
    }
    let (code, reason_bytes): (&[u8], &[u8]) = match find_byte(tail, 0x20) {
        Some(j) => {
            proof {
                crate::text::lemma_split_at_ascii(tail@, j as int);
            }
            (&tail[0..j], &tail[j + 1..tail.len()])
        },
        None => (tail, &tail[0..0]),
    };
    let ghost fields = status_fields(line@);
    assert(fields.1 == Some(code@));
    assert(valid_utf8(reason_bytes@)) by {
        if fields.2 is None {
            assert(reason_bytes@ =~= Seq::<u8>::empty());
        }
    }
    let status = match parse_unsigned_bytes(code, 10, 65535) {
        Some(v) => v,
        None => return Some(Err(response_error_text(ResponseError::InvalidStatusCode))),
    };
    let reason = match utf8_string(vstd::slice::slice_to_vec(reason_bytes)) {
        Some(r) => r,
        None => {
            assert(false);
            return None;
        },
    };
    assert(reason@ == (match fields.2 {
        Some(r) => decode_utf8(r),
        None => Seq::empty(),
    })) by {
        if fields.2 is None {
            assert(reason_bytes@ =~= Seq::<u8>::empty());
        }
    }
    assert(he + 4 <= raw.len());
    let body_bytes = &raw[he + 4..raw.len()];
    let chunked = lines_chunked(rest);
    if chunked {
        match try_decode_chunked(body_bytes) {
            None => None,
            Some(Err(e)) => Some(Err(response_error_text(ResponseError::Chunked(e)))),
            Some(Ok(d)) => Some(Ok(DockerResponse { status: status as u16, reason, body: d })),
        }
    } else {
        Some(Ok(DockerResponse { status: status as u16, reason, body: vstd::slice::slice_to_vec(body_bytes) }))
    }
}


/// The message that reports an unexpected response: its status, its reason
/// phrase and its body, read as UTF-8 with ill-formed parts replaced and
/// trimmed of whitespace.
pub open spec fn docker_error_message(status: u16, reason: Seq<char>, body: Seq<u8>) -> Seq<char> {
    "Docker API returned "@ + ascii(decimal(status as nat)) + " "@ + reason + ": "@ + trim(
        utf8_lossy(body),
    )
}

/// Describes a response that the caller did not expect.
pub fn docker_error(response: &DockerResponse) -> (res: String)
    ensures
        res@ == docker_error_message(response.status, response.reason@, response.body@),
{
    let mut out = "Docker API returned ".to_owned();
    let code = decimal_string(response.status as u64);
    out.append(code.as_str());
    out.append(" ");
    out.append(response.reason.as_str());
    out.append(": ");
    let text = lossy_string(response.body.as_slice());
    out.append(trim_str(text.as_str()));
    out
}

// ---------------------------------------------------------------------------
// Requests to the Docker Engine API
// ---------------------------------------------------------------------------

/// The HTTP methods that the controller uses.
#[derive(Clone, Copy, Debug, PartialEq, Eq, Structural)]
pub enum Method {
    Get,
    Post,
}

pub open spec fn method_name(m: Method) -> Seq<char> {
    match m {
        Method::Get => "GET"@,
        Method::Post => "POST"@,
    }
}

/// One request to the Docker Engine API: a method, a path with its query,
/// and a JSON body (empty when there is none).
#[derive(Debug)]
pub struct DockerCall {
    pub method: Method,
    pub path: String,
    pub body: Vec<u8>,
}

/// The bytes of a request: a request line, fixed headers that close the
/// connection after the response and announce a JSON body of the body's
/// length, a blank line and the body.
pub open spec fn request_bytes(method: Method, path: Seq<char>, body: Seq<u8>) -> Seq<u8> {
    encode_utf8(
        method_name(method) + " "@ + path
            + " HTTP/1.1\r\nHost: docker\r\nConnection: close\r\nContent-Type: application/json\r\nContent-Length: "@
            + ascii(decimal(body.len())) + "\r\n\r\n"@,
    ) + body
}

/// Writes the bytes of a request to the Docker Engine API.
pub fn encode_request(call: &DockerCall) -> (res: Vec<u8>)
    ensures
        res@ == request_bytes(call.method, call.path@, call.body@),
{
    let mut head = match call.method {
        Method::Get => "GET".to_owned(),
        Method::Post => "POST".to_owned(),
    };
    head.append(" ");
    head.append(call.path.as_str());
    head.append(
        " HTTP/1.1\r\nHost: docker\r\nConnection: close\r\nContent-Type: application/json\r\nContent-Length: ",
    );
    let length = decimal_string(call.body.len() as u64);
    head.append(length.as_str());
    head.append("\r\n\r\n");
    let mut out = vstd::slice::slice_to_vec(head.as_str().as_bytes());
    out.extend_from_slice(call.body.as_slice());
    assert(out@ =~= request_bytes(call.method, call.path@, call.body@));
    out
}

// ---------------------------------------------------------------------------
// Header lines, wherever they stand
// ---------------------------------------------------------------------------

/// Position `p` begins a line of `h`: the text's start or just after a `\n`.
pub open spec fn is_line_start(h: Seq<u8>, p: int) -> bool {
    0 <= p < h.len() && (p == 0 || h[p - 1] == 0x0A)
}

/// The line that begins at `p`: up to the next `\n` (not included, nor a `\r`
/// before it) or to the end of the text.
pub open spec fn line_at(h: Seq<u8>, p: int) -> Seq<u8> {
    let t = h.subrange(p, h.len() as int);
    match first_occurrence(t, seq![0x0Au8]) {
        Some(k) => strip_cr(t.subrange(0, k)),
        None => t,
    }
}

/// How the lines of a text after its first `\n` (at `k`) sit in the whole
/// text: they begin at the same places, shifted by `k + 1`, and read alike.
pub proof fn lemma_line_shift(h: Seq<u8>, k: int, p: int)
    requires
        first_occurrence(h, seq![0x0Au8]) == Some(k),
        0 < p,
    ensures
        is_line_start(h, p) <==> (p >= k + 1 && is_line_start(h.subrange(k + 1, h.len() as int), p - k - 1)),
        p >= k + 1 && p <= h.len() ==> line_at(h, p) == line_at(h.subrange(k + 1, h.len() as int), p - k - 1),
{
    lemma_first_occurrence(h, seq![0x0Au8]);
    let h2 = h.subrange(k + 1, h.len() as int);
    if 0 < p <= k {
        assert(!occurs_at(h, seq![0x0Au8], p - 1));
        if h[p - 1] == 0x0A {
            assert(h.subrange(p - 1, p) =~= seq![0x0Au8]);
        }
    }
    if p == k + 1 {
        assert(h.subrange(k, k + 1)[0] == h[k]);
    }
    if p > k + 1 && p < h.len() {
        assert(h2[p - k - 2] == h[p - 1]);
    }
    if p >= k + 1 && p <= h.len() {
        assert(h.subrange(p, h.len() as int) =~= h2.subrange(p - k - 1, h2.len() as int));
    }
}

/// The only line of a text without `\n` is the whole text.
pub proof fn lemma_single_line(h: Seq<u8>, p: int)
    requires
        first_occurrence(h, seq![0x0Au8]) is None,
    ensures
        is_line_start(h, p) <==> (p == 0 && h.len() > 0),
        line_at(h, 0) == h,
{
    lemma_first_occurrence(h, seq![0x0Au8]);
    if 0 < p <= h.len() {
        assert(!occurs_at(h, seq![0x0Au8], p - 1));
        if h[p - 1] == 0x0A {
            assert(h.subrange(p - 1, p) =~= seq![0x0Au8]);
        }
    }
    assert(h.subrange(0, h.len() as int) =~= h);
}

/// The line at the start of a text with a `\n` at `k` ends there.
pub proof fn lemma_first_line_at(h: Seq<u8>, k: int)
    requires
        first_occurrence(h, seq![0x0Au8]) == Some(k),
    ensures
        line_at(h, 0) == strip_cr(h.subrange(0, k)),
        is_line_start(h, 0),
{
    lemma_first_occurrence(h, seq![0x0Au8]);
    assert(h.subrange(0, h.len() as int) =~= h);
}

/// Line `p` of `h` is a chunked `Transfer-Encoding` header.
pub open spec fn chunked_line_at(h: Seq<u8>, p: int) -> bool {
    is_line_start(h, p) && is_chunked_header(line_at(h, p))
}

/// A text announces chunked coding exactly when one of its lines, wherever
/// it stands, is a chunked `Transfer-Encoding` header.
pub proof fn chunked_in_any_line(h: Seq<u8>)
    ensures
        chunked_in_lines(h) <==> exists|p: int| #[trigger] chunked_line_at(h, p),
    decreases h.len(),
{
    if h.len() > 0 {
        lemma_first_occurrence(h, seq![0x0Au8]);
        match first_occurrence(h, seq![0x0Au8]) {
            Some(k) => {
                let h2 = h.subrange(k + 1, h.len() as int);
                chunked_in_any_line(h2);
                lemma_first_line_at(h, k);
                if chunked_in_lines(h) {
                    if !is_chunked_header(strip_cr(h.subrange(0, k))) {
                        let q = choose|q: int| #[trigger] chunked_line_at(h2, q);
                        lemma_line_shift(h, k, q + k + 1);
                        assert(chunked_line_at(h, q + k + 1));
                    } else {
                        assert(chunked_line_at(h, 0));
                    }
                }
                if exists|p: int| #[trigger] chunked_line_at(h, p) {
                    let p = choose|p: int| #[trigger] chunked_line_at(h, p);
                    if p > 0 {
                        lemma_line_shift(h, k, p);
                        assert(chunked_line_at(h2, p - k - 1));
                    }
                }
            },
            None => {
                lemma_single_line(h, 0);
                if exists|p: int| #[trigger] chunked_line_at(h, p) {
                    let p = choose|p: int| #[trigger] chunked_line_at(h, p);
                    lemma_single_line(h, p);
                }
                if chunked_in_lines(h) {
                    assert(chunked_line_at(h, 0));
                }
            },
        }
    }
}

/// The lines after the status line are the lines of the header block that
/// begin after its start, and read alike.
proof fn lemma_after_status_line(h: Seq<u8>)
    ensures
        chunked_in_lines(after_first_line(h)) <==> exists|p: int| p > 0 && #[trigger] chunked_line_at(h, p),
{
    lemma_first_occurrence(h, seq![0x0Au8]);
    let rest = after_first_line(h);
    chunked_in_any_line(rest);
    match first_occurrence(h, seq![0x0Au8]) {
        Some(k) => {
            if chunked_in_lines(rest) {
                let q = choose|q: int| #[trigger] chunked_line_at(rest, q);
                lemma_line_shift(h, k, q + k + 1);
                assert(chunked_line_at(h, q + k + 1));
            }
            if exists|p: int| p > 0 && #[trigger] chunked_line_at(h, p) {
                let p = choose|p: int| p > 0 && #[trigger] chunked_line_at(h, p);
                lemma_line_shift(h, k, p);
                assert(chunked_line_at(rest, p - k - 1));
            }
        },
        None => {
            if exists|p: int| p > 0 && #[trigger] chunked_line_at(h, p) {
                let p = choose|p: int| p > 0 && #[trigger] chunked_line_at(h, p);
                lemma_single_line(h, p);
            }
        },
    }
}

/// A response is read with its body decoded from chunked coding exactly
/// when some header line after the status line, wherever it stands, is a
/// chunked `Transfer-Encoding` header; otherwise its body is the bytes after
/// the blank line as they are.
pub proof fn chunked_header_in_any_line_decodes_body(raw: Seq<u8>)
    requires
        read_response(raw) matches Some(Ok(_)),
    ensures
        first_occurrence(raw, blank_line()) is Some,
        ({
            let he = first_occurrence(raw, blank_line()).unwrap();
            let h = raw.subrange(0, he);
            let body = raw.subrange(he + 4, raw.len() as int);
            let v = read_response(raw).unwrap().unwrap();
            &&& (exists|p: int| p > 0 && #[trigger] chunked_line_at(h, p)) ==> dechunk(body) == Some(
                Ok::<Seq<u8>, ChunkError>(v.body),
            )
            &&& !(exists|p: int| p > 0 && #[trigger] chunked_line_at(h, p)) ==> v.body == body
        }),
{
    let he = first_occurrence(raw, blank_line()).unwrap();
    lemma_after_status_line(raw.subrange(0, he));
}

// ---------------------------------------------------------------------------
// Header names and values are read without regard to ASCII case
// ---------------------------------------------------------------------------

proof fn lemma_lowercase_twice(s: Seq<u8>)
    ensures
        lowercase(lowercase(s)) == lowercase(s),
        lowercase(s).len() == s.len(),
{
    assert(lowercase(lowercase(s)) =~= lowercase(s));
}

proof fn lemma_lowercase_subrange(s: Seq<u8>, a: int, b: int)
    requires
        0 <= a <= b <= s.len(),
    ensures
        lowercase(s).subrange(a, b) == lowercase(s.subrange(a, b)),
{
    assert(lowercase(s).subrange(a, b) =~= lowercase(s.subrange(a, b)));
}

/// Lower-casing keeps the places of a byte that is not a letter.
pub proof fn lemma_lowercase_keeps_byte(s: Seq<u8>, b: u8)
    requires
        !(0x41 <= b <= 0x5A),
        !(0x61 <= b <= 0x7A),
    ensures
        first_occurrence(lowercase(s), seq![b]) == first_occurrence(s, seq![b]),
{
    let l = lowercase(s);
    assert forall|i: int| 0 <= i < s.len() implies (l[i] == b <==> s[i] == b) by {}
    lemma_first_occurrence(s, seq![b]);
    match first_occurrence(s, seq![b]) {
        Some(k) => {
            assert(s.subrange(k, k + 1)[0] == s[k]);
            assert forall|i: int| 0 <= i < k implies l[i] != b by {
                assert(!occurs_at(s, seq![b], i));
                if s[i] == b {
                    assert(s.subrange(i, i + 1) =~= seq![b]);
                }
            }
            lemma_byte_first_at(l, b, k);
        },
        None => {
            assert forall|i: int| 0 <= i < l.len() implies l[i] != b by {
                assert(!occurs_at(s, seq![b], i));
                if s[i] == b {
                    assert(s.subrange(i, i + 1) =~= seq![b]);
                }
            }
            lemma_byte_absent(l, b);
        },
    }
}

/// Whether a line announces chunked coding does not depend on the case of
/// its letters.
pub proof fn chunked_header_ignores_case(line: Seq<u8>)
    ensures
        is_chunked_header(lowercase(line)) == is_chunked_header(line),
{
    lemma_lowercase_keeps_byte(line, 0x3A);
    lemma_lowercase_twice(line);
    if let Some(k) = first_occurrence(line, seq![0x3Au8]) {
        lemma_first_occurrence(line, seq![0x3Au8]);
        lemma_lowercase_subrange(line, 0, k);
        lemma_lowercase_subrange(line, k + 1, line.len() as int);
        lemma_lowercase_twice(line.subrange(0, k));
        lemma_lowercase_twice(line.subrange(k + 1, line.len() as int));
    }
}

} // verus!
