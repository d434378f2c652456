//! The control socket: how requests are read and routed, how replies are
//! framed, the health check and the command line.

use vstd::prelude::*;
use vstd::string::StringExecFns;
use vstd::utf8::{decode_utf8, encode_utf8, valid_utf8};
use crate::bytes::{bytes_eq, find_bytes, first_occurrence, lemma_first_occurrence, starts_with};
use crate::http::{
    is_line_start, lemma_first_line_at, lemma_line_shift, lemma_single_line, line_at,
    after_first_line, blank_line, lowercase, lemma_lowercase_keeps_byte, eq_ignore_ascii_case, eq_ignore_case, find_byte, first_line,
    strip_cr,
};
use crate::json::{reply_body, reply_body_text};
use crate::text::{ascii, decimal, decimal_string, parse_unsigned, parse_unsigned_bytes, trim, trim_str, utf8_str};

verus! {

/// The most bytes that a request on the control socket may hold before its
/// header block is complete.
pub const MAX_REQUEST_HEADER: usize = 8192;

/// Whether the controller reads more of a request: it stops once the
/// request exceeds the limit or holds a blank line.
pub open spec fn wants_more(request: Seq<u8>) -> bool {
    request.len() <= MAX_REQUEST_HEADER && first_occurrence(request, blank_line()) is None
}

/// Decides whether to read more of a request on the control socket.
pub fn keep_reading(request: &[u8]) -> (res: bool)
    ensures
        res == wants_more(request@),
{
    if request.len() > MAX_REQUEST_HEADER {
        return false;
    }
    let marker: [u8; 4] = [0x0D, 0x0A, 0x0D, 0x0A];
    assert(marker@ =~= blank_line());
    find_bytes(request, &marker).is_none()
}

/// What the controller does with a request on its control socket.
#[derive(Clone, Copy, Debug, PartialEq, Eq, Structural)]
pub enum Route {
    /// The request grew beyond the limit before its headers ended.
    TooLarge,
    /// The request ended before its headers did.
    Incomplete,
    /// The header block is not UTF-8.
    Invalid,
    /// `GET /health`.
    Health,
    /// An empty `POST /apply` without parameters.
    Apply,
    /// Any other `POST /apply...`.
    BadApply,
    /// Anything else.
    NotFound,
}

pub open spec fn content_length_name() -> Seq<u8> {
    encode_utf8("content-length"@)
}

/// A header line named `Content-Length` in any case.
pub open spec fn is_content_length_header(line: Seq<u8>) -> bool {
    match first_occurrence(line, seq![0x3Au8]) {
        Some(k) => eq_ignore_case(line.subrange(0, k), content_length_name()),
        None => false,
    }
}

/// The value of a `Content-Length` line, read as `usize` after trimming.
pub open spec fn content_length_value(line: Seq<u8>) -> Option<nat> {
    match first_occurrence(line, seq![0x3Au8]) {
        Some(k) => parse_unsigned(
            encode_utf8(trim(decode_utf8(line.subrange(k + 1, line.len() as int)))),
            10,
            usize::MAX as nat,
        ),
        None => None,
    }
}

/// The value that the first `Content-Length` line of `h` gives, if any line
/// is one (`Some(None)` when that line's value is not a number).
pub open spec fn first_content_length(h: Seq<u8>) -> Option<Option<nat>>
    decreases h.len(),
{
    if h.len() == 0 {
        None
    } else {
        match first_occurrence(h, seq![0x0Au8]) {
            Some(k) => {
                proof {
                    lemma_first_occurrence(h, seq![0x0Au8]);
                }
                let line = strip_cr(h.subrange(0, k));
                if is_content_length_header(line) {
                    Some(content_length_value(line))
                } else {
                    first_content_length(h.subrange(k + 1, h.len() as int))
                }
            },
            None => if is_content_length_header(h) {
                Some(content_length_value(h))
            } else {
                None
            },
        }
    }
}

/// The announced body length: that of the first `Content-Length` line, or 0
/// when there is none or its value is not a number.
pub open spec fn content_length(h: Seq<u8>) -> nat {
    match first_content_length(h) {
        Some(Some(n)) => n,
        _ => 0,
    }
}

pub open spec fn health_line() -> Seq<u8> {
    encode_utf8("GET /health HTTP/1.1"@)
}

pub open spec fn apply_line() -> Seq<u8> {
    encode_utf8("POST /apply HTTP/1.1"@)
}

pub open spec fn apply_prefix() -> Seq<u8> {
    encode_utf8("POST /apply"@)
}

/// How a complete read of a request is routed. Only the exact request line
/// `POST /apply HTTP/1.1`, with no announced body and nothing after the
/// blank line, starts an apply.
pub open spec fn route_of(request: Seq<u8>) -> Route {
    if request.len() > MAX_REQUEST_HEADER {
        Route::TooLarge
    } else {
        match first_occurrence(request, blank_line()) {
            None => Route::Incomplete,
            Some(he) => {
                let h = request.subrange(0, he);
                if !valid_utf8(h) {
                    Route::Invalid
                } else {
                    let line = first_line(h);
                    if line == health_line() {
                        Route::Health
                    } else if line == apply_line() && content_length(after_first_line(h)) == 0
                        && request.len() == he + 4 {
                        Route::Apply
                    } else if apply_prefix().len() <= line.len() && line.subrange(
                        0,
                        apply_prefix().len() as int,
                    ) == apply_prefix() {
                        Route::BadApply
                    } else {
                        Route::NotFound
                    }
                }
            },
        }
    }
}

fn content_length_line(line: &[u8]) -> (res: Option<Option<u64>>)
    requires
        valid_utf8(line@),
    ensures
        is_content_length_header(line@) <==> res is Some,
        res matches Some(v) ==> (match content_length_value(line@) {
            Some(n) => v == Some(n as u64),
            None => v is None,
        }),
{
    match find_byte(line, 0x3A) {
        None => None,
        Some(k) => {
            let name = "content-length".as_bytes();
            if !eq_ignore_ascii_case(&line[0..k], name) {
                return None;
            }
            proof {
                crate::text::lemma_split_at_ascii(line@, k as int);
            }
            let value = match utf8_str(&line[k + 1..line.len()]) {
                Some(v) => v,
                None => {
                    assert(false);
                    return None;
                },
            };
            let trimmed = trim_str(value);
            Some(parse_unsigned_bytes(trimmed.as_bytes(), 10, usize::MAX as u64))
        },
    }
}

fn content_length_exec(h: &[u8]) -> (res: u64)
    requires
        valid_utf8(h@),
    ensures
        res as nat == content_length(h@),
{
    let mut pos: usize = 0;
    assert(h@.subrange(0, h@.len() as int) =~= h@);
    loop
        invariant
            pos <= h@.len(),
            valid_utf8(h@.subrange(pos as int, h@.len() as int)),
            first_content_length(h@) == first_content_length(h@.subrange(pos as int, h@.len() as int)),
        decreases h@.len() - pos,
    {
        let s = &h[pos..h.len()];
        if s.len() == 0 {
            return 0;
        }
        match find_byte(s, 0x0A) {
            None => {
                return match content_length_line(s) {
                    Some(Some(n)) => n,
                    _ => 0,
                };
            },
            Some(k) => {
                proof {
                    lemma_first_occurrence(s@, seq![0x0Au8]);
                    crate::text::lemma_split_at_ascii(s@, k as int);
                }
                let raw = &s[0..k];
                let line: &[u8] = if raw.len() > 0 && raw[raw.len() - 1] == 0x0D {
                    proof {
                        crate::text::lemma_split_at_ascii(raw@, raw@.len() - 1);
                    }
                    &raw[0..raw.len() - 1]
                } else {
                    raw
                };
                assert(line@ == strip_cr(s@.subrange(0, k as int)));
                match content_length_line(line) {
                    Some(Some(n)) => return n,
                    Some(None) => return 0,
                    None => {},
                }
                assert(s@.subrange(k + 1, s@.len() as int) =~= h@.subrange(pos + k + 1, h@.len() as int));
                pos = pos + k + 1;
            },
        }
    }
}

/// Routes a request read from the control socket (see `route_of`).
pub fn route(request: &[u8]) -> (res: Route)
    ensures
        res == route_of(request@),
{
    if request.len() > MAX_REQUEST_HEADER {
        return Route::TooLarge;
    }
    let marker: [u8; 4] = [0x0D, 0x0A, 0x0D, 0x0A];
    assert(marker@ =~= blank_line());
    let he = match find_bytes(request, &marker) {
        Some(e) => e,
        None => return Route::Incomplete,
    };
    let h = &request[0..he];
    if utf8_str(h).is_none() {
        return Route::Invalid;
    }
    let (line, rest): (&[u8], &[u8]) = match find_byte(h, 0x0A) {
        Some(k) => {
            proof {
                crate::text::lemma_split_at_ascii(h@, k as int);
            }
            let raw = &h[0..k];
            let l: &[u8] = if raw.len() > 0 && raw[raw.len() - 1] == 0x0D {
                &raw[0..raw.len() - 1]
            } else {
                raw
            };
            (l, &h[k + 1..he])
        },
        None => (h, &h[he..he]),
    };
    assert(line@ == first_line(h@));
    assert(rest@ =~= after_first_line(h@));
    if bytes_eq(line, "GET /health HTTP/1.1".as_bytes()) {
        return Route::Health;
    }
    let is_apply = bytes_eq(line, "POST /apply HTTP/1.1".as_bytes());
    if is_apply {
        let length = content_length_exec(rest);
        assert(he + 4 <= request.len());
        if length == 0 && request.len() == he + 4 {
            return Route::Apply;
        }
    }
    if starts_with(line, "POST /apply".as_bytes()) {
        Route::BadApply
    } else {
        Route::NotFound
    }
}


/// The status lines of the replies on the control socket.
#[derive(Clone, Copy, Debug, PartialEq, Eq, Structural)]
pub enum ReplyStatus {
    Success,
    BadRequest,
    NotFound,
    Conflict,
    Unprocessable,
    HeadersTooLarge,
    InternalError,
}

pub open spec fn status_text(s: ReplyStatus) -> Seq<char> {
    match s {
        ReplyStatus::Success => "200 OK"@,
        ReplyStatus::BadRequest => "400 Bad Request"@,
        ReplyStatus::NotFound => "404 Not Found"@,
        ReplyStatus::Conflict => "409 Conflict"@,
        ReplyStatus::Unprocessable => "422 Unprocessable Entity"@,
        ReplyStatus::HeadersTooLarge => "431 Request Header Fields Too Large"@,
        ReplyStatus::InternalError => "500 Internal Server Error"@,
    }
}

fn status_string(s: ReplyStatus) -> (res: String)
    ensures
        res@ == status_text(s),
{
    match s {
        ReplyStatus::Success => "200 OK".to_owned(),
        ReplyStatus::BadRequest => "400 Bad Request".to_owned(),
        ReplyStatus::NotFound => "404 Not Found".to_owned(),
        ReplyStatus::Conflict => "409 Conflict".to_owned(),
        ReplyStatus::Unprocessable => "422 Unprocessable Entity".to_owned(),
        ReplyStatus::HeadersTooLarge => "431 Request Header Fields Too Large".to_owned(),
        ReplyStatus::InternalError => "500 Internal Server Error".to_owned(),
    }
}

/// The bytes of a reply on the control socket: a status line, headers that
/// announce an uncached JSON body of its length and close the connection, a
/// blank line and the body.
pub open spec fn reply_bytes(status: ReplyStatus, ok: bool, message: Seq<char>) -> Seq<u8> {
    let body = reply_body(ok, message);
    encode_utf8(
        "HTTP/1.1 "@ + status_text(status)
            + "\r\nContent-Type: application/json\r\nCache-Control: no-store\r\nConnection: close\r\nContent-Length: "@
            + ascii(decimal(encode_utf8(body).len())) + "\r\n\r\n"@ + body,
    )
}

/// Writes a reply on the control socket.
pub fn json_response(status: ReplyStatus, ok: bool, message: &str) -> (res: Vec<u8>)
    ensures
        res@ == reply_bytes(status, ok, message@),
{
    let body = reply_body_text(ok, message);
    let mut text = "HTTP/1.1 ".to_owned();
    text.append(status_string(status).as_str());
    text.append(
        "\r\nContent-Type: application/json\r\nCache-Control: no-store\r\nConnection: close\r\nContent-Length: ",
    );
    let length = body.as_str().as_bytes().len();
    text.append(decimal_string(length as u64).as_str());
    text.append("\r\n\r\n");
    text.append(body.as_str());
    vstd::slice::slice_to_vec(text.as_str().as_bytes())
}

/// The fixed reply to each route but `Apply`, as (status, success, message).
pub open spec fn fixed_reply(route: Route) -> (ReplyStatus, bool, Seq<char>) {
    match route {
        Route::TooLarge => (ReplyStatus::HeadersTooLarge, false, "request headers too large"@),
        Route::Incomplete => (ReplyStatus::BadRequest, false, "incomplete request"@),
        Route::Invalid => (ReplyStatus::BadRequest, false, "invalid request"@),
        Route::Health => (ReplyStatus::Success, true, "healthy"@),
        Route::BadApply => (
            ReplyStatus::BadRequest,
            false,
            "only an empty, parameterless POST /apply is accepted"@,
        ),
        Route::NotFound | Route::Apply => (ReplyStatus::NotFound, false, "not found"@),
    }
}

/// The reply to a request that does not start an apply.
pub fn route_reply(route: Route) -> (res: Vec<u8>)
    requires
        route != Route::Apply,
    ensures
        res@ == reply_bytes(fixed_reply(route).0, fixed_reply(route).1, fixed_reply(route).2),
{
    match route {
        Route::TooLarge => json_response(ReplyStatus::HeadersTooLarge, false, "request headers too large"),
        Route::Incomplete => json_response(ReplyStatus::BadRequest, false, "incomplete request"),
        Route::Invalid => json_response(ReplyStatus::BadRequest, false, "invalid request"),
        Route::Health => json_response(ReplyStatus::Success, true, "healthy"),
        Route::BadApply => json_response(
            ReplyStatus::BadRequest,
            false,
            "only an empty, parameterless POST /apply is accepted",
        ),
        _ => json_response(ReplyStatus::NotFound, false, "not found"),
    }
}

/// The reply when an apply cannot start because the apply lock is held
/// (`busy`) or broken (a previous holder panicked).
pub fn lock_refused_reply(busy: bool) -> (res: Vec<u8>)
    ensures
        busy ==> res@ == reply_bytes(ReplyStatus::Conflict, false, "an apply operation is already running"@),
        !busy ==> res@ == reply_bytes(ReplyStatus::InternalError, false, "controller lock is unavailable"@),
{
    if busy {
        json_response(ReplyStatus::Conflict, false, "an apply operation is already running")
    } else {
        json_response(ReplyStatus::InternalError, false, "controller lock is unavailable")
    }
}

/// The reply that reports the outcome of an apply: its message on success,
/// its error otherwise.
pub fn apply_reply(outcome: &Result<String, String>) -> (res: Vec<u8>)
    ensures
        match outcome {
            Ok(m) => res@ == reply_bytes(ReplyStatus::Success, true, m@),
            Err(e) => res@ == reply_bytes(ReplyStatus::Unprocessable, false, e@),
        },
{
    match outcome {
        Ok(m) => json_response(ReplyStatus::Success, true, m.as_str()),
        Err(e) => json_response(ReplyStatus::Unprocessable, false, e.as_str()),
    }
}

// ---------------------------------------------------------------------------
// The health check and the command line
// ---------------------------------------------------------------------------

/// The request by which the health check asks the controller about itself.
pub open spec fn health_request_bytes() -> Seq<u8> {
    encode_utf8("GET /health HTTP/1.1\r\nHost: localhost\r\nConnection: close\r\n\r\n"@)
}

pub fn health_request() -> (res: Vec<u8>)
    ensures
        res@ == health_request_bytes(),
{
    vstd::slice::slice_to_vec("GET /health HTTP/1.1\r\nHost: localhost\r\nConnection: close\r\n\r\n".as_bytes())
}

pub open spec fn healthy_prefix() -> Seq<u8> {
    encode_utf8("HTTP/1.1 200 OK\r\n"@)
}

/// The reply begins with a `200 OK` status line.
pub open spec fn is_healthy(response: Seq<u8>) -> bool {
    healthy_prefix().len() <= response.len() && response.subrange(0, healthy_prefix().len() as int)
        == healthy_prefix()
}

/// The health check passes when the reply begins with a `200 OK` status line.
pub fn health_ok(response: &[u8]) -> (res: bool)
    ensures
        res == is_healthy(response@),
{
    starts_with(response, "HTTP/1.1 200 OK\r\n".as_bytes())
}

/// What the program is asked to do.
#[derive(Clone, Copy, Debug, PartialEq, Eq, Structural)]
pub enum Command {
    /// No argument: serve the control socket.
    Serve,
    /// The single argument `healthcheck`: probe a running controller.
    Healthcheck,
    /// Anything else is refused.
    Refuse,
}

/// The command that the program's arguments (its own name first) ask for.
pub open spec fn command_of(args: Seq<Seq<char>>) -> Command {
    if args.len() == 1 {
        Command::Serve
    } else if args.len() == 2 && args[1] == "healthcheck"@ {
        Command::Healthcheck
    } else {
        Command::Refuse
    }
}

/// Chooses what to do from the command line.
pub fn parse_command(args: &Vec<String>) -> (res: Command)
    ensures
        res == command_of(args@.map_values(|a: String| a@)),
{
    let ghost views = args@.map_values(|a: String| a@);
    if args.len() == 1 {
        Command::Serve
    } else if args.len() == 2 {
        let expected = "healthcheck".to_owned();
        if args[1] == expected {
            Command::Healthcheck
        } else {
            Command::Refuse
        }
    } else {
        Command::Refuse
    }
}

/// The message with which refused arguments are reported.
pub fn refusal_message() -> (res: String)
    ensures
        res@ == "no command-line arguments are accepted"@,
{
    "no command-line arguments are accepted".to_owned()
}


// ---------------------------------------------------------------------------
// Laws of the control socket
// ---------------------------------------------------------------------------

/// An apply starts only for a bare `POST /apply HTTP/1.1`: its header block
/// is complete and UTF-8, it announces no body, and nothing follows the
/// blank line.
pub proof fn apply_only_for_bare_post(request: Seq<u8>)
    requires
        route_of(request) == Route::Apply,
    ensures
        request.len() <= MAX_REQUEST_HEADER,
        first_occurrence(request, blank_line()) is Some,
        ({
            let he = first_occurrence(request, blank_line()).unwrap();
            let h = request.subrange(0, he);
            &&& valid_utf8(h)
            &&& first_line(h) == apply_line()
            &&& content_length(after_first_line(h)) == 0
            &&& request.len() == he + 4
        }),
{
}

/// The health check accepts a reply of the control socket exactly when its
/// status is `200 OK`, whatever its message.
pub proof fn health_check_accepts_only_success(status: ReplyStatus, ok: bool, message: Seq<char>)
    ensures
        is_healthy(reply_bytes(status, ok, message)) <==> status == ReplyStatus::Success,
{
    let body = reply_body(ok, message);
    let fields = "\r\nContent-Type: application/json\r\nCache-Control: no-store\r\nConnection: close\r\nContent-Length: "@;
    let rest = fields + ascii(decimal(encode_utf8(body).len())) + "\r\n\r\n"@ + body;
    let version = "HTTP/1.1 "@;
    let line = version + status_text(status);
    let text = "HTTP/1.1 "@ + status_text(status) + fields + ascii(
        decimal(encode_utf8(body).len()),
    ) + "\r\n\r\n"@ + body;
    assert(text =~= line + rest);
    reveal_strlit("HTTP/1.1 ");
    reveal_strlit("HTTP/1.1 200 OK\r\n");
    reveal_strlit("\r\nContent-Type: application/json\r\nCache-Control: no-store\r\nConnection: close\r\nContent-Length: ");
    reveal_strlit("200 OK");
    reveal_strlit("400 Bad Request");
    reveal_strlit("404 Not Found");
    reveal_strlit("409 Conflict");
    reveal_strlit("422 Unprocessable Entity");
    reveal_strlit("431 Request Header Fields Too Large");
    reveal_strlit("500 Internal Server Error");
    let expected = "HTTP/1.1 200 OK\r\n"@;
    let head = text.subrange(0, 10);
    assert(text =~= head + text.subrange(10, text.len() as int));
    assert(vstd::utf8::is_ascii_chars(head));
    crate::text::lemma_encode_ascii_prefix(head, text.subrange(10, text.len() as int));
    assert(vstd::utf8::is_ascii_chars(expected));
    vstd::utf8::is_ascii_chars_encode_utf8(expected);
    let bytes = reply_bytes(status, ok, message);
    assert(bytes == encode_utf8(text));
    assert(healthy_prefix().len() == 17);
    if status == ReplyStatus::Success {
        let p = text.subrange(0, 17);
        assert(p =~= expected);
        assert(text =~= p + text.subrange(17, text.len() as int));
        crate::text::lemma_encode_ascii_prefix(p, text.subrange(17, text.len() as int));
        assert(bytes.subrange(0, 17) =~= healthy_prefix());
    } else {
        assert(bytes[9] == head[9] as u8);
        assert(head[9] != '2');
        assert(healthy_prefix()[9] == expected[9] as u8);
        if is_healthy(bytes) {
            assert(bytes.subrange(0, 17)[9] == bytes[9]);
        }
    }
}

/// The health check's own request is routed to the health reply, which the
/// health check accepts: probing a serving controller succeeds.
#[verifier::rlimit(50)]
pub proof fn health_request_is_answered_healthy()
    ensures
        route_of(health_request_bytes()) == Route::Health,
        fixed_reply(Route::Health).0 == ReplyStatus::Success,
        is_healthy(
            reply_bytes(
                fixed_reply(Route::Health).0,
                fixed_reply(Route::Health).1,
                fixed_reply(Route::Health).2,
            ),
        ),
{
    reveal_strlit("GET /health HTTP/1.1\r\nHost: localhost\r\nConnection: close\r\n\r\n");
    reveal_strlit("GET /health HTTP/1.1");
    let text = "GET /health HTTP/1.1\r\nHost: localhost\r\nConnection: close\r\n\r\n"@;
    let line_text = "GET /health HTTP/1.1"@;
    assert(text.len() == 60);
    assert(line_text.len() == 20);
    assert(vstd::utf8::is_ascii_chars(text));
    assert(vstd::utf8::is_ascii_chars(line_text));
    vstd::utf8::is_ascii_chars_encode_utf8(text);
    vstd::utf8::is_ascii_chars_encode_utf8(line_text);
    let bytes = health_request_bytes();
    assert(bytes.len() == 60);
    assert(bytes.subrange(56, 60) =~= blank_line());
    assert forall|j: int| 0 <= j < 56 implies !crate::bytes::occurs_at(bytes, blank_line(), j) by {
        if crate::bytes::occurs_at(bytes, blank_line(), j) {
            assert(bytes.subrange(j, j + 4)[0] == bytes[j]);
            assert(bytes.subrange(j, j + 4)[2] == bytes[j + 2]);
            assert(bytes[j] == text[j] as u8);
            assert(bytes[j + 2] == text[j + 2] as u8);
        }
    }
    crate::bytes::lemma_first_occurrence_at(bytes, blank_line(), 56);
    let h = bytes.subrange(0, 56);
    assert(crate::text::all_ascii(h)) by {
        assert forall|i: int| 0 <= i < h.len() implies #[trigger] h[i] < 0x80 by {
            assert(h[i] == text[i] as u8);
        }
    }
    crate::text::lemma_ascii_utf8(h);
    assert forall|i: int| 0 <= i < 21 implies h[i] != 0x0A by {
        assert(h[i] == text[i] as u8);
    }
    assert(h[21] == 0x0A);
    crate::bytes::lemma_byte_first_at(h, 0x0A, 21);
    assert(h.subrange(0, 21).last() == 0x0D);
    assert(strip_cr(h.subrange(0, 21)) =~= h.subrange(0, 20));
    assert(h.subrange(0, 20) =~= health_line()) by {
        assert forall|i: int| 0 <= i < 20 implies #[trigger] h.subrange(0, 20)[i] == health_line()[i] by {
            assert(h[i] == text[i] as u8);
            assert(health_line()[i] == line_text[i] as u8);
        }
    }
    assert(first_line(h) == health_line());
    health_check_accepts_only_success(ReplyStatus::Success, true, "healthy"@);
}

/// Line `p` of `h` is a `Content-Length` header.
pub open spec fn length_line_at(h: Seq<u8>, p: int) -> bool {
    is_line_start(h, p) && is_content_length_header(line_at(h, p))
}

/// The first `Content-Length` line decides, wherever it stands among the
/// lines: its value is the one taken.
pub proof fn first_length_line_decides(h: Seq<u8>, p: int)
    requires
        length_line_at(h, p),
        forall|q: int| 0 <= q < p ==> !length_line_at(h, q),
    ensures
        first_content_length(h) == Some(content_length_value(line_at(h, p))),
    decreases h.len(),
{
    lemma_first_occurrence(h, seq![0x0Au8]);
    match first_occurrence(h, seq![0x0Au8]) {
        Some(k) => {
            lemma_first_line_at(h, k);
            if p > 0 {
                assert(!length_line_at(h, 0));
                let h2 = h.subrange(k + 1, h.len() as int);
                lemma_line_shift(h, k, p);
                let p2 = p - k - 1;
                assert forall|q: int| 0 <= q < p2 implies !length_line_at(h2, q) by {
                    lemma_line_shift(h, k, q + k + 1);
                    assert(!length_line_at(h, q + k + 1));
                }
                first_length_line_decides(h2, p2);
            }
        },
        None => {
            lemma_single_line(h, p);
            lemma_single_line(h, 0);
        },
    }
}

/// Without a `Content-Length` line, none is found.
pub proof fn no_length_line(h: Seq<u8>)
    requires
        forall|q: int| !length_line_at(h, q),
    ensures
        first_content_length(h) is None,
    decreases h.len(),
{
    if h.len() > 0 {
        lemma_first_occurrence(h, seq![0x0Au8]);
        match first_occurrence(h, seq![0x0Au8]) {
            Some(k) => {
                lemma_first_line_at(h, k);
                assert(!length_line_at(h, 0));
                let h2 = h.subrange(k + 1, h.len() as int);
                assert forall|q: int| !length_line_at(h2, q) by {
                    if q >= 0 {
                        lemma_line_shift(h, k, q + k + 1);
                        assert(!length_line_at(h, q + k + 1));
                    }
                }
                no_length_line(h2);
            },
            None => {
                lemma_single_line(h, 0);
                assert(!length_line_at(h, 0));
            },
        }
    }
}

/// An apply never starts for a request that announces a body: whichever
/// header line, after the request line, is the first `Content-Length` line,
/// its value is 0 or not a number.
pub proof fn apply_only_without_announced_body(request: Seq<u8>, p: int)
    requires
        route_of(request) == Route::Apply,
    ensures
        first_occurrence(request, blank_line()) is Some,
        ({
            let h = request.subrange(0, first_occurrence(request, blank_line()).unwrap());
            (p > 0 && length_line_at(h, p) && forall|q: int| 0 < q < p ==> !length_line_at(h, q))
                ==> (content_length_value(line_at(h, p)) matches Some(n) ==> n == 0)
        }),
{
    let h = request.subrange(0, first_occurrence(request, blank_line()).unwrap());
    if p > 0 && length_line_at(h, p) && forall|q: int| 0 < q < p ==> !length_line_at(h, q) {
        lemma_first_occurrence(h, seq![0x0Au8]);
        match first_occurrence(h, seq![0x0Au8]) {
            Some(k) => {
                let rest = h.subrange(k + 1, h.len() as int);
                assert(rest == after_first_line(h));
                lemma_line_shift(h, k, p);
                let p2 = p - k - 1;
                assert forall|q: int| 0 <= q < p2 implies !length_line_at(rest, q) by {
                    lemma_line_shift(h, k, q + k + 1);
                    assert(!length_line_at(h, q + k + 1));
                }
                first_length_line_decides(rest, p2);
            },
            None => {
                lemma_single_line(h, p);
            },
        }
    }
}

/// The status line of every reply but an apply's tells the outcome as its
/// body does: only the health route reports success, and only its reply
/// passes for a 200 answer; every refused request gets an error status.
pub proof fn refusals_carry_error_status(route: Route)
    requires
        route != Route::Apply,
    ensures
        fixed_reply(route).1 <==> route == Route::Health,
        is_healthy(reply_bytes(fixed_reply(route).0, fixed_reply(route).1, fixed_reply(route).2))
            <==> route == Route::Health,
{
    health_check_accepts_only_success(fixed_reply(route).0, fixed_reply(route).1, fixed_reply(route).2);
}

/// Whether a line is a `Content-Length` header does not depend on the case
/// of its letters.
pub proof fn content_length_header_ignores_case(line: Seq<u8>)
    ensures
        is_content_length_header(lowercase(line)) == is_content_length_header(line),
{
    lemma_lowercase_keeps_byte(line, 0x3A);
    assert(lowercase(lowercase(line)) =~= lowercase(line));
    if let Some(k) = first_occurrence(line, seq![0x3Au8]) {
        lemma_first_occurrence(line, seq![0x3Au8]);
        assert(lowercase(line).subrange(0, k) =~= lowercase(line.subrange(0, k)));
        assert(lowercase(lowercase(line.subrange(0, k))) =~= lowercase(line.subrange(0, k)));
    }
}

} // verus!
