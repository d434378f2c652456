use xray_controller::chunked::decode_chunked;
use xray_controller::control::{
    health_ok, health_request, json_response, route, route_reply, ReplyStatus, Route,
};
use xray_controller::http::parse_response;
use xray_controller::percent::percent_encode;

fn chunked(chunks: &[&[u8]]) -> Vec<u8> {
    let mut out = Vec::new();
    for c in chunks {
        out.extend_from_slice(format!("{:X}\r\n", c.len()).as_bytes());
        out.extend_from_slice(c);
        out.extend_from_slice(b"\r\n");
    }
    out.extend_from_slice(b"0\r\n\r\n");
    out
}

#[test]
fn chunked_coding_decodes_to_its_data() {
    let data: Vec<u8> = (0..=255u8).collect();
    let body = chunked(&[b"\r\n", &data, b"x"]);
    let mut expected = b"\r\n".to_vec();
    expected.extend_from_slice(&data);
    expected.push(b'x');
    assert_eq!(decode_chunked(&body), Ok(expected));
    assert_eq!(decode_chunked(&chunked(&[])), Ok(Vec::new()));
}

#[test]
fn plain_response_reads_back() {
    let body = b"\r\n\r\n\x00\xff{}";
    let mut raw = b"HTTP/1.1 201 Created\r\n\r\n".to_vec();
    raw.extend_from_slice(body);
    let r = parse_response(&raw).unwrap().unwrap();
    assert_eq!(r.status, 201);
    assert_eq!(r.reason, "Created");
    assert_eq!(r.body, body.to_vec());
}

#[test]
fn percent_encoding_uses_only_query_safe_bytes() {
    let all: String = (1u32..0x250).filter_map(char::from_u32).collect();
    let encoded = percent_encode(&all);
    assert!(encoded.bytes().all(|b| b.is_ascii_alphanumeric() || b"-_.~%".contains(&b)));
}

#[test]
fn health_check_accepts_only_success_replies() {
    assert!(health_ok(&json_response(ReplyStatus::Success, false, "anything")));
    for status in [
        ReplyStatus::BadRequest,
        ReplyStatus::NotFound,
        ReplyStatus::Conflict,
        ReplyStatus::Unprocessable,
        ReplyStatus::HeadersTooLarge,
        ReplyStatus::InternalError,
    ] {
        assert!(!health_ok(&json_response(status, true, "healthy")));
    }
}

#[test]
fn apply_needs_a_bare_post() {
    assert_eq!(route(b"POST /apply HTTP/1.1\r\n\r\n"), Route::Apply);
    assert_eq!(route(b"POST /apply HTTP/1.1\r\n\r\n\r\n"), Route::BadApply);
    assert_eq!(route(b"POST /apply HTTP/1.1\r\nContent-Length: 1\r\n\r\n"), Route::BadApply);
    assert_eq!(route(b"POST /apply HTTP/1.1 \r\n\r\n"), Route::BadApply);
}

fn percent_decode(s: &str) -> Vec<u8> {
    let b = s.as_bytes();
    let mut out = Vec::new();
    let mut i = 0;
    while i < b.len() {
        if b[i] == b'%' && i + 2 < b.len() {
            let hex = std::str::from_utf8(&b[i + 1..i + 3]).unwrap();
            out.push(u8::from_str_radix(hex, 16).unwrap());
            i += 3;
        } else {
            out.push(b[i]);
            i += 1;
        }
    }
    out
}

#[test]
fn percent_encoding_decodes_back() {
    for text in ["", "plain", "a b%c/d", "{\"label\":[\"x=y\"]}", "üñí€😀", "%%25"] {
        assert_eq!(percent_decode(&percent_encode(text)), text.as_bytes().to_vec());
    }
}

#[test]
fn lower_case_chunk_sizes_decode_too() {
    let data: Vec<u8> = vec![7u8; 300];
    let mut body = format!("{:x}\r\n", data.len()).into_bytes();
    body.extend_from_slice(&data);
    body.extend_from_slice(b"\r\n3\r\nxyz\r\n0\r\n\r\n");
    let mut expected = data.clone();
    expected.extend_from_slice(b"xyz");
    assert_eq!(decode_chunked(&body), Ok(expected));
}

#[test]
fn leading_chunk_prepends_its_data() {
    let rest: &[&[u8]] = &[b"3\r\nabc\r\n0\r\n", b"zz\r\n", b"9\r\nab", b""];
    for r in rest {
        let mut input = b"2\r\nhi\r\n".to_vec();
        input.extend_from_slice(r);
        let expected = decode_chunked(r).map(|o| {
            let mut v = b"hi".to_vec();
            v.extend_from_slice(&o);
            v
        });
        assert_eq!(decode_chunked(&input), expected);
    }
}

#[test]
fn bytes_after_the_last_chunk_are_ignored() {
    for rest in [&b""[..], b"\r\n", b"garbage", b"Trailer: x\r\n\r\n\xff"] {
        let mut input = b"0\r\n".to_vec();
        input.extend_from_slice(rest);
        assert_eq!(decode_chunked(&input), Ok(Vec::new()));
        let mut input = chunked(&[b"abc"]);
        input.extend_from_slice(rest);
        assert_eq!(decode_chunked(&input), Ok(b"abc".to_vec()));
    }
}

#[test]
fn health_request_is_answered_healthy() {
    assert_eq!(route(&health_request()), Route::Health);
    assert!(health_ok(&route_reply(Route::Health)));
}
