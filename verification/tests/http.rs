use xray_controller::http::{
    docker_error, encode_request, parse_response, DockerCall, DockerResponse, Method,
};

fn parsed(raw: &[u8]) -> Result<DockerResponse, String> {
    parse_response(raw).expect("no size overflow")
}

#[test]
fn reads_a_plain_response() {
    let raw = b"HTTP/1.1 200 OK\r\nContent-Type: application/json\r\n\r\n{\"a\":1}";
    let r = parsed(raw).unwrap();
    assert_eq!(r.status, 200);
    assert_eq!(r.reason, "OK");
    assert_eq!(r.body, b"{\"a\":1}".to_vec());
}

#[test]
fn reason_phrase_keeps_its_spaces() {
    let r = parsed(b"HTTP/1.1 404 Not Found Here\r\n\r\n").unwrap();
    assert_eq!(r.status, 404);
    assert_eq!(r.reason, "Not Found Here");
    assert!(r.body.is_empty());
}

#[test]
fn missing_reason_is_empty() {
    let r = parsed(b"HTTP/1.1 204\r\n\r\n").unwrap();
    assert_eq!(r.status, 204);
    assert_eq!(r.reason, "");
}

#[test]
fn reads_a_chunked_response() {
    let raw = b"HTTP/1.1 200 OK\r\nTransfer-Encoding: chunked\r\n\r\n4\r\nabcd\r\n0\r\n\r\n";
    let r = parsed(raw).unwrap();
    assert_eq!(r.body, b"abcd".to_vec());
    let raw = b"HTTP/1.1 200 OK\r\nX: y\r\ntransfer-ENCODING: gzip, CHUNKED\r\n\r\n2\r\nhi\r\n0\r\n\r\n";
    assert_eq!(parsed(raw).unwrap().body, b"hi".to_vec());
}

#[test]
fn chunked_only_counts_after_the_status_line() {
    let raw = b"HTTP/1.1 200 Transfer-Encoding: chunked\r\n\r\n2\r\nhi\r\n0\r\n\r\n";
    assert_eq!(parsed(raw).unwrap().body, b"2\r\nhi\r\n0\r\n\r\n".to_vec());
}

#[test]
fn other_transfer_encodings_are_not_chunked() {
    let raw = b"HTTP/1.1 200 OK\r\nTransfer-Encoding: gzip\r\n\r\nxyz";
    assert_eq!(parsed(raw).unwrap().body, b"xyz".to_vec());
}

#[test]
fn response_errors() {
    assert_eq!(parsed(b"HTTP/1.1 200 OK\r\n").unwrap_err(), "malformed Docker API response");
    assert_eq!(parsed(b"HTTP/1.1 200 \xff\r\n\r\n").unwrap_err(), "non-UTF-8 Docker API headers");
    assert_eq!(parsed(b"\r\n\r\nbody").unwrap_err(), "missing Docker API status");
    assert_eq!(parsed(b"HTTP/1.1\r\n\r\n").unwrap_err(), "missing Docker API status code");
    assert_eq!(parsed(b"HTTP/1.1 abc OK\r\n\r\n").unwrap_err(), "invalid Docker API status code");
    assert_eq!(parsed(b"HTTP/1.1 70000 OK\r\n\r\n").unwrap_err(), "invalid Docker API status code");
    let raw = b"HTTP/1.1 200 OK\r\nTransfer-Encoding: chunked\r\n\r\n5\r\nab";
    assert_eq!(parsed(raw).unwrap_err(), "truncated chunked response");
}

#[test]
fn oversized_chunk_is_flagged() {
    let raw = b"HTTP/1.1 200 OK\r\nTransfer-Encoding: chunked\r\n\r\nffffffffffffffff\r\n";
    assert!(parse_response(raw).is_none());
}

#[test]
fn docker_error_describes_the_response() {
    let response = DockerResponse {
        status: 404,
        reason: "Not Found".to_string(),
        body: b"  {\"message\":\"No such container\"}\n".to_vec(),
    };
    assert_eq!(
        docker_error(&response),
        "Docker API returned 404 Not Found: {\"message\":\"No such container\"}"
    );
}

#[test]
fn docker_error_replaces_invalid_utf8() {
    let response = DockerResponse { status: 500, reason: String::new(), body: b"a\xffb".to_vec() };
    assert_eq!(docker_error(&response), "Docker API returned 500 : a\u{fffd}b");
}

#[test]
fn encodes_a_request_without_body() {
    let call = DockerCall { method: Method::Get, path: "/containers/abc/json".to_string(), body: Vec::new() };
    assert_eq!(
        encode_request(&call),
        b"GET /containers/abc/json HTTP/1.1\r\nHost: docker\r\nConnection: close\r\nContent-Type: application/json\r\nContent-Length: 0\r\n\r\n".to_vec()
    );
}

#[test]
fn encodes_a_request_with_body() {
    let call = DockerCall {
        method: Method::Post,
        path: "/exec/e1/start".to_string(),
        body: b"{\"Detach\":false,\"Tty\":false}".to_vec(),
    };
    let mut expected = b"POST /exec/e1/start HTTP/1.1\r\nHost: docker\r\nConnection: close\r\nContent-Type: application/json\r\nContent-Length: 28\r\n\r\n".to_vec();
    expected.extend_from_slice(b"{\"Detach\":false,\"Tty\":false}");
    assert_eq!(encode_request(&call), expected);
}
