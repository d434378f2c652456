use xray_controller::control::{
    apply_reply, health_ok, health_request, json_response, keep_reading, lock_refused_reply,
    parse_command, refusal_message, route, route_reply, Command, ReplyStatus, Route,
};
use xray_controller::json::{filters_for_project, json_quote, reply_body_text};

#[test]
fn json_quote_escapes_like_serde_json() {
    assert_eq!(json_quote("plain"), "\"plain\"");
    assert_eq!(json_quote("a\"b\\c"), "\"a\\\"b\\\\c\"");
    assert_eq!(json_quote("\n\t\r\u{8}\u{c}"), "\"\\n\\t\\r\\b\\f\"");
    assert_eq!(json_quote("\u{1}\u{1f}/ü"), "\"\\u0001\\u001f/ü\"");
}

#[test]
fn filter_document_for_a_project() {
    assert_eq!(
        filters_for_project("xray"),
        "{\"label\":[\"com.docker.compose.project=xray\",\"org.xray.controller.role=core\"]}"
    );
    assert_eq!(
        filters_for_project("a\"b"),
        "{\"label\":[\"com.docker.compose.project=a\\\"b\",\"org.xray.controller.role=core\"]}"
    );
}

#[test]
fn reply_body_sorts_its_keys() {
    assert_eq!(reply_body_text(true, "healthy"), "{\"message\":\"healthy\",\"ok\":true}\n");
    assert_eq!(reply_body_text(false, "x\"y"), "{\"message\":\"x\\\"y\",\"ok\":false}\n");
}

#[test]
fn json_response_frames_the_body() {
    let expected = "HTTP/1.1 200 OK\r\nContent-Type: application/json\r\nCache-Control: no-store\r\nConnection: close\r\nContent-Length: 32\r\n\r\n{\"message\":\"healthy\",\"ok\":true}\n";
    assert_eq!(json_response(ReplyStatus::Success, true, "healthy"), expected.as_bytes().to_vec());
    let body = "{\"message\":\"ü\",\"ok\":false}\n";
    let reply = json_response(ReplyStatus::Unprocessable, false, "ü");
    let text = String::from_utf8(reply).unwrap();
    assert!(text.starts_with("HTTP/1.1 422 Unprocessable Entity\r\n"));
    assert!(text.ends_with(&format!("Content-Length: {}\r\n\r\n{}", body.len(), body)));
    assert_eq!(body.len(), 28);
}

#[test]
fn reading_stops_at_blank_line_or_limit() {
    assert!(keep_reading(b""));
    assert!(keep_reading(b"GET / HTTP/1.1\r\n"));
    assert!(!keep_reading(b"GET / HTTP/1.1\r\n\r\n"));
    assert!(keep_reading(&vec![b'a'; 8192]));
    assert!(!keep_reading(&vec![b'a'; 8193]));
}

#[test]
fn routes_requests() {
    assert_eq!(route(b"GET /health HTTP/1.1\r\nHost: x\r\n\r\n"), Route::Health);
    assert_eq!(route(b"POST /apply HTTP/1.1\r\nHost: x\r\n\r\n"), Route::Apply);
    assert_eq!(route(b"POST /apply HTTP/1.1\r\nContent-Length: 0\r\n\r\n"), Route::Apply);
    assert_eq!(route(b"POST /apply HTTP/1.1\r\ncontent-length:  3 \r\n\r\n"), Route::BadApply);
    assert_eq!(route(b"POST /apply HTTP/1.1\r\n\r\nbody"), Route::BadApply);
    assert_eq!(route(b"POST /apply?x=1 HTTP/1.1\r\n\r\n"), Route::BadApply);
    assert_eq!(route(b"GET /apply HTTP/1.1\r\n\r\n"), Route::NotFound);
    assert_eq!(route(b"GET /health HTTP/1.0\r\n\r\n"), Route::NotFound);
    assert_eq!(route(b"GET /health"), Route::Incomplete);
    assert_eq!(route(b"GET /health HTTP/1.1\r\n\xff\r\n\r\n"), Route::Invalid);
    assert_eq!(route(&vec![b'a'; 8193]), Route::TooLarge);
}

#[test]
fn unreadable_content_length_counts_as_zero() {
    assert_eq!(route(b"POST /apply HTTP/1.1\r\nContent-Length: x\r\nContent-Length: 5\r\n\r\n"), Route::Apply);
    assert_eq!(route(b"POST /apply HTTP/1.1\r\nContent-Length: 0\r\nContent-Length: 5\r\n\r\n"), Route::Apply);
    assert_eq!(route(b"POST /apply HTTP/1.1\r\nContent-Length: 5\r\nContent-Length: 0\r\n\r\n"), Route::BadApply);
}

#[test]
fn fixed_replies() {
    let text = String::from_utf8(route_reply(Route::NotFound)).unwrap();
    assert!(text.starts_with("HTTP/1.1 404 Not Found\r\n"));
    assert!(text.ends_with("{\"message\":\"not found\",\"ok\":false}\n"));
    let text = String::from_utf8(route_reply(Route::TooLarge)).unwrap();
    assert!(text.starts_with("HTTP/1.1 431 Request Header Fields Too Large\r\n"));
    let text = String::from_utf8(route_reply(Route::BadApply)).unwrap();
    assert!(text.ends_with("{\"message\":\"only an empty, parameterless POST /apply is accepted\",\"ok\":false}\n"));
    let text = String::from_utf8(lock_refused_reply(true)).unwrap();
    assert!(text.starts_with("HTTP/1.1 409 Conflict\r\n"));
    let text = String::from_utf8(lock_refused_reply(false)).unwrap();
    assert!(text.ends_with("{\"message\":\"controller lock is unavailable\",\"ok\":false}\n"));
    let text = String::from_utf8(apply_reply(&Err("boom".to_string()))).unwrap();
    assert!(text.starts_with("HTTP/1.1 422 Unprocessable Entity\r\n"));
    assert!(text.ends_with("{\"message\":\"boom\",\"ok\":false}\n"));
    let text = String::from_utf8(apply_reply(&Ok("done".to_string()))).unwrap();
    assert!(text.starts_with("HTTP/1.1 200 OK\r\n"));
}

#[test]
fn health_check_accepts_only_200() {
    assert!(health_ok(b"HTTP/1.1 200 OK\r\nContent-Length: 0\r\n\r\n"));
    assert!(!health_ok(b"HTTP/1.1 404 Not Found\r\n\r\n"));
    assert!(!health_ok(b"HTTP/1.1 200 OK"));
    assert_eq!(route(&health_request()), Route::Health);
    assert_eq!(
        health_request(),
        b"GET /health HTTP/1.1\r\nHost: localhost\r\nConnection: close\r\n\r\n".to_vec()
    );
}

#[test]
fn command_line() {
    let args = |v: &[&str]| v.iter().map(|s| s.to_string()).collect::<Vec<String>>();
    assert_eq!(parse_command(&args(&["xray-controller"])), Command::Serve);
    assert_eq!(parse_command(&args(&["xray-controller", "healthcheck"])), Command::Healthcheck);
    assert_eq!(parse_command(&args(&["xray-controller", "other"])), Command::Refuse);
    assert_eq!(parse_command(&args(&["xray-controller", "healthcheck", "x"])), Command::Refuse);
    assert_eq!(refusal_message(), "no command-line arguments are accepted");
}
