use xray_controller::chunked::{decode_chunked, try_decode_chunked, ChunkError};

#[test]
fn decodes_chunks_until_the_last_one() {
    assert_eq!(decode_chunked(b"5\r\nhello\r\n0\r\n\r\n"), Ok(b"hello".to_vec()));
    assert_eq!(
        decode_chunked(b"3\r\nabc\r\nA\r\n0123456789\r\n0\r\n\r\n"),
        Ok(b"abc0123456789".to_vec())
    );
    assert_eq!(decode_chunked(b"0\r\n"), Ok(Vec::new()));
}

#[test]
fn ignores_what_follows_the_last_chunk() {
    assert_eq!(decode_chunked(b"2\r\nok\r\n0\r\ntrailer: x\r\n\r\ngarbage"), Ok(b"ok".to_vec()));
}

#[test]
fn size_lines_allow_extensions_whitespace_and_plus() {
    assert_eq!(decode_chunked(b"2;name=value\r\nok\r\n0\r\n\r\n"), Ok(b"ok".to_vec()));
    assert_eq!(decode_chunked(b" 2 \t\r\nok\r\n0\r\n\r\n"), Ok(b"ok".to_vec()));
    assert_eq!(decode_chunked(b"+2\r\nok\r\n0\r\n\r\n"), Ok(b"ok".to_vec()));
    // U+00A0 is Unicode whitespace and is trimmed like ASCII blanks.
    assert_eq!(decode_chunked(b"\xc2\xa02\r\nok\r\n0\r\n\r\n"), Ok(b"ok".to_vec()));
}

#[test]
fn reports_missing_line_end() {
    assert_eq!(decode_chunked(b""), Err("invalid chunked response".to_string()));
    assert_eq!(decode_chunked(b"5\r\nhello\r\n"), Err("invalid chunked response".to_string()));
}

#[test]
fn reports_bad_sizes() {
    assert_eq!(decode_chunked(b"zz\r\n"), Err("invalid chunk size".to_string()));
    assert_eq!(decode_chunked(b"\r\n"), Err("invalid chunk size".to_string()));
    assert_eq!(decode_chunked(b"-1\r\n"), Err("invalid chunk size".to_string()));
    assert_eq!(decode_chunked(b"\xff1\r\n"), Err("invalid chunk size".to_string()));
    assert_eq!(decode_chunked(b"1;\xff\r\nx\r\n0\r\n"), Err("invalid chunk size".to_string()));
    assert_eq!(
        decode_chunked(b"10000000000000000\r\n"),
        Err("invalid chunk size".to_string())
    );
}

#[test]
fn reports_truncated_chunks() {
    assert_eq!(decode_chunked(b"5\r\nhel"), Err("truncated chunked response".to_string()));
    assert_eq!(decode_chunked(b"5\r\nhelloXY0\r\n"), Err("truncated chunked response".to_string()));
    assert_eq!(decode_chunked(b"5\r\nhello"), Err("truncated chunked response".to_string()));
}

#[test]
fn checked_decoding_flags_sizes_without_room() {
    assert!(try_decode_chunked(b"ffffffffffffffff\r\nabc").is_none());
    assert!(try_decode_chunked(b"fffffffffffffffe\r\n").is_none());
    assert_eq!(
        try_decode_chunked(b"fffffffffffffffd\r\nabc"),
        Some(Err(ChunkError::Truncated))
    );
    assert_eq!(try_decode_chunked(b"1\r\na\r\n0\r\n"), Some(Ok(b"a".to_vec())));
}
