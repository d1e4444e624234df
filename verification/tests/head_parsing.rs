//! Head parsing, body-kind decision, and number parsing.

use http1_conn::head::{
    body_kind, has_expect_continue, parse_dec, parse_head, parse_hex, BodyKind, Method, Version,
};
use http1_conn::response::{continue_line_bytes, error_page_bytes};

fn head_of(bytes: &[u8]) -> http1_conn::head::Head {
    parse_head(&bytes.to_vec()).expect("head should parse")
}

#[test]
fn parses_simple_request_line() {
    let h = head_of(b"GET /x HTTP/1.1\r\nHost: h\r\n\r\n");
    assert!(matches!(h.method, Method::Get));
    assert_eq!(h.path, b"/x".to_vec());
    assert!(matches!(h.version, Version::Http11));
    assert_eq!(h.headers.len(), 1);
    assert_eq!(h.headers[0].name, b"host".to_vec());
    assert_eq!(h.headers[0].value, b"h".to_vec());
}

#[test]
fn lowercases_names_and_trims_values() {
    let h = head_of(b"POST / HTTP/1.0\r\nCoNtEnT-LeNgTh:   42  \r\n\r\n");
    assert!(matches!(h.method, Method::Post));
    assert!(matches!(h.version, Version::Http10));
    assert_eq!(h.headers[0].name, b"content-length".to_vec());
    assert_eq!(h.headers[0].value, b"42".to_vec());
}

#[test]
fn classifies_methods() {
    assert!(matches!(head_of(b"HEAD / HTTP/1.1\r\n\r\n").method, Method::Head));
    assert!(matches!(head_of(b"PUT / HTTP/1.1\r\n\r\n").method, Method::Put));
    assert!(matches!(head_of(b"DELETE / HTTP/1.1\r\n\r\n").method, Method::Delete));
    assert!(matches!(head_of(b"OPTIONS / HTTP/1.1\r\n\r\n").method, Method::Options));
    assert!(matches!(head_of(b"TRACE / HTTP/1.1\r\n\r\n").method, Method::Trace));
    assert!(matches!(head_of(b"CONNECT / HTTP/1.1\r\n\r\n").method, Method::Connect));
    assert!(matches!(head_of(b"PATCH / HTTP/1.1\r\n\r\n").method, Method::Patch));
    assert!(matches!(head_of(b"BREW / HTTP/1.1\r\n\r\n").method, Method::Other));
}

#[test]
fn skips_leading_empty_lines() {
    let h = head_of(b"\r\nGET / HTTP/1.1\r\nHost: h\r\n\r\n");
    assert!(matches!(h.method, Method::Get));
}

#[test]
fn rejects_malformed_heads() {
    assert!(parse_head(&b"GET /x\r\n\r\n".to_vec()).is_none());
    assert!(parse_head(&b"GET /x HTTP/2.0\r\n\r\n".to_vec()).is_none());
    assert!(parse_head(&b"GET  HTTP/1.1\r\n\r\n".to_vec()).is_none());
    assert!(parse_head(&b"GET /x HTTP/1.1\r\nBad Header: v\r\n\r\n".to_vec()).is_none());
    assert!(parse_head(&b"GET /x HTTP/1.1\r\nNoColon\r\n\r\n".to_vec()).is_none());
}

#[test]
fn body_kind_content_length() {
    let h = head_of(b"POST / HTTP/1.1\r\nContent-Length: 5\r\n\r\n");
    assert_eq!(body_kind(&h), Ok(BodyKind::Fixed(5)));
}

#[test]
fn body_kind_chunked() {
    let h = head_of(b"POST / HTTP/1.1\r\nTransfer-Encoding: Chunked\r\n\r\n");
    assert_eq!(body_kind(&h), Ok(BodyKind::Chunked));
}

#[test]
fn body_kind_unknown_transfer_encoding_rejected() {
    let h = head_of(b"POST / HTTP/1.1\r\nTransfer-Encoding: gzip\r\n\r\n");
    assert_eq!(body_kind(&h), Err(400));
}

#[test]
fn body_kind_defaults() {
    let h11 = head_of(b"GET / HTTP/1.1\r\nHost: h\r\n\r\n");
    assert_eq!(body_kind(&h11), Ok(BodyKind::Fixed(0)));
    let h10 = head_of(b"GET / HTTP/1.0\r\nHost: h\r\n\r\n");
    assert_eq!(body_kind(&h10), Ok(BodyKind::Eof));
}

#[test]
fn body_kind_bad_content_length() {
    let h = head_of(b"POST / HTTP/1.1\r\nContent-Length: 5x\r\n\r\n");
    assert_eq!(body_kind(&h), Err(400));
    let h2 = head_of(b"POST / HTTP/1.1\r\nContent-Length: 99999999999999999999999\r\n\r\n");
    assert_eq!(body_kind(&h2), Err(400));
}

#[test]
fn body_kind_upgrade_rejected() {
    let h = head_of(b"GET / HTTP/1.1\r\nUpgrade: websocket\r\n\r\n");
    assert_eq!(body_kind(&h), Err(400));
}

#[test]
fn expect_continue_detection() {
    let h = head_of(b"PUT / HTTP/1.1\r\nExpect: 100-Continue\r\n\r\n");
    assert!(has_expect_continue(&h));
    let h2 = head_of(b"PUT / HTTP/1.1\r\nExpect: nothing\r\n\r\n");
    assert!(!has_expect_continue(&h2));
    let h3 = head_of(b"PUT / HTTP/1.1\r\nHost: h\r\n\r\n");
    assert!(!has_expect_continue(&h3));
}

#[test]
fn decimal_parsing() {
    assert_eq!(parse_dec(&b"0".to_vec()), Some(0));
    assert_eq!(parse_dec(&b"4096".to_vec()), Some(4096));
    assert_eq!(parse_dec(&b"18446744073709551615".to_vec()), Some(u64::MAX));
    assert_eq!(parse_dec(&b"18446744073709551616".to_vec()), None);
    assert_eq!(parse_dec(&b"".to_vec()), None);
    assert_eq!(parse_dec(&b"12a".to_vec()), None);
}

#[test]
fn hex_parsing() {
    assert_eq!(parse_hex(&b"0".to_vec()), Some(0));
    assert_eq!(parse_hex(&b"a".to_vec()), Some(10));
    assert_eq!(parse_hex(&b"FF".to_vec()), Some(255));
    assert_eq!(parse_hex(&b"1e".to_vec()), Some(30));
    assert_eq!(parse_hex(&b"ffffffffffffffff".to_vec()), Some(u64::MAX));
    assert_eq!(parse_hex(&b"10000000000000000".to_vec()), None);
    assert_eq!(parse_hex(&b"".to_vec()), None);
    assert_eq!(parse_hex(&b"5;".to_vec()), None);
}

#[test]
fn error_page_rendering() {
    assert_eq!(
        error_page_bytes(400),
        b"HTTP/1.1 400 Bad Request\r\ncontent-length: 0\r\n\r\n".to_vec()
    );
    assert_eq!(
        error_page_bytes(413),
        b"HTTP/1.1 413 Payload Too Large\r\ncontent-length: 0\r\n\r\n".to_vec()
    );
    assert_eq!(
        error_page_bytes(500),
        b"HTTP/1.1 500 Error\r\ncontent-length: 0\r\n\r\n".to_vec()
    );
}

#[test]
fn continue_line_rendering() {
    assert_eq!(
        continue_line_bytes(Version::Http11),
        b"HTTP/1.1 100 Continue\r\n\r\n".to_vec()
    );
    assert_eq!(
        continue_line_bytes(Version::Http10),
        b"HTTP/1.0 100 Continue\r\n\r\n".to_vec()
    );
}
