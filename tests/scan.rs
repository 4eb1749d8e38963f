use rotor_http::digits::{push_decimal, push_hex};
use rotor_http::error::{HttpError, RequestError};
use rotor_http::scan::{parse_content_length, resolve_framing, scan_request, scan_response, RequestScan};
use rotor_http::shared::{BodyKind, Version};
use rotor_http::wire::RawHeader;

fn hs(list: &[(&str, &str)]) -> Vec<RawHeader> {
    list.iter()
        .map(|(n, v)| RawHeader { name: n.as_bytes().to_vec(), value: v.as_bytes().to_vec() })
        .collect()
}

#[test]
fn content_length_values() {
    assert_eq!(parse_content_length(b"0"), Some(0));
    assert_eq!(parse_content_length(b"12345"), Some(12345));
    assert_eq!(parse_content_length(b"+7"), Some(7));
    assert_eq!(parse_content_length(b"18446744073709551615"), Some(u64::MAX));
    assert_eq!(parse_content_length(b"18446744073709551616"), None);
    assert_eq!(parse_content_length(b""), None);
    assert_eq!(parse_content_length(b"+"), None);
    assert_eq!(parse_content_length(b" 5"), None);
    assert_eq!(parse_content_length(b"5a"), None);
    assert_eq!(parse_content_length(b"-1"), None);
}

#[test]
fn request_framing() {
    let plain = scan_request(b"GET", 1, &hs(&[("Host", "x")])).unwrap();
    assert_eq!(plain, RequestScan { body: BodyKind::Fixed(0), is_head: false, expect_continue: false, close: false });
    let fixed = scan_request(b"POST", 1, &hs(&[("content-length", "12")])).unwrap();
    assert_eq!(fixed.body, BodyKind::Fixed(12));
    let chunked = scan_request(b"POST", 1, &hs(&[("Transfer-Encoding", "gzip, chunked")])).unwrap();
    assert_eq!(chunked.body, BodyKind::Chunked);
    assert!(!chunked.close);
    let not_last = scan_request(b"POST", 1, &hs(&[("Transfer-Encoding", "chunked, gzip")])).unwrap();
    assert_eq!(not_last.body, BodyKind::Fixed(0));
}

#[test]
fn chunked_beside_length_closes() {
    let both = scan_request(b"POST", 1, &hs(&[("Content-Length", "3"), ("Transfer-Encoding", "chunked")])).unwrap();
    assert_eq!(both.body, BodyKind::Chunked);
    assert!(both.close);
    let other_order = scan_request(b"POST", 1, &hs(&[("Transfer-Encoding", "chunked"), ("Content-Length", "x")])).unwrap();
    assert_eq!(other_order.body, BodyKind::Chunked);
    assert!(other_order.close);
}

#[test]
fn framing_errors() {
    assert_eq!(
        scan_request(b"POST", 1, &hs(&[("Content-Length", "3"), ("content-length", "3")])),
        Err(RequestError::DuplicateContentLength)
    );
    assert_eq!(scan_request(b"POST", 1, &hs(&[("Content-Length", "three")])), Err(RequestError::BadContentLength));
}

#[test]
fn request_flags() {
    let head = scan_request(b"HEAD", 1, &hs(&[])).unwrap();
    assert!(head.is_head);
    assert!(!scan_request(b"head", 1, &hs(&[])).unwrap().is_head);
    assert!(scan_request(b"GET", 0, &hs(&[])).unwrap().close);
    assert!(scan_request(b"GET", 1, &hs(&[("Connection", "Upgrade, Close")])).unwrap().close);
    assert!(!scan_request(b"GET", 1, &hs(&[("Connection", "keep-alive")])).unwrap().close);
    assert!(scan_request(b"PUT", 1, &hs(&[("Expect", "100-continue")])).unwrap().expect_continue);
}

#[test]
fn response_framing() {
    assert_eq!(scan_response(false, 200, 1, &hs(&[])), Ok((BodyKind::Eof, false)));
    assert_eq!(scan_response(false, 200, 0, &hs(&[("Content-Length", "4")])), Ok((BodyKind::Fixed(4), true)));
    assert_eq!(scan_response(true, 200, 1, &hs(&[("Content-Length", "12345")])), Ok((BodyKind::Fixed(0), false)));
    for code in [100u16, 101, 204, 304] {
        assert_eq!(scan_response(false, code, 1, &hs(&[("Transfer-Encoding", "chunked")])), Ok((BodyKind::Fixed(0), false)));
    }
    assert_eq!(
        scan_response(false, 200, 1, &hs(&[("Transfer-Encoding", "chunked"), ("Connection", "close")])),
        Ok((BodyKind::Chunked, true))
    );
    let (framed, facts) = resolve_framing(&hs(&[("Expect", "100-continue")]), true);
    assert_eq!(framed, Ok((BodyKind::Fixed(0), false)));
    assert!(facts.expect_continue);
}

#[test]
fn error_statuses() {
    assert_eq!(RequestError::HeadersAreTooLarge.http_status(), (431, "Request Header Fields Too Large"));
    assert_eq!(RequestError::BadHeaders.http_status(), (400, "Bad Request"));
    assert_eq!(RequestError::ChunkIsTooLarge.http_status(), (400, "Bad Request"));
    assert_eq!(RequestError::PayloadTooLarge.http_status(), (413, "Payload Too Large"));
    assert_eq!(RequestError::HeadersTimeout.http_status(), (408, "Request Timeout"));
    assert_eq!(RequestError::HandlerTimeout.http_status(), (504, "Gateway Timeout"));
    assert_eq!(RequestError::PrematureEndOfStream.status(), (400, "Bad Request"));
}

#[test]
fn numbers_as_text() {
    let mut v = Vec::new();
    push_decimal(&mut v, 0);
    push_decimal(&mut v, 1907);
    assert_eq!(&v[..], b"01907");
    let mut h = Vec::new();
    push_hex(&mut h, 255);
    push_hex(&mut h, 0x1a0);
    assert_eq!(&h[..], b"ff1a0");
    assert_eq!(Version::Http11.as_str(), "HTTP/1.1");
    assert_eq!(Version::Http10.as_str(), "HTTP/1.0");
}
