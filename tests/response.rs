use rotor_http::client::request::{state, Request};
use rotor_http::error::RequestError;
use rotor_http::message::MessageState;
use rotor_http::server::response::{default_error_page, Response, NOT_IMPLEMENTED, NOT_IMPLEMENTED_HEAD};
use rotor_http::server::parser::{accept_body, answer_continue};
use rotor_http::shared::{BodyKind, BodyProgress, RecvMode, Version};

#[test]
fn error_page_is_complete() {
    let mut r = Response::new(Vec::new(), Version::Http11, false, false);
    default_error_page(&RequestError::PayloadTooLarge, &mut r);
    assert!(r.is_complete());
    let body = "<h1>413 Payload Too Large</h1>\n<p><small>Served for you by rotor-http</small></p>\n";
    let expected = format!(
        "HTTP/1.1 413 Payload Too Large\r\nContent-Length: {}\r\nContent-Type: text/html\r\n\r\n{}",
        body.len(),
        body
    );
    assert_eq!(r.decompose().0, expected.into_bytes());
}

#[test]
fn error_page_for_head_has_no_body() {
    let mut r = Response::new(Vec::new(), Version::Http10, true, false);
    default_error_page(&RequestError::BadHeaders, &mut r);
    let out = String::from_utf8(r.decompose().0).unwrap();
    assert!(out.starts_with("HTTP/1.0 400 Bad Request\r\n"));
    assert!(out.ends_with("Connection: close\r\n\r\n"));
}

#[test]
fn unstarted_response_finishes_with_501() {
    let mut r = Response::new(Vec::new(), Version::Http11, false, false);
    assert!(!r.finish());
    assert_eq!(r.decompose().0, NOT_IMPLEMENTED.as_bytes().to_vec());
    let mut h = Response::new(Vec::new(), Version::Http11, true, false);
    assert!(!h.finish());
    assert_eq!(h.decompose().0, NOT_IMPLEMENTED_HEAD.as_bytes().to_vec());
}

#[test]
fn completed_response_keeps_alive() {
    let mut r = Response::new(Vec::new(), Version::Http11, false, false);
    r.status(204, "No Content");
    assert_eq!(r.done_headers(), Ok(false));
    r.done();
    assert!(r.finish());
    assert_eq!(r.decompose().0, b"HTTP/1.1 204 No Content\r\n\r\n".to_vec());
}

#[test]
fn continue_line_precedes_response() {
    let mut r = Response::new(Vec::new(), Version::Http11, false, false);
    r.response_continue();
    assert!(!r.is_started());
    r.status(200, "OK");
    r.add_chunked().unwrap();
    r.done_headers().unwrap();
    r.write_body(b"hello");
    r.done();
    assert_eq!(
        r.decompose().0,
        b"HTTP/1.1 100 Continue\r\n\r\nHTTP/1.1 200 OK\r\nTransfer-Encoding: chunked\r\n\r\n5\r\nhello\r\n0\r\n\r\n".to_vec()
    );
}

#[test]
fn request_records_head_method() {
    let mut q = Request::new(Vec::new());
    assert_eq!(q.is_head(), None);
    q.start("HEAD", "/index", Version::Http11);
    assert_eq!(q.is_head(), Some(true));
    q.add_length(3).unwrap();
    assert_eq!(q.done_headers(), Ok(true));
    q.write_body(b"abc");
    q.done();
    assert!(q.is_complete());
    assert_eq!(state(q), MessageState::Done);
    let mut g = Request::new(Vec::new());
    g.start("GET", "/", Version::Http10);
    assert_eq!(g.is_head(), Some(false));
}

#[test]
fn body_acceptance() {
    assert_eq!(accept_body(RecvMode::Buffered(10), BodyKind::Fixed(9)), Ok(BodyProgress::BufferFixed(9)));
    assert_eq!(accept_body(RecvMode::Buffered(10), BodyKind::Fixed(10)), Err(RequestError::PayloadTooLarge));
    assert_eq!(accept_body(RecvMode::Progressive(1), BodyKind::Fixed(100)), Ok(BodyProgress::ProgressiveFixed(1, 100)));
    assert_eq!(accept_body(RecvMode::Buffered(10), BodyKind::Upgrade), Err(RequestError::BadHeaders));
}

#[test]
fn continue_only_before_a_response() {
    let mut r = Response::new(Vec::new(), Version::Http11, false, false);
    answer_continue(&mut r, false);
    answer_continue(&mut r, true);
    r.status(200, "OK");
    answer_continue(&mut r, true);
    assert_eq!(r.decompose().0, b"HTTP/1.1 100 Continue\r\n\r\nHTTP/1.1 200 OK\r\n".to_vec());
}
