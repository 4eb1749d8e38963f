use rotor_http::message::{Body, HeaderError, MessageState};
use rotor_http::shared::Version;

fn response(version: Version, close: bool) -> rotor_http::message::Message {
    MessageState::ResponseStart { version, body: Body::Normal, close }.with(Vec::new())
}

#[test]
fn message_size() {
    assert_eq!(::std::mem::size_of::<MessageState>(), 24);
}

#[test]
fn minimal_request() {
    let mut msg = MessageState::RequestStart.with(Vec::new());
    msg.request_line("GET", "/", Version::Http10);
    msg.done_headers().unwrap();
    msg.done();
    assert_eq!(&msg.decompose().0[..], "GET / HTTP/1.0\r\n\r\n".as_bytes());
}

#[test]
fn minimal_response() {
    let mut msg = response(Version::Http10, false);
    msg.response_status(200, "OK");
    msg.add_length(0).unwrap();
    msg.done_headers().unwrap();
    msg.done();
    assert_eq!(
        &msg.decompose().0[..],
        "HTTP/1.0 200 OK\r\nContent-Length: 0\r\n\r\n".as_bytes()
    );
}

#[test]
fn minimal_response11() {
    let mut msg = response(Version::Http11, false);
    msg.response_status(200, "OK");
    msg.add_length(0).unwrap();
    msg.done_headers().unwrap();
    msg.done();
    assert_eq!(
        &msg.decompose().0[..],
        "HTTP/1.1 200 OK\r\nContent-Length: 0\r\n\r\n".as_bytes()
    );
}

#[test]
fn close_response11() {
    let mut msg = response(Version::Http11, true);
    msg.response_status(200, "OK");
    msg.add_length(0).unwrap();
    msg.done_headers().unwrap();
    msg.done();
    assert_eq!(
        &msg.decompose().0[..],
        "HTTP/1.1 200 OK\r\nContent-Length: 0\r\nConnection: close\r\n\r\n".as_bytes()
    );
}

#[test]
fn chunked_response_frames_each_write() {
    let mut msg = response(Version::Http11, false);
    msg.response_status(200, "OK");
    msg.add_chunked().unwrap();
    assert_eq!(msg.done_headers(), Ok(true));
    msg.write_body(b"Wiki");
    msg.write_body(b"");
    msg.write_body(b"0123456789abcdefg");
    msg.done();
    msg.done();
    assert_eq!(
        &msg.decompose().0[..],
        "HTTP/1.1 200 OK\r\nTransfer-Encoding: chunked\r\n\r\n4\r\nWiki\r\n11\r\n0123456789abcdefg\r\n0\r\n\r\n"
            .as_bytes()
    );
}

#[test]
fn empty_chunked_write_adds_nothing() {
    let mut msg = response(Version::Http11, false);
    msg.response_status(200, "OK");
    msg.add_chunked().unwrap();
    msg.done_headers().unwrap();
    let before = msg.peek_state();
    msg.write_body(b"");
    assert_eq!(msg.peek_state(), before);
    let (buf, _) = msg.decompose();
    assert!(buf.ends_with(b"\r\n\r\n"));
}

#[test]
fn fixed_body_counts_down() {
    let mut msg = response(Version::Http11, false);
    msg.response_status(200, "OK");
    msg.add_length(5).unwrap();
    msg.done_headers().unwrap();
    msg.write_body(b"ab");
    assert_eq!(msg.peek_state(), MessageState::FixedSizeBody(3));
    msg.write_body(b"cde");
    assert_eq!(msg.peek_state(), MessageState::FixedSizeBody(0));
    msg.done();
    assert!(msg.is_complete());
    assert_eq!(
        &msg.decompose().0[..],
        "HTTP/1.1 200 OK\r\nContent-Length: 5\r\n\r\nabcde".as_bytes()
    );
}

#[test]
fn framing_headers_are_checked() {
    let mut msg = response(Version::Http11, false);
    msg.response_status(200, "OK");
    assert_eq!(msg.add_header("content-length", b"3"), Err(HeaderError::BodyLengthHeader));
    assert_eq!(msg.add_header("Transfer-ENCODING", b"chunked"), Err(HeaderError::BodyLengthHeader));
    msg.add_length(3).unwrap();
    assert_eq!(msg.add_length(3), Err(HeaderError::DuplicateContentLength));
    assert_eq!(msg.add_chunked(), Err(HeaderError::TransferEncodingAfterContentLength));
    let mut other = response(Version::Http11, false);
    other.response_status(200, "OK");
    other.add_chunked().unwrap();
    assert_eq!(other.add_chunked(), Err(HeaderError::DuplicateTransferEncoding));
    assert_eq!(other.add_length(1), Err(HeaderError::ContentLengthAfterTransferEncoding));
}

#[test]
fn response_without_framing_is_refused() {
    let mut msg = response(Version::Http11, false);
    msg.response_status(200, "OK");
    assert_eq!(msg.done_headers(), Err(HeaderError::CantDetermineBodySize));
}

#[test]
fn bodiless_statuses_drop_the_body() {
    for code in [100u16, 101, 204, 304] {
        let mut msg = response(Version::Http11, false);
        msg.response_status(code, "X");
        msg.add_length(4).unwrap();
        assert_eq!(msg.done_headers(), Ok(false));
        msg.write_body(b"body");
        msg.done();
        let (buf, _) = msg.decompose();
        assert!(buf.ends_with(b"Content-Length: 4\r\n\r\n"), "status {}", code);
    }
}

#[test]
fn head_response_drops_the_body() {
    let mut msg = MessageState::ResponseStart { version: Version::Http11, body: Body::Ignored, close: false }
        .with(Vec::new());
    msg.response_status(200, "OK");
    msg.add_length(12345).unwrap();
    assert_eq!(msg.done_headers(), Ok(false));
    msg.write_body(b"hello");
    msg.done();
    assert_eq!(
        &msg.decompose().0[..],
        "HTTP/1.1 200 OK\r\nContent-Length: 12345\r\n\r\n".as_bytes()
    );
}

#[test]
fn started_after_first_line() {
    let st = MessageState::RequestStart;
    assert!(!st.is_started());
    let mut msg = st.with(Vec::new());
    msg.request_line("HEAD", "/x", Version::Http11);
    assert!(msg.is_started());
    msg.add_header("Host", b"example.com").unwrap();
    msg.done_headers().unwrap();
    assert_eq!(
        &msg.decompose().0[..],
        "HEAD /x HTTP/1.1\r\nHost: example.com\r\n\r\n".as_bytes()
    );
}
