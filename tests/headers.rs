use rotor_http::headers::{
    is_chunked, is_close, is_connection, is_content_length, is_continue, is_expect,
    is_transfer_encoding,
};

#[test]
fn test_content_len() {
    assert!(is_content_length("Content-Length"));
    assert!(is_content_length("content-length"));
    assert!(is_content_length("CONTENT-length"));
    assert!(is_content_length("CONTENT-LENGTH"));
}

#[test]
fn test_transfer_encoding() {
    assert!(is_transfer_encoding("Transfer-Encoding"));
    assert!(is_transfer_encoding("transfer-ENCODING"));
    assert!(is_transfer_encoding("TRANSFER-Encoding"));
    assert!(is_transfer_encoding("TRANSFER-ENCODING"));
}

#[test]
fn test_connection() {
    assert!(is_connection("Connection"));
    assert!(is_connection("CONNECTION"));
    assert!(is_connection("ConneCTION"));
    assert!(is_connection("connection"));
}

#[test]
fn test_chunked() {
    assert!(is_chunked(b"chunked"));
    assert!(is_chunked(b"Chunked"));
    assert!(is_chunked(b"chuNKED"));
    assert!(is_chunked(b"CHUNKED"));
    assert!(is_chunked(b"   CHUNKED"));
    assert!(is_chunked(b"   CHUNKED  "));
    assert!(is_chunked(b"chunked  "));
}

#[test]
fn test_close() {
    assert!(is_close(b"close"));
    assert!(is_close(b"Close"));
    assert!(is_close(b"clOSE"));
    assert!(is_close(b"CLOSE"));
    assert!(is_close(b" CLOSE"));
    assert!(is_close(b"   close   "));
    assert!(is_close(b"Close   "));
}

#[test]
fn names_reject_near_misses() {
    assert!(!is_content_length("Content-Lengths"));
    assert!(!is_content_length("Content_Length"));
    assert!(!is_transfer_encoding(""));
    assert!(!is_connection("Connectio"));
    assert!(is_expect("EXPECT"));
    assert!(!is_expect("expected"));
}

#[test]
fn tokens_reject_other_words() {
    assert!(!is_close(b"closed"));
    assert!(!is_close(b"c lose"));
    assert!(!is_close(b"     "));
    assert!(!is_close(b""));
    assert!(!is_chunked(b"chunked, gzip"));
    assert!(!is_chunked(b"xchunked"));
    assert!(is_continue(b" 100-Continue\t"));
    assert!(!is_continue(b"100-continues"));
}
