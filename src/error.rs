//! Errors met while reading a request or a response, and the HTTP status
//! that each request error is answered with.
use vstd::prelude::*;
use vstd::string::StringSliceAdditionalSpecFns;

verus! {

/// Why a request could not be read or answered normally.
#[derive(Copy, Clone, Debug, PartialEq, Eq, Structural)]
pub enum RequestError {
    /// The header block is larger than the limit.
    HeadersAreTooLarge,
    /// The request line or a header is malformed.
    BadHeaders,
    /// A chunk-size line is malformed.
    InvalidChunkSize,
    /// `Content-Length` is given twice.
    DuplicateContentLength,
    /// The handler declined the request in `headers_received`.
    HeadersReceived,
    /// A chunk takes a buffered body past the limit the handler gave.
    ChunkIsTooLarge,
    /// The body is larger than the handler accepts.
    PayloadTooLarge,
    /// The stream ended in the middle of the body.
    PrematureEndOfStream,
    /// The header block did not arrive in time.
    HeadersTimeout,
    /// The body did not arrive in time.
    RequestTimeout,
    /// The handler did not finish in time.
    HandlerTimeout,
    /// A header that decides the framing is not UTF-8.
    BadUtf8,
    /// `Content-Length` is not a number.
    BadContentLength,
}

/// The status code that answers `e`.
pub open spec fn status_code(e: RequestError) -> u16 {
    match e {
        RequestError::HeadersAreTooLarge => 431,
        RequestError::PayloadTooLarge => 413,
        RequestError::HeadersTimeout | RequestError::RequestTimeout => 408,
        RequestError::HandlerTimeout => 504,
        _ => 400,
    }
}

/// The reason phrase that goes with `status_code(e)`.
pub open spec fn status_reason(e: RequestError) -> Seq<u8> {
    match e {
        RequestError::HeadersAreTooLarge => "Request Header Fields Too Large".spec_bytes(),
        RequestError::PayloadTooLarge => "Payload Too Large".spec_bytes(),
        RequestError::HeadersTimeout | RequestError::RequestTimeout => "Request Timeout".spec_bytes(),
        RequestError::HandlerTimeout => "Gateway Timeout".spec_bytes(),
        _ => "Bad Request".spec_bytes(),
    }
}

/// An error that can be rendered as an HTTP error page.
pub trait HttpError {
    /// The status code and the reason phrase of the page.
    spec fn spec_http_status(&self) -> (u16, Seq<u8>);

    /// The status code and the reason phrase of the page.
    fn http_status(&self) -> (r: (u16, &'static str))
        ensures
            r.0 == self.spec_http_status().0,
            r.1.spec_bytes() == self.spec_http_status().1,
    ;
}

impl RequestError {
    /// The status code and the reason phrase that answer this error.
    pub fn status(&self) -> (r: (u16, &'static str))
        ensures
            r.0 == status_code(*self),
            r.1.spec_bytes() == status_reason(*self),
    {
        match self {
            RequestError::HeadersAreTooLarge => (431, "Request Header Fields Too Large"),
            RequestError::PayloadTooLarge => (413, "Payload Too Large"),
            RequestError::HeadersTimeout | RequestError::RequestTimeout => (408, "Request Timeout"),
            RequestError::HandlerTimeout => (504, "Gateway Timeout"),
            _ => (400, "Bad Request"),
        }
    }
}

impl HttpError for RequestError {
    open spec fn spec_http_status(&self) -> (u16, Seq<u8>) {
        (status_code(*self), status_reason(*self))
    }

    fn http_status(&self) -> (r: (u16, &'static str)) {
        self.status()
    }
}

/// Why a connection failed beneath a client exchange.
#[derive(Copy, Clone, Debug, PartialEq, Eq, Structural)]
pub enum ProtocolError {
    /// Connecting failed.
    ConnectError,
    /// The peer closed the connection.
    ConnectionClosed,
    /// Reading from the stream failed.
    ReadError,
    /// Writing to the stream failed.
    WriteError,
}

/// Why a response could not be read.
#[derive(Copy, Clone, Debug, PartialEq, Eq, Structural)]
pub enum ResponseError {
    /// A chunk would make the body larger than the limit (size, limit).
    ChunkIsTooLarge(u64, usize),
    /// A chunk-size line is malformed.
    InvalidChunkSize,
    /// The status line or a header is malformed, or the framing headers
    /// contradict each other.
    BadHeaders,
    /// The declared body is larger than the requester accepts (length,
    /// limit).
    PayloadTooLarge(u64, usize),
    /// The connection failed.
    Connection(ProtocolError),
}

} // verus!
