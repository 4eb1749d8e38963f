//! Plain values shared by the server and the client side.
use vstd::prelude::*;
use vstd::string::StringSliceAdditionalSpecFns;

verus! {

/// A version of the HTTP protocol.
///
/// HTTP/0.9 is not supported.
#[derive(Copy, Clone, Debug, PartialEq, Eq, Hash, PartialOrd, Ord, Structural)]
pub enum Version {
    /// HTTP/1.0.
    Http10,
    /// HTTP/1.1, as RFC 7230 and its companions describe it.
    Http11,
    /// HTTP/2, named here only so that a version can be told apart.
    Http20,
}

/// The text of a version as it stands on a request line or a status line.
pub open spec fn version_text(v: Version) -> Seq<u8> {
    match v {
        Version::Http10 => "HTTP/1.0".spec_bytes(),
        Version::Http11 => "HTTP/1.1".spec_bytes(),
        Version::Http20 => "HTTP/2".spec_bytes(),
    }
}

impl Version {
    /// The version as it is written on the wire.
    pub fn as_str(&self) -> (r: &'static str)
        ensures
            r.spec_bytes() == version_text(*self),
    {
        match self {
            Version::Http10 => "HTTP/1.0",
            Version::Http11 => "HTTP/1.1",
            Version::Http20 => "HTTP/2",
        }
    }
}

/// How a handler wants to receive the body of a message.
#[derive(Copy, Clone, Debug, PartialEq, Eq, Structural)]
pub enum RecvMode {
    /// The whole body is collected and handed over in one slice; the
    /// argument is the largest body accepted.
    Buffered(usize),
    /// The body is handed over piece by piece; the argument is the
    /// smallest piece worth a call (the last piece may be smaller).
    Progressive(usize),
}

/// How the length of a message body is determined.
#[derive(Copy, Clone, Debug, PartialEq, Eq, Structural)]
pub enum BodyKind {
    /// A fixed number of bytes; a message without a body is `Fixed(0)`.
    Fixed(u64),
    /// `Transfer-Encoding: chunked`.
    Chunked,
    /// Read until the connection closes (legacy responses only).
    Eof,
    /// Reserved for protocol upgrades; never produced by the scanner.
    Upgrade,
}

/// How far the body of the message being read has got.
#[derive(Copy, Clone, Debug, PartialEq, Eq, Structural)]
pub enum BodyProgress {
    /// Buffered, fixed size (bytes of the body).
    BufferFixed(usize),
    /// Buffered until the end of the stream (byte limit).
    BufferEof(usize),
    /// Buffered, chunked (limit, body bytes buffered, bytes left in the
    /// current chunk).
    BufferChunked(usize, usize, usize),
    /// Progressive, fixed size (size hint, bytes left).
    ProgressiveFixed(usize, u64),
    /// Progressive until the end of the stream (size hint).
    ProgressiveEof(usize),
    /// Progressive, chunked (size hint, body bytes held back, bytes left in
    /// the current chunk).
    ProgressiveChunked(usize, usize, u64),
}

/// The progress value that reading a body of kind `body` in mode `mode`
/// starts from.
pub open spec fn start_progress(mode: RecvMode, body: BodyKind) -> BodyProgress {
    match (mode, body) {
        (RecvMode::Buffered(_), BodyKind::Fixed(y)) => BodyProgress::BufferFixed(y as usize),
        (RecvMode::Buffered(x), BodyKind::Eof) => BodyProgress::BufferEof(x),
        (RecvMode::Progressive(x), BodyKind::Fixed(y)) => BodyProgress::ProgressiveFixed(x, y),
        (RecvMode::Progressive(x), BodyKind::Eof) => BodyProgress::ProgressiveEof(x),
        (RecvMode::Buffered(x), _) => BodyProgress::BufferChunked(x, 0, 0),
        (RecvMode::Progressive(x), _) => BodyProgress::ProgressiveChunked(x, 0, 0),
    }
}

/// A body of kind `body` may be read in mode `mode`: upgrades are not
/// supported, and a buffered fixed-size body must fit the limit.
pub open spec fn can_start(mode: RecvMode, body: BodyKind) -> bool {
    &&& body != BodyKind::Upgrade
    &&& match (mode, body) {
        (RecvMode::Buffered(x), BodyKind::Fixed(y)) => y <= x,
        _ => true,
    }
}

impl BodyProgress {
    /// The progress at the start of a body of kind `body` read in `mode`.
    pub fn start(mode: RecvMode, body: BodyKind) -> (r: BodyProgress)
        requires
            can_start(mode, body),
        ensures
            r == start_progress(mode, body),
    {
        match (mode, body) {
            (RecvMode::Buffered(_), BodyKind::Fixed(y)) => BodyProgress::BufferFixed(y as usize),
            (RecvMode::Buffered(x), BodyKind::Eof) => BodyProgress::BufferEof(x),
            (RecvMode::Progressive(x), BodyKind::Fixed(y)) => BodyProgress::ProgressiveFixed(x, y),
            (RecvMode::Progressive(x), BodyKind::Eof) => BodyProgress::ProgressiveEof(x),
            (RecvMode::Buffered(x), _) => BodyProgress::BufferChunked(x, 0, 0),
            (RecvMode::Progressive(x), _) => BodyProgress::ProgressiveChunked(x, 0, 0),
        }
    }
}

} // verus!
