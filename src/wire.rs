//! The header block and chunk-size lines as the `httparse` crate reads them,
//! handed over as plain values.
use vstd::prelude::*;

verus! {

/// The most headers a message may have.
pub const MAX_HEADERS_NUM: usize = 256;

/// The largest header block, in bytes.
pub const MAX_HEADERS_SIZE: usize = 16384;

/// The longest chunk-size line, in bytes.
pub const MAX_CHUNK_HEAD: usize = 128;

/// One header line: its name and its raw value.
#[derive(Clone, Debug, PartialEq, Eq)]
pub struct RawHeader {
    pub name: Vec<u8>,
    pub value: Vec<u8>,
}

/// A parsed request line and header block.
#[derive(Clone, Debug, PartialEq, Eq)]
pub struct RawRequest {
    /// Bytes of the input taken by the head, final empty line included.
    pub len: usize,
    pub method: Vec<u8>,
    pub path: Vec<u8>,
    /// The minor version: 0 for HTTP/1.0, 1 for HTTP/1.1.
    pub version: u8,
    pub headers: Vec<RawHeader>,
}

/// A parsed status line and header block.
#[derive(Clone, Debug, PartialEq, Eq)]
pub struct RawResponse {
    /// Bytes of the input taken by the head, final empty line included.
    pub len: usize,
    /// The minor version: 0 for HTTP/1.0, 1 for HTTP/1.1.
    pub version: u8,
    pub code: u16,
    pub reason: Vec<u8>,
    pub headers: Vec<RawHeader>,
}

/// Why a head could not be parsed.
#[derive(Copy, Clone, Debug, PartialEq, Eq, Structural)]
pub enum HeadError {
    /// More headers than `MAX_HEADERS_NUM`.
    TooManyHeaders,
    /// Any other syntax error.
    Malformed,
}

/// The headers as (name, value) pairs of bytes.
pub open spec fn headers_view(hs: Seq<RawHeader>) -> Seq<(Seq<u8>, Seq<u8>)> {
    hs.map_values(|h: RawHeader| (h.name@, h.value@))
}

/// A parsed request as plain values: length, method, path, minor version,
/// headers.
pub open spec fn request_view(r: RawRequest) -> (nat, Seq<u8>, Seq<u8>, u8, Seq<(Seq<u8>, Seq<u8>)>) {
    (r.len as nat, r.method@, r.path@, r.version, headers_view(r.headers@))
}

/// A parsed response as plain values: length, minor version, code,
/// reason, headers.
pub open spec fn response_view(r: RawResponse) -> (nat, u8, u16, Seq<u8>, Seq<(Seq<u8>, Seq<u8>)>) {
    (r.len as nat, r.version, r.code, r.reason@, headers_view(r.headers@))
}

/// What `httparse` reads from the start of `b` as a request head: `None`
/// where the head is not complete yet.
pub uninterp spec fn parsed_request(b: Seq<u8>) -> Result<
    Option<(nat, Seq<u8>, Seq<u8>, u8, Seq<(Seq<u8>, Seq<u8>)>)>,
    HeadError,
>;

/// What `httparse` reads from the start of `b` as a response head: `None`
/// where the head is not complete yet.
pub uninterp spec fn parsed_response(b: Seq<u8>) -> Result<
    Option<(nat, u8, u16, Seq<u8>, Seq<(Seq<u8>, Seq<u8>)>)>,
    HeadError,
>;

/// What `httparse` reads from the start of `b` as a chunk-size line: the
/// bytes of the line and the size, `None` where the line is not complete.
pub uninterp spec fn parsed_chunk_size(b: Seq<u8>) -> Result<Option<(nat, u64)>, ()>;

pub open spec fn request_result_view(r: Result<Option<RawRequest>, HeadError>) -> Result<
    Option<(nat, Seq<u8>, Seq<u8>, u8, Seq<(Seq<u8>, Seq<u8>)>)>,
    HeadError,
> {
    match r {
        Ok(Some(q)) => Ok(Some(request_view(q))),
        Ok(None) => Ok(None),
        Err(e) => Err(e),
    }
}

pub open spec fn response_result_view(r: Result<Option<RawResponse>, HeadError>) -> Result<
    Option<(nat, u8, u16, Seq<u8>, Seq<(Seq<u8>, Seq<u8>)>)>,
    HeadError,
> {
    match r {
        Ok(Some(q)) => Ok(Some(response_view(q))),
        Ok(None) => Ok(None),
        Err(e) => Err(e),
    }
}

pub open spec fn chunk_result_view(r: Result<Option<(usize, u64)>, ()>) -> Result<
    Option<(nat, u64)>,
    (),
> {
    match r {
        Ok(Some((n, size))) => Ok(Some((n as nat, size))),
        Ok(None) => Ok(None),
        Err(e) => Err(e),
    }
}

/// Relies on `httparse::Request::parse` with room for `MAX_HEADERS_NUM`
/// headers: a complete head takes at most the whole input and has at most
/// that many headers.
#[verifier::external_body]
pub(crate) fn parse_request_head(buf: &[u8]) -> (r: Result<Option<RawRequest>, HeadError>)
    ensures
        request_result_view(r) == parsed_request(buf@),
        r matches Ok(Some(q)) ==> q.len <= buf@.len() && q.headers@.len() <= MAX_HEADERS_NUM,
{
    let mut hs = [httparse::EMPTY_HEADER; MAX_HEADERS_NUM];
    let mut raw = httparse::Request::new(&mut hs);
    match raw.parse(buf) {
        Ok(httparse::Status::Complete(len)) => Ok(Some(RawRequest {
            len,
            method: raw.method.unwrap_or("").as_bytes().to_vec(),
            path: raw.path.unwrap_or("").as_bytes().to_vec(),
            version: raw.version.unwrap_or(0),
            headers: raw.headers.iter().map(|h| RawHeader { name: h.name.as_bytes().to_vec(), value: h.value.to_vec() }).collect(),
        })),
        Ok(httparse::Status::Partial) => Ok(None),
        Err(httparse::Error::TooManyHeaders) => Err(HeadError::TooManyHeaders),
        Err(_) => Err(HeadError::Malformed),
    }
}

/// Relies on `httparse::Response::parse` with room for `MAX_HEADERS_NUM`
/// headers: a complete head takes at most the whole input and has at most
/// that many headers.
#[verifier::external_body]
pub(crate) fn parse_response_head(buf: &[u8]) -> (r: Result<Option<RawResponse>, HeadError>)
    ensures
        response_result_view(r) == parsed_response(buf@),
        r matches Ok(Some(q)) ==> q.len <= buf@.len() && q.headers@.len() <= MAX_HEADERS_NUM,
{
    let mut hs = [httparse::EMPTY_HEADER; MAX_HEADERS_NUM];
    let mut raw = httparse::Response::new(&mut hs);
    match raw.parse(buf) {
        Ok(httparse::Status::Complete(len)) => Ok(Some(RawResponse {
            len,
            version: raw.version.unwrap_or(0),
            code: raw.code.unwrap_or(0),
            reason: raw.reason.unwrap_or("").as_bytes().to_vec(),
            headers: raw.headers.iter().map(|h| RawHeader { name: h.name.as_bytes().to_vec(), value: h.value.to_vec() }).collect(),
        })),
        Ok(httparse::Status::Partial) => Ok(None),
        Err(httparse::Error::TooManyHeaders) => Err(HeadError::TooManyHeaders),
        Err(_) => Err(HeadError::Malformed),
    }
}

/// Relies on `httparse::parse_chunk_size`: a complete line ends in CRLF,
/// so it takes at least two bytes and at most the whole input.
#[verifier::external_body]
pub(crate) fn parse_chunk_size(buf: &[u8]) -> (r: Result<Option<(usize, u64)>, ()>)
    ensures
        chunk_result_view(r) == parsed_chunk_size(buf@),
        r matches Ok(Some((n, _))) ==> 2 <= n <= buf@.len(),
{
    match httparse::parse_chunk_size(buf) {
        Ok(httparse::Status::Complete((n, size))) => Ok(Some((n, size))),
        Ok(httparse::Status::Partial) => Ok(None),
        Err(_) => Err(()),
    }
}

} // verus!
