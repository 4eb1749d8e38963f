//! The message builder: writes a request or a response into an output
//! buffer as its methods are called, and keeps the framing of the message
//! consistent while doing so.
use vstd::prelude::*;
use vstd::string::StringSliceAdditionalSpecFns;

use crate::digits::{decimal, hex, push_decimal, push_hex};
use crate::headers::{content_length_word, same_letters, transfer_encoding_word};
use crate::shared::{version_text, Version};

verus! {

/// What the builder refuses while headers are written.
#[derive(Copy, Clone, Debug, PartialEq, Eq, Structural)]
pub enum HeaderError {
    /// `add_length` was called twice.
    DuplicateContentLength,
    /// `add_chunked` was called twice.
    DuplicateTransferEncoding,
    /// `add_chunked` after `add_length`.
    TransferEncodingAfterContentLength,
    /// `add_length` after `add_chunked`.
    ContentLengthAfterTransferEncoding,
    /// A response without `Content-Length` or `Transfer-Encoding` where a
    /// body is owed.
    CantDetermineBodySize,
    /// `Content-Length` or `Transfer-Encoding` given to `add_header`.
    BodyLengthHeader,
}

/// Whether the message may carry a body.
#[derive(Copy, Clone, Debug, PartialEq, Eq, Structural)]
pub enum Body {
    /// A body framed by the headers.
    Normal,
    /// The headers describe a body that is not sent (HEAD, 304).
    Ignored,
    /// No body at all (1xx, 204).
    Denied,
}

/// The lifecycle of an outgoing message; it only moves forward.
#[derive(Copy, Clone, Debug, PartialEq, Eq, Structural)]
pub enum MessageState {
    /// Nothing of the response has been written.
    ResponseStart { version: Version, body: Body, close: bool },
    /// Nothing of the request has been written.
    RequestStart,
    /// The first line is written; headers may follow.
    Headers {
        body: Body,
        chunked: bool,
        close: bool,
        request: bool,
        content_length: Option<u64>,
    },
    /// Headers are done; the message has no body.
    ZeroBodyMessage,
    /// Headers are done; body bytes are dropped.
    IgnoredBody,
    /// Headers are done; this many body bytes are still owed.
    FixedSizeBody(u64),
    /// Headers are done; the body is sent in chunks.
    ChunkedBody,
    /// The message is complete.
    Done,
}

pub open spec fn crlf() -> Seq<u8> {
    seq![13u8, 10u8]
}

pub open spec fn space() -> Seq<u8> {
    seq![32u8]
}

/// `HTTP/1.1 200 OK\r\n`
pub open spec fn status_line(version: Version, code: u16, reason: Seq<u8>) -> Seq<u8> {
    version_text(version) + space() + decimal(code as nat) + space() + reason + crlf()
}

/// `GET / HTTP/1.1\r\n`
pub open spec fn request_line_text(method: Seq<u8>, path: Seq<u8>, version: Version) -> Seq<u8> {
    method + space() + path + space() + version_text(version) + crlf()
}

/// `Name: value\r\n`
pub open spec fn header_line(name: Seq<u8>, value: Seq<u8>) -> Seq<u8> {
    name + seq![58u8, 32u8] + value + crlf()
}

/// The interim `100 Continue` response.
pub open spec fn continue_line(version: Version) -> Seq<u8> {
    version_text(version) + " 100 Continue".spec_bytes() + crlf() + crlf()
}

/// One chunk of a chunked body: size line, data, line end.
pub open spec fn chunk_text(data: Seq<u8>) -> Seq<u8> {
    hex(data.len()) + crlf() + data + crlf()
}

/// The last chunk of a chunked body and the empty trailer.
pub open spec fn last_chunk() -> Seq<u8> {
    seq![48u8] + crlf() + crlf()
}

pub open spec fn content_length_line(n: u64) -> Seq<u8> {
    header_line("Content-Length".spec_bytes(), decimal(n as nat))
}

pub open spec fn chunked_line() -> Seq<u8> {
    header_line("Transfer-Encoding".spec_bytes(), "chunked".spec_bytes())
}

pub open spec fn close_line() -> Seq<u8> {
    header_line("Connection".spec_bytes(), "close".spec_bytes())
}

/// Header names that only the framing methods may write.
pub open spec fn is_body_length_name(name: Seq<u8>) -> bool {
    same_letters(name, content_length_word()) || same_letters(name, transfer_encoding_word())
}

/// The body policy after the status `code` is written.
pub open spec fn body_after_status(body: Body, code: u16) -> Body {
    if (100 <= code && code < 200) || code == 204 {
        Body::Denied
    } else if body == Body::Normal && code == 304 {
        Body::Ignored
    } else {
        body
    }
}

/// The state `done_headers` moves to, or `None` where the response cannot
/// tell the length of its body.
pub open spec fn state_after_headers(s: MessageState) -> Option<MessageState> {
    match s {
        MessageState::Headers { body, chunked, request, content_length, .. } => {
            if body == Body::Ignored {
                Some(MessageState::IgnoredBody)
            } else if body == Body::Denied {
                Some(MessageState::ZeroBodyMessage)
            } else if chunked {
                Some(MessageState::ChunkedBody)
            } else if content_length.is_some() {
                Some(MessageState::FixedSizeBody(content_length.unwrap()))
            } else if request {
                Some(MessageState::FixedSizeBody(0))
            } else {
                None
            }
        },
        _ => None,
    }
}

/// What `add_length` answers in state `s`.
pub open spec fn length_check(s: MessageState) -> Result<(), HeaderError> {
    match s {
        MessageState::Headers { content_length: Some(_), .. } => Err(
            HeaderError::DuplicateContentLength,
        ),
        MessageState::Headers { chunked: true, .. } => Err(
            HeaderError::ContentLengthAfterTransferEncoding,
        ),
        _ => Ok(()),
    }
}

/// What `add_chunked` answers in state `s`.
pub open spec fn chunked_check(s: MessageState) -> Result<(), HeaderError> {
    match s {
        MessageState::Headers { content_length: Some(_), .. } => Err(
            HeaderError::TransferEncodingAfterContentLength,
        ),
        MessageState::Headers { chunked: true, .. } => Err(HeaderError::DuplicateTransferEncoding),
        _ => Ok(()),
    }
}

/// State `s` with the body length `n` recorded.
pub open spec fn with_length(s: MessageState, n: u64) -> MessageState {
    match s {
        MessageState::Headers { body, chunked, close, request, .. } => MessageState::Headers {
            body,
            chunked,
            close,
            request,
            content_length: Some(n),
        },
        _ => s,
    }
}

/// State `s` with chunked framing recorded.
pub open spec fn with_chunked(s: MessageState) -> MessageState {
    match s {
        MessageState::Headers { body, close, request, content_length, .. } => MessageState::Headers {
            body,
            chunked: true,
            close,
            request,
            content_length,
        },
        _ => s,
    }
}

/// Whether `data` may be written as body in state `s`.
pub open spec fn body_fits(s: MessageState, len: nat) -> bool {
    match s {
        MessageState::ZeroBodyMessage | MessageState::IgnoredBody | MessageState::ChunkedBody => true,
        MessageState::FixedSizeBody(n) => len <= n,
        _ => false,
    }
}

/// Whether `done` may be called in state `s`.
pub open spec fn can_finish(s: MessageState) -> bool {
    match s {
        MessageState::ChunkedBody | MessageState::ZeroBodyMessage | MessageState::IgnoredBody
        | MessageState::Done => true,
        MessageState::FixedSizeBody(n) => n == 0,
        _ => false,
    }
}

/// A response to a HEAD request, or one with status 1xx, 204 or 304, never
/// carries body bytes: whatever framing headers were written, the headers
/// end in a state where `write_body` writes nothing.
pub proof fn lemma_bodiless_responses(
    is_head: bool,
    code: u16,
    close: bool,
    chunked: bool,
    content_length: Option<u64>,
)
    requires
        is_head || (100 <= code && code < 200) || code == 204 || code == 304,
    ensures
        ({
            let start = if is_head {
                Body::Ignored
            } else {
                Body::Normal
            };
            let s = state_after_headers(
                MessageState::Headers {
                    body: body_after_status(start, code),
                    chunked,
                    close,
                    request: false,
                    content_length,
                },
            );
            s == Some(MessageState::IgnoredBody) || s == Some(MessageState::ZeroBodyMessage)
        }),
{
}

impl MessageState {
    /// Length and chunked framing are never both chosen.
    pub open spec fn wf(self) -> bool {
        match self {
            MessageState::Headers { chunked, content_length, .. } => !(chunked
                && content_length.is_some()),
            _ => true,
        }
    }

    pub open spec fn spec_is_started(self) -> bool {
        !(self is RequestStart || self is ResponseStart)
    }

    /// Joins the state to an output buffer to continue building.
    pub fn with(self, out_buf: Vec<u8>) -> (r: Message)
        ensures
            r.spec_state() == self,
            r.output() == out_buf@,
    {
        Message { buf: out_buf, st: self }
    }

    /// True once the first line of the message is written.
    pub fn is_started(&self) -> (r: bool)
        ensures
            r == self.spec_is_started(),
    {
        !matches!(self, MessageState::RequestStart | MessageState::ResponseStart { .. })
    }
}

/// A request or a response being written into its output buffer.
pub struct Message {
    buf: Vec<u8>,
    st: MessageState,
}

/// Appends `b` to `out`.
pub fn append_bytes(out: &mut Vec<u8>, b: &[u8])
    ensures
        final(out)@ == old(out)@ + b@,
{
    let mut i: usize = 0;
    while i < b.len()
        invariant
            0 <= i <= b@.len(),
            out@ == old(out)@ + b@.subrange(0, i as int),
        decreases b@.len() - i,
    {
        out.push(b[i]);
        assert(b@.subrange(0, i + 1) == b@.subrange(0, i as int).push(b@[i as int]));
        i = i + 1;
    }
    assert(b@.subrange(0, b@.len() as int) == b@);
}

fn append_crlf(out: &mut Vec<u8>)
    ensures
        final(out)@ == old(out)@ + crlf(),
{
    out.push(13);
    out.push(10);
}

fn append_header(out: &mut Vec<u8>, name: &[u8], value: &[u8])
    ensures
        final(out)@ == old(out)@ + header_line(name@, value@),
{
    let ghost start = out@;
    append_bytes(out, name);
    out.push(58);
    out.push(32);
    append_bytes(out, value);
    append_crlf(out);
    assert(out@ =~= start + header_line(name@, value@));
}

impl Message {
    /// The bytes written so far, with what the buffer held before.
    pub closed spec fn output(&self) -> Seq<u8> {
        self.buf@
    }

    /// Where the message stands.
    pub closed spec fn spec_state(&self) -> MessageState {
        self.st
    }

    /// Writes the status line of a response.
    pub fn response_status(&mut self, code: u16, reason: &str)
        requires
            old(self).spec_state() is ResponseStart,
        ensures
            final(self).output() == old(self).output() + status_line(
                old(self).spec_state()->ResponseStart_version,
                code,
                reason.spec_bytes(),
            ),
            final(self).spec_state() == (MessageState::Headers {
                body: body_after_status(old(self).spec_state()->ResponseStart_body, code),
                chunked: false,
                close: old(self).spec_state()->ResponseStart_close,
                request: false,
                content_length: None,
            }),
    {
        match self.st {
            MessageState::ResponseStart { version, body, close } => {
                let ghost start = self.buf@;
                append_bytes(&mut self.buf, version.as_str().as_bytes());
                self.buf.push(32);
                push_decimal(&mut self.buf, code as u64);
                self.buf.push(32);
                append_bytes(&mut self.buf, reason.as_bytes());
                append_crlf(&mut self.buf);
                assert(self.buf@ =~= start + status_line(version, code, reason.spec_bytes()));
                let new_body = if (100 <= code && code < 200) || code == 204 {
                    Body::Denied
                } else if body == Body::Normal && code == 304 {
                    Body::Ignored
                } else {
                    body
                };
                self.st =
                MessageState::Headers {
                    body: new_body,
                    chunked: false,
                    close,
                    request: false,
                    content_length: None,
                };
            },
            _ => {},
        }
    }

    /// Writes the interim `100 Continue` response before any real one.
    pub fn response_continue(&mut self)
        requires
            old(self).spec_state() is ResponseStart,
        ensures
            final(self).output() == old(self).output() + continue_line(
                old(self).spec_state()->ResponseStart_version,
            ),
            final(self).spec_state() == old(self).spec_state(),
    {
        match self.st {
            MessageState::ResponseStart { version, .. } => {
                let ghost start = self.buf@;
                append_bytes(&mut self.buf, version.as_str().as_bytes());
                append_bytes(&mut self.buf, " 100 Continue".as_bytes());
                append_crlf(&mut self.buf);
                append_crlf(&mut self.buf);
                assert(self.buf@ =~= start + continue_line(version));
            },
            _ => {},
        }
    }

    /// Writes the request line of a request.
    pub fn request_line(&mut self, method: &str, path: &str, version: Version)
        requires
            old(self).spec_state() is RequestStart,
        ensures
            final(self).output() == old(self).output() + request_line_text(
                method.spec_bytes(),
                path.spec_bytes(),
                version,
            ),
            final(self).spec_state() == (MessageState::Headers {
                body: Body::Normal,
                chunked: false,
                close: false,
                request: true,
                content_length: None,
            }),
    {
        let ghost start = self.buf@;
        append_bytes(&mut self.buf, method.as_bytes());
        self.buf.push(32);
        append_bytes(&mut self.buf, path.as_bytes());
        self.buf.push(32);
        append_bytes(&mut self.buf, version.as_str().as_bytes());
        append_crlf(&mut self.buf);
        assert(self.buf@ =~= start + request_line_text(
            method.spec_bytes(),
            path.spec_bytes(),
            version,
        ));
        self.st =
        MessageState::Headers {
            body: Body::Normal,
            chunked: false,
            close: false,
            request: true,
            content_length: None,
        };
    }

    /// Writes one header; the framing headers are refused here.
    pub fn add_header(&mut self, name: &str, value: &[u8]) -> (r: Result<(), HeaderError>)
        requires
            old(self).spec_state() is Headers,
        ensures
            is_body_length_name(name.spec_bytes()) ==> r == Err::<(), HeaderError>(
                HeaderError::BodyLengthHeader,
            ) && final(self).output() == old(self).output(),
            !is_body_length_name(name.spec_bytes()) ==> r is Ok && final(self).output()
                == old(self).output() + header_line(name.spec_bytes(), value@),
            final(self).spec_state() == old(self).spec_state(),
    {
        if crate::headers::is_content_length(name) || crate::headers::is_transfer_encoding(name) {
            return Err(HeaderError::BodyLengthHeader);
        }
        append_header(&mut self.buf, name.as_bytes(), value);
        Ok(())
    }

    /// Writes `Content-Length: n`.
    pub fn add_length(&mut self, n: u64) -> (r: Result<(), HeaderError>)
        requires
            old(self).spec_state() is Headers,
        ensures
            r == length_check(old(self).spec_state()),
            r is Err ==> *final(self) == *old(self),
            r is Ok ==> final(self).output() == old(self).output() + content_length_line(n)
                && final(self).spec_state() == with_length(old(self).spec_state(), n),
    {
        match self.st {
            MessageState::Headers { content_length: Some(_), .. } => {
                return Err(HeaderError::DuplicateContentLength);
            },
            MessageState::Headers { chunked: true, .. } => {
                return Err(HeaderError::ContentLengthAfterTransferEncoding);
            },
            MessageState::Headers { body, chunked, close, request, .. } => {
                self.st = MessageState::Headers {
                    body,
                    chunked,
                    close,
                    request,
                    content_length: Some(n),
                };
            },
            _ => {},
        }
        let mut digits: Vec<u8> = Vec::new();
        push_decimal(&mut digits, n);
        assert(digits@ =~= decimal(n as nat));
        append_header(&mut self.buf, "Content-Length".as_bytes(), digits.as_slice());
        Ok(())
    }

    /// Writes `Transfer-Encoding: chunked`.
    pub fn add_chunked(&mut self) -> (r: Result<(), HeaderError>)
        requires
            old(self).spec_state() is Headers,
        ensures
            r == chunked_check(old(self).spec_state()),
            r is Err ==> *final(self) == *old(self),
            r is Ok ==> final(self).output() == old(self).output() + chunked_line()
                && final(self).spec_state() == with_chunked(old(self).spec_state()),
    {
        match self.st {
            MessageState::Headers { content_length: Some(_), .. } => {
                return Err(HeaderError::TransferEncodingAfterContentLength);
            },
            MessageState::Headers { chunked: true, .. } => {
                return Err(HeaderError::DuplicateTransferEncoding);
            },
            MessageState::Headers { body, close, request, content_length, .. } => {
                self.st = MessageState::Headers {
                    body,
                    chunked: true,
                    close,
                    request,
                    content_length,
                };
            },
            _ => {},
        }
        append_header(&mut self.buf, "Transfer-Encoding".as_bytes(), "chunked".as_bytes());
        Ok(())
    }

    /// True once the first line is written.
    pub fn is_started(&self) -> (r: bool)
        ensures
            r == self.spec_state().spec_is_started(),
    {
        self.st.is_started()
    }

    /// Ends the header block and tells whether a body is expected.
    ///
    /// `Connection: close` is written first where the message must close
    /// the connection.
    pub fn done_headers(&mut self) -> (r: Result<bool, HeaderError>)
        requires
            old(self).spec_state() is Headers,
            old(self).spec_state().wf(),
        ensures
            final(self).output() == old(self).output() + (if old(self).spec_state()->Headers_close {
                close_line()
            } else {
                Seq::empty()
            }) + crlf(),
            state_after_headers(old(self).spec_state()) is None ==> r == Err::<bool, HeaderError>(
                HeaderError::CantDetermineBodySize,
            ) && final(self).spec_state() == old(self).spec_state(),
            state_after_headers(old(self).spec_state()) is Some ==> final(self).spec_state()
                == state_after_headers(old(self).spec_state())->Some_0 && r == Ok::<bool, HeaderError>(
                old(self).spec_state()->Headers_body == Body::Normal && (old(self).spec_state()->Headers_chunked || old(self).spec_state()->Headers_content_length is Some)),
    {
        let ghost start = self.buf@;
        let (body, chunked, close, request, content_length) = match self.st {
            MessageState::Headers { body, chunked, close, request, content_length } => (
                body,
                chunked,
                close,
                request,
                content_length,
            ),
            _ => (Body::Normal, false, false, false, None),
        };
        if close {
            append_header(&mut self.buf, "Connection".as_bytes(), "close".as_bytes());
        }
        let r = if body == Body::Ignored {
            self.st = MessageState::IgnoredBody;
            Ok(false)
        } else if body == Body::Denied {
            self.st = MessageState::ZeroBodyMessage;
            Ok(false)
        } else if chunked {
            self.st = MessageState::ChunkedBody;
            Ok(true)
        } else if let Some(n) = content_length {
            self.st = MessageState::FixedSizeBody(n);
            Ok(true)
        } else if request {
            self.st = MessageState::FixedSizeBody(0);
            Ok(false)
        } else {
            Err(HeaderError::CantDetermineBodySize)
        };
        append_crlf(&mut self.buf);
        assert(self.buf@ =~= start + (if close {
            close_line()
        } else {
            Seq::empty()
        }) + crlf());
        r
    }

    /// Writes a piece of the body.
    ///
    /// A fixed-size body takes no more than it still owes; a chunked body
    /// gets one chunk per non-empty piece; an ignored or denied body drops
    /// the bytes.
    pub fn write_body(&mut self, data: &[u8])
        requires
            body_fits(old(self).spec_state(), data@.len()),
        ensures
            match old(self).spec_state() {
                MessageState::FixedSizeBody(n) => final(self).output() == old(self).output()
                    + data@ && final(self).spec_state() == MessageState::FixedSizeBody(
                    (n - data@.len()) as u64,
                ),
                MessageState::ChunkedBody => final(self).output() == old(self).output() + (if data@.len()
                    == 0 {
                    Seq::empty()
                } else {
                    chunk_text(data@)
                }) && final(self).spec_state() == old(self).spec_state(),
                _ => final(self).output() == old(self).output() && final(self).spec_state() == old(self).spec_state(),
            },
    {
        let ghost start = self.buf@;
        match self.st {
            MessageState::FixedSizeBody(n) => {
                append_bytes(&mut self.buf, data);
                self.st = MessageState::FixedSizeBody(n - data.len() as u64);
            },
            MessageState::ChunkedBody => {
                if data.len() > 0 {
                    push_hex(&mut self.buf, data.len() as u64);
                    append_crlf(&mut self.buf);
                    append_bytes(&mut self.buf, data);
                    append_crlf(&mut self.buf);
                    assert(self.buf@ =~= start + chunk_text(data@));
                } else {
                    assert(self.buf@ =~= start + Seq::empty());
                }
            },
            _ => {},
        }
    }

    /// Appends bytes that are not part of the message being built.
    pub(crate) fn append_raw(&mut self, b: &[u8])
        ensures
            final(self).output() == old(self).output() + b@,
            final(self).spec_state() == old(self).spec_state(),
    {
        append_bytes(&mut self.buf, b);
    }

    /// The state, keeping the buffer.
    pub fn peek_state(&self) -> (r: MessageState)
        ensures
            r == self.spec_state(),
    {
        self.st
    }

    /// True once `done` has completed the message.
    pub fn is_complete(&self) -> (r: bool)
        ensures
            r == (self.spec_state() == MessageState::Done),
    {
        matches!(self.st, MessageState::Done)
    }

    /// Completes the message: the last chunk of a chunked body is written.
    /// Calling it again changes nothing.
    pub fn done(&mut self)
        requires
            can_finish(old(self).spec_state()),
        ensures
            final(self).spec_state() == MessageState::Done,
            final(self).output() == old(self).output() + (if old(self).spec_state()
                == MessageState::ChunkedBody {
                last_chunk()
            } else {
                Seq::empty()
            }),
    {
        let ghost start = self.buf@;
        if let MessageState::ChunkedBody = self.st {
            self.buf.push(48);
            append_crlf(&mut self.buf);
            append_crlf(&mut self.buf);
            assert(self.buf@ =~= start + last_chunk());
        } else {
            assert(self.buf@ =~= start + Seq::empty());
        }
        self.st = MessageState::Done;
    }

    /// The state, giving up the buffer.
    pub fn state(self) -> (r: MessageState)
        ensures
            r == self.spec_state(),
    {
        self.st
    }

    /// The buffer and the state.
    pub fn decompose(self) -> (r: (Vec<u8>, MessageState))
        ensures
            r.0@ == self.output(),
            r.1 == self.spec_state(),
    {
        (self.buf, self.st)
    }
}

} // verus!
