//! The response builder handed to server handlers.
use vstd::prelude::*;
use vstd::string::StringSliceAdditionalSpecFns;

use crate::digits::decimal;
use crate::error::{status_code, status_reason, RequestError};
use crate::message::{
    append_bytes, body_after_status, body_fits, can_finish, chunk_text, chunked_check, chunked_line,
    close_line, content_length_line, continue_line, crlf, header_line, is_body_length_name,
    last_chunk, length_check, state_after_headers, status_line, with_chunked, with_length, Body,
    HeaderError, Message, MessageState,
};
use crate::shared::Version;

verus! {

/// Sent when a response is dropped before anything was written. A correct
/// handler never lets it reach the wire.
pub const NOT_IMPLEMENTED: &'static str =
    "HTTP/1.0 501 Not Implemented\r\nContent-Type: text/plain\r\nContent-Length: 21\r\n\r\n501 Not Implemented\r\n";

/// The same as `NOT_IMPLEMENTED`, for responses that carry no body.
pub const NOT_IMPLEMENTED_HEAD: &'static str =
    "HTTP/1.0 501 Not Implemented\r\nContent-Type: text/plain\r\nContent-Length: 21\r\n\r\n";

/// The body policy a response starts with.
pub open spec fn initial_body(is_head: bool) -> Body {
    if is_head {
        Body::Ignored
    } else {
        Body::Normal
    }
}

/// A server response being written into the connection's output buffer.
pub struct Response(Message);

impl Response {
    /// The bytes of the output buffer.
    pub closed spec fn output(&self) -> Seq<u8> {
        self.0.output()
    }

    /// Where the response stands.
    pub closed spec fn spec_state(&self) -> MessageState {
        self.0.spec_state()
    }

    /// Continues a response from its state and buffer.
    pub fn from_message(msg: Message) -> (r: Response)
        ensures
            r.output() == msg.output(),
            r.spec_state() == msg.spec_state(),
    {
        Response(msg)
    }

    /// A response to a request of `version`; `is_head` for a HEAD request,
    /// `do_close` where the connection closes after it (HTTP/1.0 always does).
    pub fn new(out_buf: Vec<u8>, version: Version, is_head: bool, do_close: bool) -> (r: Response)
        ensures
            r.output() == out_buf@,
            r.spec_state() == (MessageState::ResponseStart {
                version,
                body: initial_body(is_head),
                close: do_close || version == Version::Http10,
            }),
    {
        let body = if is_head {
            Body::Ignored
        } else {
            Body::Normal
        };
        let close = do_close || version == Version::Http10;
        Response(MessageState::ResponseStart { version, body, close }.with(out_buf))
    }

    /// Tells whether the connection may be kept alive after this response.
    /// A response never started is replaced by a `501` page.
    pub fn finish(&mut self) -> (r: bool)
        ensures
            r == (old(self).spec_state() == MessageState::Done),
            final(self).spec_state() == old(self).spec_state(),
            final(self).output() == old(self).output() + match old(self).spec_state() {
                MessageState::ResponseStart { body: Body::Normal, .. } => NOT_IMPLEMENTED.spec_bytes(),
                MessageState::ResponseStart { .. } => NOT_IMPLEMENTED_HEAD.spec_bytes(),
                _ => Seq::empty(),
            },
    {
        if self.0.is_complete() {
            return true;
        }
        match self.0.peek_state() {
            MessageState::ResponseStart { body: Body::Normal, .. } => {
                self.0.append_raw(NOT_IMPLEMENTED.as_bytes());
            },
            MessageState::ResponseStart { .. } => {
                self.0.append_raw(NOT_IMPLEMENTED_HEAD.as_bytes());
            },
            _ => {},
        }
        false
    }

    /// Writes the status line.
    pub fn status(&mut self, code: u16, reason: &str)
        requires
            old(self).spec_state() is ResponseStart,
        ensures
            final(self).output() == old(self).output() + status_line(
                old(self).spec_state()->ResponseStart_version,
                code,
                reason.spec_bytes(),
            ),
            final(self).spec_state() == (MessageState::Headers {
                body: body_after_status(old(self).spec_state()->ResponseStart_body, code),
                chunked: false,
                close: old(self).spec_state()->ResponseStart_close,
                request: false,
                content_length: None,
            }),
    {
        self.0.response_status(code, reason)
    }

    /// Writes the interim `100 Continue` line.
    pub fn response_continue(&mut self)
        requires
            old(self).spec_state() is ResponseStart,
        ensures
            final(self).output() == old(self).output() + continue_line(
                old(self).spec_state()->ResponseStart_version,
            ),
            final(self).spec_state() == old(self).spec_state(),
    {
        self.0.response_continue()
    }

    /// Writes one header; `Content-Length` and `Transfer-Encoding` are refused.
    pub fn add_header(&mut self, name: &str, value: &[u8]) -> (r: Result<(), HeaderError>)
        requires
            old(self).spec_state() is Headers,
        ensures
            is_body_length_name(name.spec_bytes()) ==> r == Err::<(), HeaderError>(
                HeaderError::BodyLengthHeader,
            ) && final(self).output() == old(self).output(),
            !is_body_length_name(name.spec_bytes()) ==> r is Ok && final(self).output()
                == old(self).output() + header_line(name.spec_bytes(), value@),
            final(self).spec_state() == old(self).spec_state(),
    {
        self.0.add_header(name, value)
    }

    /// Writes `Content-Length: n`.
    pub fn add_length(&mut self, n: u64) -> (r: Result<(), HeaderError>)
        requires
            old(self).spec_state() is Headers,
        ensures
            r == length_check(old(self).spec_state()),
            r is Err ==> final(self).output() == old(self).output() && final(self).spec_state()
                == old(self).spec_state(),
            r is Ok ==> final(self).output() == old(self).output() + content_length_line(n)
                && final(self).spec_state() == with_length(old(self).spec_state(), n),
    {
        self.0.add_length(n)
    }

    /// Writes `Transfer-Encoding: chunked`.
    pub fn add_chunked(&mut self) -> (r: Result<(), HeaderError>)
        requires
            old(self).spec_state() is Headers,
        ensures
            r == chunked_check(old(self).spec_state()),
            r is Err ==> final(self).output() == old(self).output() && final(self).spec_state()
                == old(self).spec_state(),
            r is Ok ==> final(self).output() == old(self).output() + chunked_line()
                && final(self).spec_state() == with_chunked(old(self).spec_state()),
    {
        self.0.add_chunked()
    }

    /// True once the status line is written.
    pub fn is_started(&self) -> (r: bool)
        ensures
            r == self.spec_state().spec_is_started(),
    {
        self.0.is_started()
    }

    /// Ends the header block; tells whether a body is expected.
    pub fn done_headers(&mut self) -> (r: Result<bool, HeaderError>)
        requires
            old(self).spec_state() is Headers,
            old(self).spec_state().wf(),
        ensures
            final(self).output() == old(self).output() + (if old(self).spec_state()->Headers_close {
                close_line()
            } else {
                Seq::empty()
            }) + crlf(),
            state_after_headers(old(self).spec_state()) is None ==> r == Err::<bool, HeaderError>(
                HeaderError::CantDetermineBodySize,
            ) && final(self).spec_state() == old(self).spec_state(),
            state_after_headers(old(self).spec_state()) is Some ==> final(self).spec_state()
                == state_after_headers(old(self).spec_state())->Some_0 && r == Ok::<
                bool,
                HeaderError,
            >(
                old(self).spec_state()->Headers_body == Body::Normal && (old(self).spec_state()->Headers_chunked
                    || old(self).spec_state()->Headers_content_length is Some),
            ),
    {
        self.0.done_headers()
    }

    /// Writes a piece of the body.
    pub fn write_body(&mut self, data: &[u8])
        requires
            body_fits(old(self).spec_state(), data@.len()),
        ensures
            match old(self).spec_state() {
                MessageState::FixedSizeBody(n) => final(self).output() == old(self).output()
                    + data@ && final(self).spec_state() == MessageState::FixedSizeBody(
                    (n - data@.len()) as u64,
                ),
                MessageState::ChunkedBody => final(self).output() == old(self).output() + (if data@.len()
                    == 0 {
                    Seq::empty()
                } else {
                    chunk_text(data@)
                }) && final(self).spec_state() == old(self).spec_state(),
                _ => final(self).output() == old(self).output() && final(self).spec_state() == old(self).spec_state(),
            },
    {
        self.0.write_body(data)
    }

    /// The state, keeping the buffer.
    pub fn peek_state(&self) -> (r: MessageState)
        ensures
            r == self.spec_state(),
    {
        self.0.peek_state()
    }

    /// True once `done` has completed the response.
    pub fn is_complete(&self) -> (r: bool)
        ensures
            r == (self.spec_state() == MessageState::Done),
    {
        self.0.is_complete()
    }

    /// Completes the response.
    pub fn done(&mut self)
        requires
            can_finish(old(self).spec_state()),
        ensures
            final(self).spec_state() == MessageState::Done,
            final(self).output() == old(self).output() + (if old(self).spec_state()
                == MessageState::ChunkedBody {
                last_chunk()
            } else {
                Seq::empty()
            }),
    {
        self.0.done()
    }

    /// The buffer and the state.
    pub fn decompose(self) -> (r: (Vec<u8>, MessageState))
        ensures
            r.0@ == self.output(),
            r.1 == self.spec_state(),
    {
        self.0.decompose()
    }
}

/// The state of a response, giving up its buffer.
pub fn state(resp: Response) -> (r: MessageState)
    ensures
        r == resp.spec_state(),
{
    resp.0.state()
}

/// The body of the standard error page.
pub open spec fn error_page_body(e: RequestError) -> Seq<u8> {
    "<h1>".spec_bytes() + decimal(status_code(e) as nat) + " ".spec_bytes() + status_reason(e)
        + "</h1>\n<p><small>Served for you by rotor-http</small></p>\n".spec_bytes()
}

/// The standard error page for `e`, as a response whose status line is not
/// written yet writes it.
pub open spec fn error_page(s: MessageState, e: RequestError) -> Seq<u8> {
    status_line(s->ResponseStart_version, status_code(e), status_reason(e)) + content_length_line(
        error_page_body(e).len() as u64,
    ) + header_line("Content-Type".spec_bytes(), "text/html".spec_bytes()) + (if s->ResponseStart_close {
        close_line()
    } else {
        Seq::empty()
    }) + crlf() + (if s->ResponseStart_body == Body::Normal {
        error_page_body(e)
    } else {
        Seq::empty()
    })
}

/// Writes the standard error page for `code` and completes the response.
pub fn default_error_page(code: &RequestError, response: &mut Response)
    requires
        old(response).spec_state() is ResponseStart,
    ensures
        final(response).spec_state() == MessageState::Done,
        final(response).output() == old(response).output() + error_page(
            old(response).spec_state(),
            *code,
        ),
{
    let ghost start = response.output();
    let ghost s0 = response.spec_state();
    let (status, reason) = code.status();
    let mut page: Vec<u8> = Vec::new();
    append_bytes(&mut page, "<h1>".as_bytes());
    crate::digits::push_decimal(&mut page, status as u64);
    append_bytes(&mut page, " ".as_bytes());
    append_bytes(&mut page, reason.as_bytes());
    append_bytes(&mut page, "</h1>\n<p><small>Served for you by rotor-http</small></p>\n".as_bytes());
    assert(page@ =~= error_page_body(*code));
    response.status(status, reason);
    let ghost o1 = response.output();
    assert(response.spec_state()->Headers_body == s0->ResponseStart_body) by {
        assert(status_code(*code) >= 400);
    }
    let len = page.len() as u64;
    let _ = response.add_length(len);
    let ghost o2 = response.output();
    proof {
        reveal_strlit("Content-Type");
        reveal_strlit("content-length");
        reveal_strlit("transfer-encoding");
        assert("Content-Type".spec_bytes().len() == 12) by {
            assert(vstd::string::is_ascii("Content-Type"));
        }
        assert(crate::headers::content_length_word().len() == 14) by {
            assert(vstd::string::is_ascii("content-length"));
        }
        assert(crate::headers::transfer_encoding_word().len() == 17) by {
            assert(vstd::string::is_ascii("transfer-encoding"));
        }
    }
    let _ = response.add_header("Content-Type", "text/html".as_bytes());
    let ghost o3 = response.output();
    let _ = response.done_headers();
    let ghost o4 = response.output();
    response.write_body(page.as_slice());
    let ghost o5 = response.output();
    response.done();
    proof {
        let head = status_line(s0->ResponseStart_version, status_code(*code), status_reason(*code));
        assert(o1 == start + head);
        assert(o2 == o1 + content_length_line(error_page_body(*code).len() as u64));
        assert(o3 == o2 + header_line("Content-Type".spec_bytes(), "text/html".spec_bytes()));
        assert(response.output() == o5);
        assert(response.output() =~= start + error_page(s0, *code));
    }
}

} // verus!
