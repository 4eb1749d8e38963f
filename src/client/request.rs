//! The request builder handed to client requesters.
use vstd::prelude::*;
use vstd::string::StringSliceAdditionalSpecFns;

use crate::message::{
    body_fits, can_finish, chunk_text, chunked_check, chunked_line, close_line, content_length_line,
    crlf, header_line, is_body_length_name, last_chunk, length_check, request_line_text,
    state_after_headers, with_chunked, with_length, Body, HeaderError, Message, MessageState,
};
use crate::scan::is_head_method;
use crate::shared::Version;

verus! {

/// A client request being written into the connection's output buffer.
pub struct Request {
    msg: Message,
    is_head: Option<bool>,
}

impl Request {
    /// The bytes of the output buffer.
    pub closed spec fn output(&self) -> Seq<u8> {
        self.msg.output()
    }

    /// Where the request stands.
    pub closed spec fn spec_state(&self) -> MessageState {
        self.msg.spec_state()
    }

    /// Whether the method is `HEAD`, once the request line is written.
    pub closed spec fn spec_is_head(&self) -> Option<bool> {
        self.is_head
    }

    /// A request written after what `out_buf` holds.
    pub fn new(out_buf: Vec<u8>) -> (r: Request)
        ensures
            r.output() == out_buf@,
            r.spec_state() == MessageState::RequestStart,
            r.spec_is_head() is None,
    {
        Request { msg: MessageState::RequestStart.with(out_buf), is_head: None }
    }

    /// Continues a request from its state and buffer; `is_head` tells
    /// whether its method is `HEAD`.
    pub fn from_message(msg: Message, is_head: Option<bool>) -> (r: Request)
        ensures
            r.output() == msg.output(),
            r.spec_state() == msg.spec_state(),
            r.spec_is_head() == is_head,
    {
        Request { msg, is_head }
    }

    /// Writes the request line and records whether the method is `HEAD`.
    pub fn start(&mut self, method: &str, path: &str, version: Version)
        requires
            old(self).spec_state() is RequestStart,
        ensures
            final(self).output() == old(self).output() + request_line_text(
                method.spec_bytes(),
                path.spec_bytes(),
                version,
            ),
            final(self).spec_state() == (MessageState::Headers {
                body: Body::Normal,
                chunked: false,
                close: false,
                request: true,
                content_length: None,
            }),
            final(self).spec_is_head() == Some(is_head_method(method.spec_bytes())),
    {
        let m = method.as_bytes();
        let head = m.len() == 4 && m[0] == 72 && m[1] == 69 && m[2] == 65 && m[3] == 68;
        proof {
            if head {
                assert(m@ =~= seq![72u8, 69, 65, 68]);
            }
        }
        self.is_head = Some(head);
        self.msg.request_line(method, path, version);
    }

    /// Whether the method is `HEAD`, once the request line is written.
    pub fn is_head(&self) -> (r: Option<bool>)
        ensures
            r == self.spec_is_head(),
    {
        self.is_head
    }

    /// The state, keeping the buffer.
    pub fn peek_state(&self) -> (r: MessageState)
        ensures
            r == self.spec_state(),
    {
        self.msg.peek_state()
    }

    /// Writes one header; `Content-Length` and `Transfer-Encoding` are refused.
    pub fn add_header(&mut self, name: &str, value: &[u8]) -> (r: Result<(), HeaderError>)
        requires
            old(self).spec_state() is Headers,
        ensures
            is_body_length_name(name.spec_bytes()) ==> r == Err::<(), HeaderError>(
                HeaderError::BodyLengthHeader,
            ) && final(self).output() == old(self).output(),
            !is_body_length_name(name.spec_bytes()) ==> r is Ok && final(self).output()
                == old(self).output() + header_line(name.spec_bytes(), value@),
            final(self).spec_state() == old(self).spec_state(),
            final(self).spec_is_head() == old(self).spec_is_head(),
    {
        self.msg.add_header(name, value)
    }

    /// Writes `Content-Length: n`.
    pub fn add_length(&mut self, n: u64) -> (r: Result<(), HeaderError>)
        requires
            old(self).spec_state() is Headers,
        ensures
            r == length_check(old(self).spec_state()),
            r is Err ==> final(self).output() == old(self).output() && final(self).spec_state()
                == old(self).spec_state(),
            r is Ok ==> final(self).output() == old(self).output() + content_length_line(n)
                && final(self).spec_state() == with_length(old(self).spec_state(), n),
            final(self).spec_is_head() == old(self).spec_is_head(),
    {
        self.msg.add_length(n)
    }

    /// Writes `Transfer-Encoding: chunked`.
    pub fn add_chunked(&mut self) -> (r: Result<(), HeaderError>)
        requires
            old(self).spec_state() is Headers,
        ensures
            r == chunked_check(old(self).spec_state()),
            r is Err ==> final(self).output() == old(self).output() && final(self).spec_state()
                == old(self).spec_state(),
            r is Ok ==> final(self).output() == old(self).output() + chunked_line()
                && final(self).spec_state() == with_chunked(old(self).spec_state()),
            final(self).spec_is_head() == old(self).spec_is_head(),
    {
        self.msg.add_chunked()
    }

    /// True once the request line is written.
    pub fn is_started(&self) -> (r: bool)
        ensures
            r == self.spec_state().spec_is_started(),
    {
        self.msg.is_started()
    }

    /// Ends the header block; tells whether a body is expected.
    pub fn done_headers(&mut self) -> (r: Result<bool, HeaderError>)
        requires
            old(self).spec_state() is Headers,
            old(self).spec_state().wf(),
        ensures
            final(self).output() == old(self).output() + (if old(self).spec_state()->Headers_close {
                close_line()
            } else {
                Seq::empty()
            }) + crlf(),
            state_after_headers(old(self).spec_state()) is None ==> r == Err::<bool, HeaderError>(
                HeaderError::CantDetermineBodySize,
            ) && final(self).spec_state() == old(self).spec_state(),
            state_after_headers(old(self).spec_state()) is Some ==> final(self).spec_state()
                == state_after_headers(old(self).spec_state())->Some_0 && r == Ok::<
                bool,
                HeaderError,
            >(
                old(self).spec_state()->Headers_body == Body::Normal && (old(self).spec_state()->Headers_chunked
                    || old(self).spec_state()->Headers_content_length is Some),
            ),
            final(self).spec_is_head() == old(self).spec_is_head(),
    {
        self.msg.done_headers()
    }

    /// Writes a piece of the body.
    pub fn write_body(&mut self, data: &[u8])
        requires
            body_fits(old(self).spec_state(), data@.len()),
        ensures
            match old(self).spec_state() {
                MessageState::FixedSizeBody(n) => final(self).output() == old(self).output()
                    + data@ && final(self).spec_state() == MessageState::FixedSizeBody(
                    (n - data@.len()) as u64,
                ),
                MessageState::ChunkedBody => final(self).output() == old(self).output() + (if data@.len()
                    == 0 {
                    Seq::empty()
                } else {
                    chunk_text(data@)
                }) && final(self).spec_state() == old(self).spec_state(),
                _ => final(self).output() == old(self).output() && final(self).spec_state() == old(self).spec_state(),
            },
            final(self).spec_is_head() == old(self).spec_is_head(),
    {
        self.msg.write_body(data)
    }

    /// True once `done` has completed the request.
    pub fn is_complete(&self) -> (r: bool)
        ensures
            r == (self.spec_state() == MessageState::Done),
    {
        self.msg.is_complete()
    }

    /// Completes the request.
    pub fn done(&mut self)
        requires
            can_finish(old(self).spec_state()),
        ensures
            final(self).spec_state() == MessageState::Done,
            final(self).output() == old(self).output() + (if old(self).spec_state()
                == MessageState::ChunkedBody {
                last_chunk()
            } else {
                Seq::empty()
            }),
            final(self).spec_is_head() == old(self).spec_is_head(),
    {
        self.msg.done()
    }

    /// The buffer and the state.
    pub fn decompose(self) -> (r: (Vec<u8>, MessageState))
        ensures
            r.0@ == self.output(),
            r.1 == self.spec_state(),
    {
        self.msg.decompose()
    }
}

/// The state of a request, giving up its buffer.
pub fn state(req: Request) -> (r: MessageState)
    ensures
        r == req.spec_state(),
{
    req.msg.state()
}

} // verus!
