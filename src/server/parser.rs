//! The server connection state machine: reads requests, drives the
//! handler, and decides after each response whether the connection is
//! kept alive.
use vstd::prelude::*;

use crate::body::{
    advance, at_eof, body_expectation, dechunk, eof_step, body_run, sat_add, consume, expectation, input_after, pending_measure,
    progress_fits, read_outcome, earlier, BodyError, BodyStep, Expectation,
};
use crate::error::RequestError;
use crate::message::MessageState;
use crate::scan::{request_scan, scan_request};
use crate::server::response::Response;
use crate::message::continue_line;
use crate::shared::{start_progress, BodyKind, BodyProgress, RecvMode, Version};
use crate::wire::{
    parse_request_head, parsed_request, HeadError, RawHeader, RawRequest, MAX_HEADERS_SIZE,
};

verus! {

/// A parsed request head as plain values: length, method, path, minor
/// version, headers.
pub type RequestHead = (nat, Seq<u8>, Seq<u8>, u8, Seq<(Seq<u8>, Seq<u8>)>);

/// A request head as handed to the handler.
pub struct Head {
    pub version: Version,
    pub method: Vec<u8>,
    pub path: Vec<u8>,
    pub headers: Vec<RawHeader>,
    pub body_kind: BodyKind,
}

/// What the connection shares with every handler: the clock, the byte
/// timeout and the error pages.
pub trait Context {
    /// The current time, in milliseconds.
    fn now(&self) -> u64;

    /// How long to wait between two reads or writes, in milliseconds.
    fn byte_timeout(&self) -> u64;

    /// Writes an error page for `code` into a response not yet started;
    /// `default_error_page` writes the standard one.
    fn emit_error_page(&self, code: &RequestError, response: &mut Response);
}

/// A handler of server-side HTTP, written by the user of the library.
///
/// Every callback takes the handler by value and returns the next one;
/// `None` ends the exchange.
pub trait Server: Sized {
    type Context: Context;

    /// The head of a request arrived. Returns the handler, how the body
    /// is to be received, and the deadline for the whole request.
    fn headers_received(head: &Head, response: &mut Response, ctx: &mut Self::Context) -> Option<
        (Self, RecvMode, u64),
    >;

    /// The whole body arrived (buffered mode).
    fn request_received(self, data: &[u8], response: &mut Response, ctx: &mut Self::Context) -> Option<Self>;

    /// A piece of the body arrived (progressive mode).
    fn request_chunk(self, chunk: &[u8], response: &mut Response, ctx: &mut Self::Context) -> Option<Self>;

    /// The body is complete (progressive mode).
    fn request_end(self, response: &mut Response, ctx: &mut Self::Context) -> Option<Self>;

    /// The body turned out malformed; the connection closes after this.
    fn bad_request(self, response: &mut Response, ctx: &mut Self::Context);

    /// The deadline passed; returns the handler and a new deadline, or
    /// `None` to give up.
    fn timeout(self, response: &mut Response, ctx: &mut Self::Context) -> Option<(Self, u64)>;

    /// Something outside the connection woke it up.
    fn wakeup(self, response: &mut Response, ctx: &mut Self::Context) -> Option<Self>;
}

/// A request whose body is being read.
pub struct ReadBody<M> {
    pub machine: Option<M>,
    pub deadline: u64,
    pub response: MessageState,
    pub progress: BodyProgress,
    pub connection_close: bool,
}

/// Where a server connection stands.
pub enum ParserImpl<M> {
    /// Between requests.
    Idle,
    /// Part of a request head has arrived.
    ReadHeaders,
    /// The body of a request is being read.
    ReadingBody(ReadBody<M>),
    /// The body is read; the handler is still at work (handler, response,
    /// close after it, deadline).
    Processing(M, MessageState, bool, u64),
    /// The response is done; the output drains and the connection closes.
    DoneResponse,
}

/// The engine's answer to an event: the next state (`None` closes the
/// connection now), what to wait for, and until when.
pub struct Intent<M> {
    pub state: Option<ParserImpl<M>>,
    pub expect: Expectation,
    pub deadline: u64,
}

/// The state closes the connection: now, or once the output drained.
pub open spec fn is_closing<M>(s: Option<ParserImpl<M>>) -> bool {
    s is None || s matches Some(ParserImpl::DoneResponse)
}

/// The state waits for the next request on a kept-alive connection.
pub open spec fn is_idle<M>(s: Option<ParserImpl<M>>) -> bool {
    s matches Some(ParserImpl::Idle)
}

/// A server connection.
pub struct Parser<M>(pub ParserImpl<M>);

fn later(now: u64, delta: u64) -> (r: u64)
    ensures
        r == if now + delta > u64::MAX {
            u64::MAX
        } else {
            (now + delta) as u64
        },
{
    now.saturating_add(delta)
}

fn take_vec(v: &mut Vec<u8>) -> (r: Vec<u8>)
    ensures
        r@ == old(v)@,
        final(v)@.len() == 0,
{
    let mut r: Vec<u8> = Vec::new();
    std::mem::swap(v, &mut r);
    r
}

fn intent_idle<M, C: Context>(ctx: &C) -> (r: Intent<M>)
    ensures
        is_idle(r.state),
        r.expect == Expectation::Bytes(1),
{
    Intent {
        state: Some(ParserImpl::Idle),
        expect: Expectation::Bytes(1),
        deadline: later(ctx.now(), ctx.byte_timeout()),
    }
}

fn intent_flush<M, C: Context>(ctx: &C) -> (r: Intent<M>)
    ensures
        r.state matches Some(ParserImpl::DoneResponse),
        r.expect == Expectation::Flush(0),
{
    Intent {
        state: Some(ParserImpl::DoneResponse),
        expect: Expectation::Flush(0),
        deadline: later(ctx.now(), ctx.byte_timeout()),
    }
}

fn intent_close<M>() -> (r: Intent<M>)
    ensures
        r.state is None,
{
    Intent { state: None, expect: Expectation::Sleep, deadline: 0 }
}

/// Writes an error page into a fresh HTTP/1.0 response that closes the
/// connection, and drains the output.
fn error_response<M: Server>(
    code: RequestError,
    out: &mut Vec<u8>,
    ctx: &mut M::Context,
) -> (r: Intent<M>)
    ensures
        r.state matches Some(ParserImpl::DoneResponse),
        r.expect == Expectation::Flush(0),
{
    let mut response = Response::new(take_vec(out), Version::Http10, false, true);
    ctx.emit_error_page(&code, &mut response);
    let (buf, _) = response.decompose();
    *out = buf;
    intent_flush(ctx)
}

/// After a response: a handler that goes on is waited for; otherwise the
/// connection is kept alive only when the response is complete and
/// nothing asked to close it. A response never started gets a `501` page.
pub fn complete<M: Server>(
    machine: Option<M>,
    response: &mut Response,
    connection_close: bool,
    deadline: u64,
    ctx: &mut M::Context,
) -> (r: Intent<M>)
    ensures
        is_idle(r.state) ==> machine is None && old(response).spec_state() == MessageState::Done
            && !connection_close,
        machine is None && old(response).spec_state() == MessageState::Done && !connection_close
            ==> is_idle(r.state),
        machine is None && is_idle(r.state) ==> r.expect == Expectation::Bytes(1),
        machine is None && !is_idle(r.state) ==> (r.state matches Some(ParserImpl::DoneResponse))
            && r.expect == Expectation::Flush(0),
        machine is Some ==> (r.state matches Some(ParserImpl::Processing(_, _, c, d)) && c
            == connection_close && d == deadline) && r.expect == Expectation::Sleep && r.deadline
            == deadline,
{
    match machine {
        Some(m) => Intent {
            state: Some(ParserImpl::Processing(m, response.peek_state(), connection_close, deadline)),
            expect: Expectation::Sleep,
            deadline,
        },
        None => {
            let finished = response.finish();
            if finished && !connection_close {
                intent_idle(ctx)
            } else {
                intent_flush(ctx)
            }
        },
    }
}

/// Answers a broken body: the handler hears of it, an error page goes out
/// if no response was started, and the connection closes.
pub fn body_failed<M: Server>(
    machine: Option<M>,
    code: RequestError,
    response: &mut Response,
    ctx: &mut M::Context,
) -> (r: Intent<M>)
    ensures
        is_closing(r.state),
        final(response).spec_state() == MessageState::Done ==> (r.state matches Some(
            ParserImpl::DoneResponse,
        )) && r.expect == Expectation::Flush(0),
        final(response).spec_state() != MessageState::Done ==> r.state is None,
{
    if let Some(m) = machine {
        m.bad_request(response, ctx);
    }
    if !response.is_started() {
        ctx.emit_error_page(&code, response);
    }
    if response.is_complete() {
        intent_flush(ctx)
    } else {
        intent_close()
    }
}

/// Answers a handler that gave up: where no response was started an error
/// page for `code` is written, and the connection drains it and closes;
/// where one was started it closes at once, writing nothing more.
pub fn give_up<M: Server>(code: RequestError, response: &mut Response, ctx: &mut M::Context) -> (r:
    Intent<M>)
    ensures
        old(response).spec_state().spec_is_started() ==> r.state is None && final(response).output()
            == old(response).output() && final(response).spec_state() == old(response).spec_state(),
        !old(response).spec_state().spec_is_started() ==> if final(response).spec_state()
            == MessageState::Done {
            (r.state matches Some(ParserImpl::DoneResponse)) && r.expect == Expectation::Flush(0)
        } else {
            r.state is None
        },
{
    if response.is_started() {
        return intent_close();
    }
    ctx.emit_error_page(&code, response);
    if response.is_complete() {
        intent_flush(ctx)
    } else {
        intent_close()
    }
}

/// After the handler's timeout while the body is read: a handler that
/// asks for more time goes on reading with the same progress and its new
/// deadline, waiting until the earlier of it and `byte_deadline`; one that
/// gives up is answered as `give_up` says, with a `408` page.
pub fn body_timeout_answered<M: Server>(
    res: Option<(M, u64)>,
    progress: BodyProgress,
    connection_close: bool,
    response: &mut Response,
    inp: &Vec<u8>,
    byte_deadline: u64,
    ctx: &mut M::Context,
) -> (r: Intent<M>)
    ensures
        res matches Some((m, d)) ==> r.state == Some(
            ParserImpl::ReadingBody(
                ReadBody {
                    machine: Some(m),
                    deadline: d,
                    response: old(response).spec_state(),
                    progress,
                    connection_close,
                },
            ),
        ) && r.deadline == earlier(d, byte_deadline) && (progress_fits(progress, inp@.len())
            ==> r.expect == body_expectation(progress, inp@)) && final(response).output() == old(response).output(),
        res is None && old(response).spec_state().spec_is_started() ==> r.state is None
            && final(response).output() == old(response).output(),
        res is None && !old(response).spec_state().spec_is_started() ==> if final(response).spec_state() == MessageState::Done {
            (r.state matches Some(ParserImpl::DoneResponse)) && r.expect == Expectation::Flush(0)
        } else {
            r.state is None
        },
{
    match res {
        Some((m, deadline)) => {
            let st = response.peek_state();
            resume(
                ParserImpl::ReadingBody(
                    ReadBody { machine: Some(m), deadline, response: st, progress, connection_close },
                ),
                inp,
                byte_deadline,
                ctx,
            )
        },
        None => give_up(RequestError::RequestTimeout, response, ctx),
    }
}

/// After the handler's timeout while it works on a response: a handler
/// that asks for more time is waited for until its new deadline; one that
/// gives up is answered as `give_up` says, with a `504` page.
pub fn processing_timeout_answered<M: Server>(
    res: Option<(M, u64)>,
    connection_close: bool,
    response: &mut Response,
    ctx: &mut M::Context,
) -> (r: Intent<M>)
    ensures
        res matches Some((m, d)) ==> r.state == Some(
            ParserImpl::Processing(m, old(response).spec_state(), connection_close, d),
        ) && r.expect == Expectation::Sleep && r.deadline == d,
        res is None && old(response).spec_state().spec_is_started() ==> r.state is None
            && final(response).output() == old(response).output(),
        res is None && !old(response).spec_state().spec_is_started() ==> if final(response).spec_state() == MessageState::Done {
            (r.state matches Some(ParserImpl::DoneResponse)) && r.expect == Expectation::Flush(0)
        } else {
            r.state is None
        },
{
    match res {
        Some((m, deadline)) => Intent {
            state: Some(ParserImpl::Processing(m, response.peek_state(), connection_close, deadline)),
            expect: Expectation::Sleep,
            deadline,
        },
        None => give_up(RequestError::HandlerTimeout, response, ctx),
    }
}

/// Answers a request the handler declined in `headers_received`. A
/// started response cannot be mended: the connection closes at once.
/// Otherwise an error page is written; once it is complete the connection
/// stays alive when the request has no body and did not ask to close, and
/// drains and closes otherwise; an incomplete page closes at once.
pub fn declined<M: Server>(
    response: &mut Response,
    close: bool,
    body: BodyKind,
    ctx: &mut M::Context,
) -> (r: Intent<M>)
    ensures
        old(response).spec_state().spec_is_started() ==> r.state is None && final(response).output()
            == old(response).output(),
        !old(response).spec_state().spec_is_started() ==> if final(response).spec_state()
            != MessageState::Done {
            r.state is None
        } else if !close && body == BodyKind::Fixed(0) {
            is_idle(r.state) && r.expect == Expectation::Bytes(1)
        } else {
            (r.state matches Some(ParserImpl::DoneResponse)) && r.expect == Expectation::Flush(0)
        },
{
    if response.is_started() {
        return intent_close();
    }
    ctx.emit_error_page(&RequestError::HeadersReceived, response);
    if !response.is_complete() {
        intent_close()
    } else if !close && body == BodyKind::Fixed(0) {
        intent_idle(ctx)
    } else {
        intent_flush(ctx)
    }
}

/// The request error that answers a broken body.
pub open spec fn body_error_code(e: BodyError) -> RequestError {
    match e {
        BodyError::PayloadTooLarge => RequestError::PayloadTooLarge,
        BodyError::PrematureEnd => RequestError::PrematureEndOfStream,
        BodyError::ChunkIsTooLarge(_, _) => RequestError::ChunkIsTooLarge,
        _ => RequestError::InvalidChunkSize,
    }
}

fn body_error_code_exec(e: BodyError) -> (r: RequestError)
    ensures
        r == body_error_code(e),
{
    match e {
        BodyError::PayloadTooLarge => RequestError::PayloadTooLarge,
        BodyError::PrematureEnd => RequestError::PrematureEndOfStream,
        BodyError::ChunkIsTooLarge(_, _) => RequestError::ChunkIsTooLarge,
        _ => RequestError::InvalidChunkSize,
    }
}

/// What reading a body with progress `p` from the input `inp` leads to,
/// with `fin` the input left and `r` the answer; the request has the
/// handler's `deadline` and asks to close when `close`.
///
/// The input is read as `read_outcome` says, whatever the handler does.
/// Where more input is needed the body goes on being read, waiting until
/// the handler's deadline at the latest; where the body ended, its bytes
/// are consumed and the connection goes back to idle only when the request
/// did not ask to close it; a framing error closes the connection.
pub open spec fn body_read<M>(
    p: BodyProgress,
    deadline: u64,
    close: bool,
    inp: Seq<u8>,
    fin: Seq<u8>,
    r: Intent<M>,
) -> bool {
    let outcome = read_outcome(p, inp);
    &&& fin == input_after(p, inp)
    &&& outcome.2 is NeedMore || outcome.2 is Done || outcome.2 is Error
    &&& outcome.2 is NeedMore ==> (r.state matches Some(ParserImpl::ReadingBody(b))
        && b.progress == outcome.0 && b.deadline == deadline && b.connection_close == close
        && r.expect == body_expectation(b.progress, fin) && r.deadline <= deadline)
    &&& outcome.2 is Done ==> !(r.state matches Some(ParserImpl::ReadingBody(_))) && (is_idle(
        r.state,
    ) ==> !close)
    &&& outcome.2 is Error ==> is_closing(r.state)
}

/// Reads as much of the body as the input holds, handing it to the
/// handler, and answers with the next state (see `body_read`). Also tells
/// the framing error met, if any.
pub fn read_body<M: Server>(
    rb: ReadBody<M>,
    inp: &mut Vec<u8>,
    out: &mut Vec<u8>,
    ctx: &mut M::Context,
) -> (r: (Intent<M>, Option<BodyError>))
    requires
        progress_fits(rb.progress, old(inp)@.len()),
    ensures
        body_read(rb.progress, rb.deadline, rb.connection_close, old(inp)@, final(inp)@, r.0),
        r.1 == match read_outcome(rb.progress, old(inp)@).2 {
            BodyStep::Error(e) => Some(e),
            _ => None::<BodyError>,
        },
{
    let mut machine = rb.machine;
    let mut progress = rb.progress;
    let mut response = Response::from_message(rb.response.with(take_vec(out)));
    let close = rb.connection_close;
    let deadline = rb.deadline;
    let ghost target = read_outcome(rb.progress, inp@);
    let ghost mut fuel: nat = pending_measure(rb.progress, inp@.len()) + 1;
    loop
        invariant
            progress_fits(progress, inp@.len()),
            close == rb.connection_close,
            deadline == rb.deadline,
            fuel > pending_measure(progress, inp@.len()),
            body_run(progress, inp@, fuel) == target,
            target == read_outcome(rb.progress, old(inp)@),
        decreases pending_measure(progress, inp@.len()),
    {
        let ghost p0 = progress;
        let ghost i0 = inp@;
        let step = advance(&mut progress, inp);
        match step {
            BodyStep::NeedMore => {
                let expect = expectation(&progress, inp);
                let now_deadline = later(ctx.now(), ctx.byte_timeout());
                let wait = if now_deadline < deadline {
                    now_deadline
                } else {
                    deadline
                };
                let (buf, st) = response.decompose();
                *out = buf;
                return (Intent {
                    state: Some(
                        ParserImpl::ReadingBody(
                            ReadBody {
                                machine,
                                deadline,
                                response: st,
                                progress,
                                connection_close: close,
                            },
                        ),
                    ),
                    expect,
                    deadline: wait,
                }, None);
            },
            BodyStep::Continue => {
                proof {
                    fuel = (fuel - 1) as nat;
                }
            },
            BodyStep::Chunk(n) => {
                if let Some(m) = machine {
                    machine = m.request_chunk(&inp.as_slice()[0..n], &mut response, ctx);
                }
                consume(inp, n);
                proof {
                    fuel = (fuel - 1) as nat;
                }
            },
            BodyStep::Done(n) => {
                let next = match machine {
                    Some(m) => match progress {
                        BodyProgress::BufferFixed(_) | BodyProgress::BufferEof(_)
                        | BodyProgress::BufferChunked(_, _, _) => m.request_received(
                            &inp.as_slice()[0..n],
                            &mut response,
                            ctx,
                        ),
                        _ => {
                            let m2 = if n > 0 {
                                m.request_chunk(&inp.as_slice()[0..n], &mut response, ctx)
                            } else {
                                Some(m)
                            };
                            match m2 {
                                Some(m3) => m3.request_end(&mut response, ctx),
                                None => None,
                            }
                        },
                    },
                    None => None,
                };
                consume(inp, n);
                let r = complete(next, &mut response, close, deadline, ctx);
                let (buf, _) = response.decompose();
                *out = buf;
                return (r, None);
            },
            BodyStep::Error(e) => {
                let r = body_failed(machine, body_error_code_exec(e), &mut response, ctx);
                let (buf, _) = response.decompose();
                *out = buf;
                return (r, Some(e));
            },
        }
    }
}

/// The handler's mode can receive a body of kind `body`: upgrades are not
/// supported, and a buffered fixed-size body must stay under the limit.
pub open spec fn body_accepted(mode: RecvMode, body: BodyKind) -> bool {
    body != BodyKind::Upgrade && match (mode, body) {
        (RecvMode::Buffered(limit), BodyKind::Fixed(n)) => n < limit,
        _ => true,
    }
}

/// Decides whether a body of kind `body` can be received in `mode`, and
/// with which progress it starts: a buffered fixed-size body at or over the
/// limit is refused with `413`, an upgrade with `400`.
pub fn accept_body(mode: RecvMode, body: BodyKind) -> (r: Result<BodyProgress, RequestError>)
    ensures
        body_accepted(mode, body) ==> r == Ok::<BodyProgress, RequestError>(
            start_progress(mode, body),
        ),
        body == BodyKind::Upgrade ==> r == Err::<BodyProgress, RequestError>(
            RequestError::BadHeaders,
        ),
        body != BodyKind::Upgrade && !body_accepted(mode, body) ==> r == Err::<
            BodyProgress,
            RequestError,
        >(RequestError::PayloadTooLarge),
{
    if body == BodyKind::Upgrade {
        return Err(RequestError::BadHeaders);
    }
    let too_large = match (mode, body) {
        (RecvMode::Buffered(limit), BodyKind::Fixed(n)) => n >= limit as u64,
        _ => false,
    };
    if too_large {
        Err(RequestError::PayloadTooLarge)
    } else {
        Ok(BodyProgress::start(mode, body))
    }
}

/// Writes the interim `100 Continue` line when the request asked for it and
/// no response has been started.
pub fn answer_continue(response: &mut Response, expect_continue: bool)
    ensures
        final(response).spec_state() == old(response).spec_state(),
        final(response).output() == if expect_continue && old(response).spec_state() is ResponseStart {
            old(response).output() + continue_line(old(response).spec_state()->ResponseStart_version)
        } else {
            old(response).output()
        },
{
    if expect_continue {
        if let MessageState::ResponseStart { .. } = response.peek_state() {
            response.response_continue();
        }
    }
}

/// The version a parsed minor version stands for.
pub open spec fn version_of(minor: u8) -> Version {
    if minor == 1 {
        Version::Http11
    } else {
        Version::Http10
    }
}

/// The head handed to the handler for a parsed request with body kind
/// `body`.
pub fn head_of(raw: RawRequest, body: BodyKind) -> (h: Head)
    ensures
        h.version == version_of(raw.version),
        h.method@ == raw.method@,
        h.path@ == raw.path@,
        h.headers@ == raw.headers@,
        h.body_kind == body,
{
    let version = if raw.version == 1 {
        Version::Http11
    } else {
        Version::Http10
    };
    Head { version, method: raw.method, path: raw.path, headers: raw.headers, body_kind: body }
}

/// What reading a request head from the input `inp` leads to, with `fin`
/// the input left, `r` the answer, and `answer` the mode and deadline the
/// handler returned from `headers_received` (`None` where it declined or
/// was not asked).
///
/// A head that cannot be parsed, is too large or has broken framing gets
/// an error page and drains and closes, with the input untouched; a head
/// not complete yet is waited for, with the input untouched. Otherwise
/// exactly the head is consumed and handed to the handler. A declined
/// request closes, or stays alive only when it has no body and did not
/// ask to close (see `declined`). A mode that cannot take the body (a
/// buffered fixed-size body at or over its limit, an upgrade) closes the
/// connection (see `accept_body`). Otherwise the body is read as
/// `body_read` says, from the progress the handler's mode starts with.
pub open spec fn head_read<M>(
    inp: Seq<u8>,
    fin: Seq<u8>,
    r: Intent<M>,
    answer: Option<(RecvMode, u64)>,
) -> bool {
    match parsed_request(inp) {
        Err(_) => (r.state matches Some(ParserImpl::DoneResponse)) && r.expect == Expectation::Flush(
            0,
        ) && fin == inp,
        Ok(None) => if inp.len() > MAX_HEADERS_SIZE {
            (r.state matches Some(ParserImpl::DoneResponse)) && r.expect == Expectation::Flush(0)
                && fin == inp
        } else {
            (r.state matches Some(ParserImpl::ReadHeaders)) && fin == inp && r.expect
                == Expectation::Bytes(sat_add(inp.len() as int, 1))
        },
        Ok(Some(v)) => if v.0 > MAX_HEADERS_SIZE || request_scan(v.1, v.3, v.4) is Err {
            (r.state matches Some(ParserImpl::DoneResponse)) && r.expect == Expectation::Flush(0)
                && fin == inp
        } else {
            let sc = request_scan(v.1, v.3, v.4)->Ok_0;
            let w = inp.subrange(v.0 as int, inp.len() as int);
            &&& v.0 <= inp.len()
            &&& is_idle(r.state) ==> !sc.close
            &&& match answer {
                None => fin == w && (!is_closing(r.state) ==> is_idle(r.state) && sc.body
                    == BodyKind::Fixed(0)),
                Some((mode, deadline)) => if body_accepted(mode, sc.body) {
                    body_read(start_progress(mode, sc.body), deadline, sc.close, w, fin, r)
                } else {
                    is_closing(r.state) && fin == w
                },
            }
        },
    }
}

/// Parses a request head from the input and, once it is complete, hands it
/// to a new handler and starts on the body; see `head_read`. Also tells
/// what the handler answered.
pub fn read_headers<M: Server>(inp: &mut Vec<u8>, out: &mut Vec<u8>, ctx: &mut M::Context) -> (r: (
    Intent<M>,
    Ghost<Option<(RecvMode, u64)>>,
))
    ensures
        head_read(old(inp)@, final(inp)@, r.0, r.1@),
{
    let parsed = parse_request_head(inp.as_slice());
    let raw = match parsed {
        Err(e) => {
            let code = match e {
                HeadError::TooManyHeaders => RequestError::HeadersAreTooLarge,
                HeadError::Malformed => RequestError::BadHeaders,
            };
            return (error_response::<M>(code, out, ctx), Ghost(None));
        },
        Ok(None) => {
            if inp.len() > MAX_HEADERS_SIZE {
                return (error_response::<M>(RequestError::HeadersAreTooLarge, out, ctx), Ghost(None));
            }
            let want = if inp.len() < usize::MAX {
                inp.len() + 1
            } else {
                inp.len()
            };
            return (
                Intent {
                    state: Some(ParserImpl::ReadHeaders),
                    expect: Expectation::Bytes(want),
                    deadline: later(ctx.now(), ctx.byte_timeout()),
                },
                Ghost(None),
            );
        },
        Ok(Some(raw)) => raw,
    };
    if raw.len > MAX_HEADERS_SIZE {
        return (error_response::<M>(RequestError::HeadersAreTooLarge, out, ctx), Ghost(None));
    }
    let scanned = scan_request(raw.method.as_slice(), raw.version, &raw.headers);
    let scan = match scanned {
        Err(e) => {
            return (error_response::<M>(e, out, ctx), Ghost(None));
        },
        Ok(scan) => scan,
    };
    let ghost w = inp@.subrange(raw.len as int, inp@.len() as int);
    consume(inp, raw.len);
    let version = if raw.version == 1 {
        Version::Http11
    } else {
        Version::Http10
    };
    let head = head_of(raw, scan.body);
    let mut response = Response::new(take_vec(out), version, scan.is_head, scan.close);
    let triple = M::headers_received(&head, &mut response, ctx);
    match triple {
        None => {
            let r = declined(&mut response, scan.close, scan.body, ctx);
            let (buf, _) = response.decompose();
            *out = buf;
            (r, Ghost(None))
        },
        Some((machine, mode, deadline)) => {
            let progress = match accept_body(mode, scan.body) {
                Err(code) => {
                    let r = body_failed(Some(machine), code, &mut response, ctx);
                    let (buf, _) = response.decompose();
                    *out = buf;
                    return (r, Ghost(Some((mode, deadline))));
                },
                Ok(progress) => progress,
            };
            answer_continue(&mut response, scan.expect_continue);
            let (buf, st) = response.decompose();
            *out = buf;
            let (r, _) = read_body(
                ReadBody {
                    machine: Some(machine),
                    deadline,
                    response: st,
                    progress,
                    connection_close: scan.close,
                },
                inp,
                out,
                ctx,
            );
            (r, Ghost(Some((mode, deadline))))
        },
    }
}

/// What went wrong with the stream beneath the connection.
#[derive(Copy, Clone, Debug, PartialEq, Eq, Structural)]
pub enum Exception {
    /// The peer closed its side.
    EndOfStream,
    /// The input buffer would have to grow past its limit.
    LimitReached,
    /// Reading failed.
    ReadError,
    /// Writing failed.
    WriteError,
}

fn fits_exec(p: &BodyProgress, len: usize) -> (r: bool)
    ensures
        r == progress_fits(*p, len as nat),
{
    match p {
        BodyProgress::BufferChunked(limit, off, left) => *off <= len && *left <= *limit && *off
            <= *limit - *left,
        BodyProgress::ProgressiveChunked(_, off, _) => *off <= len,
        _ => true,
    }
}

/// The state goes on waiting for what it waited for: a head until
/// `byte_deadline`, a body being read until the earlier of its handler's
/// deadline and `byte_deadline`.
fn resume<M: Server>(
    state: ParserImpl<M>,
    inp: &Vec<u8>,
    byte_deadline: u64,
    ctx: &mut M::Context,
) -> (r: Intent<M>)
    ensures
        state is Idle ==> is_idle(r.state) && r.expect == Expectation::Bytes(1),
        state is ReadHeaders ==> (r.state matches Some(ParserImpl::ReadHeaders)) && r.expect
            == Expectation::Bytes(sat_add(inp@.len() as int, 1)) && r.deadline == byte_deadline,
        state is DoneResponse ==> (r.state matches Some(ParserImpl::DoneResponse)) && r.expect
            == Expectation::Flush(0),
        state is ReadingBody ==> r.state == Some(state) && r.deadline == earlier(
            state->ReadingBody_0.deadline,
            byte_deadline,
        ) && (progress_fits(state->ReadingBody_0.progress, inp@.len()) ==> r.expect
            == body_expectation(state->ReadingBody_0.progress, inp@)),
        state matches ParserImpl::Processing(_, _, _, d) ==> r.state == Some(state) && r.expect
            == Expectation::Sleep && r.deadline == d,
{
    match state {
        ParserImpl::Idle => intent_idle(ctx),
        ParserImpl::ReadHeaders => {
            let want = if inp.len() < usize::MAX {
                inp.len() + 1
            } else {
                inp.len()
            };
            Intent {
                state: Some(ParserImpl::ReadHeaders),
                expect: Expectation::Bytes(want),
                deadline: byte_deadline,
            }
        },
        ParserImpl::ReadingBody(rb) => {
            let expect = if fits_exec(&rb.progress, inp.len()) {
                expectation(&rb.progress, inp)
            } else {
                Expectation::Sleep
            };
            let deadline = if byte_deadline < rb.deadline {
                byte_deadline
            } else {
                rb.deadline
            };
            Intent { state: Some(ParserImpl::ReadingBody(rb)), expect, deadline }
        },
        ParserImpl::Processing(m, st, close, deadline) => Intent {
            state: Some(ParserImpl::Processing(m, st, close, deadline)),
            expect: Expectation::Sleep,
            deadline,
        },
        ParserImpl::DoneResponse => intent_flush(ctx),
    }
}

impl<M: Server> Parser<M> {
    /// A connection just accepted: it waits for the first byte.
    pub fn create(ctx: &mut M::Context) -> (r: Intent<M>)
        ensures
            is_idle(r.state),
            r.expect == Expectation::Bytes(1),
    {
        intent_idle(ctx)
    }

    /// Bytes arrived in `inp`. Responses are written to `out`.
    ///
    /// Between requests a head is read (`head_read`); in the middle of a
    /// body the body is read (`body_read`); a busy handler and a draining
    /// connection keep waiting.
    pub fn bytes_read(self, inp: &mut Vec<u8>, out: &mut Vec<u8>, ctx: &mut M::Context) -> (r:
        Intent<M>)
        ensures
            self.0 is Idle || self.0 is ReadHeaders ==> exists|answer: Option<(RecvMode, u64)>|
                #[trigger] head_read(old(inp)@, final(inp)@, r, answer),
            self.0 matches ParserImpl::ReadingBody(rb) ==> if progress_fits(
                rb.progress,
                old(inp)@.len(),
            ) {
                body_read(
                    rb.progress,
                    rb.deadline,
                    rb.connection_close,
                    old(inp)@,
                    final(inp)@,
                    r,
                )
            } else {
                is_closing(r.state)
            },
            self.0 matches ParserImpl::Processing(_, _, _, d) ==> r.state == Some(self.0) && r.expect
                == Expectation::Sleep && r.deadline == d && final(inp)@ == old(inp)@,
            self.0 is DoneResponse ==> (r.state matches Some(ParserImpl::DoneResponse)) && r.expect
                == Expectation::Flush(0) && final(inp)@ == old(inp)@,
    {
        match self.0 {
            ParserImpl::Idle | ParserImpl::ReadHeaders => {
                let (r, answer) = read_headers(inp, out, ctx);
                proof {
                    assert(head_read(old(inp)@, inp@, r, answer@));
                }
                r
            },
            ParserImpl::ReadingBody(rb) => {
                if fits_exec(&rb.progress, inp.len()) {
                    let (r, _) = read_body(rb, inp, out, ctx);
                    r
                } else {
                    let mut response = Response::from_message(rb.response.with(take_vec(out)));
                    let r = body_failed(rb.machine, RequestError::BadHeaders, &mut response, ctx);
                    let (buf, _) = response.decompose();
                    *out = buf;
                    r
                }
            },
            ParserImpl::Processing(m, st, close, deadline) => Intent {
                state: Some(ParserImpl::Processing(m, st, close, deadline)),
                expect: Expectation::Sleep,
                deadline,
            },
            ParserImpl::DoneResponse => intent_flush(ctx),
        }
    }

    /// The output drained: a finished connection closes; any other state
    /// keeps waiting for what it waited for.
    pub fn bytes_flushed(self, inp: &Vec<u8>, ctx: &mut M::Context) -> (r: Intent<M>)
        ensures
            self.0 is DoneResponse ==> r.state is None,
            self.0 is Idle ==> is_idle(r.state),
            self.0 is ReadHeaders ==> r.state matches Some(ParserImpl::ReadHeaders),
            self.0 is ReadingBody || self.0 is Processing ==> r.state == Some(self.0),
    {
        match self.0 {
            ParserImpl::DoneResponse => intent_close(),
            state => {
                let byte_deadline = later(ctx.now(), ctx.byte_timeout());
                resume(state, inp, byte_deadline, ctx)
            },
        }
    }

    /// The deadline passed. A handler may ask for more time; otherwise a
    /// timeout page is sent if no response was started, and the connection
    /// closes.
    pub fn timeout(self, inp: &Vec<u8>, out: &mut Vec<u8>, ctx: &mut M::Context) -> (r: Intent<M>)
        ensures
            self.0 is Idle || self.0 is DoneResponse ==> r.state is None,
            self.0 is ReadHeaders ==> (r.state matches Some(ParserImpl::DoneResponse)) && r.expect
                == Expectation::Flush(0),
            self.0 matches ParserImpl::ReadingBody(rb) ==> !is_idle(r.state) && (r.state matches Some(
                ParserImpl::ReadingBody(b),
            ) ==> b.progress == rb.progress && b.connection_close == rb.connection_close) && (!(
            r.state matches Some(ParserImpl::ReadingBody(_))) ==> is_closing(r.state)),
            self.0 matches ParserImpl::Processing(_, _, close, _) ==> (is_idle(r.state) ==> !close),
    {
        match self.0 {
            ParserImpl::Idle | ParserImpl::DoneResponse => intent_close(),
            ParserImpl::ReadHeaders => error_response::<M>(RequestError::HeadersTimeout, out, ctx),
            ParserImpl::ReadingBody(rb) => {
                let mut response = Response::from_message(rb.response.with(take_vec(out)));
                let res = match rb.machine {
                    Some(m) => m.timeout(&mut response, ctx),
                    None => None,
                };
                let byte_deadline = later(ctx.now(), ctx.byte_timeout());
                let r = body_timeout_answered(
                    res,
                    rb.progress,
                    rb.connection_close,
                    &mut response,
                    inp,
                    byte_deadline,
                    ctx,
                );
                let (buf, _) = response.decompose();
                *out = buf;
                r
            },
            ParserImpl::Processing(m, st, close, _) => {
                let mut response = Response::from_message(st.with(take_vec(out)));
                let res = m.timeout(&mut response, ctx);
                let r = processing_timeout_answered(res, close, &mut response, ctx);
                let (buf, _) = response.decompose();
                *out = buf;
                r
            },
        }
    }

    /// Something outside woke the connection; the handler, if one is at
    /// work, hears of it. Every other state keeps waiting.
    pub fn wakeup(self, inp: &Vec<u8>, out: &mut Vec<u8>, ctx: &mut M::Context) -> (r: Intent<M>)
        ensures
            self.0 is Idle ==> is_idle(r.state),
            self.0 is ReadHeaders ==> r.state matches Some(ParserImpl::ReadHeaders),
            self.0 is DoneResponse ==> (r.state matches Some(ParserImpl::DoneResponse)) && r.expect
                == Expectation::Flush(0),
            self.0 matches ParserImpl::ReadingBody(rb) ==> (r.state matches Some(
                ParserImpl::ReadingBody(b),
            ) && b.progress == rb.progress && b.deadline == rb.deadline && b.connection_close
                == rb.connection_close),
            self.0 matches ParserImpl::Processing(_, _, close, _) ==> (is_idle(r.state) ==> !close),
    {
        match self.0 {
            ParserImpl::ReadingBody(rb) => {
                let mut response = Response::from_message(rb.response.with(take_vec(out)));
                let machine = match rb.machine {
                    Some(m) => m.wakeup(&mut response, ctx),
                    None => None,
                };
                let st = response.peek_state();
                let (buf, _) = response.decompose();
                *out = buf;
                let byte_deadline = later(ctx.now(), ctx.byte_timeout());
                resume(
                    ParserImpl::ReadingBody(
                        ReadBody {
                            machine,
                            deadline: rb.deadline,
                            response: st,
                            progress: rb.progress,
                            connection_close: rb.connection_close,
                        },
                    ),
                    inp,
                    byte_deadline,
                    ctx,
                )
            },
            ParserImpl::Processing(m, st, close, deadline) => {
                let mut response = Response::from_message(st.with(take_vec(out)));
                let next = m.wakeup(&mut response, ctx);
                let r = complete(next, &mut response, close, deadline, ctx);
                let (buf, _) = response.decompose();
                *out = buf;
                r
            },
            state => {
                let byte_deadline = later(ctx.now(), ctx.byte_timeout());
                resume(state, inp, byte_deadline, ctx)
            },
        }
    }

    /// The stream failed or ended. In the middle of a body the handler
    /// hears of it and an error page goes out if it can; the connection
    /// closes in every case.
    pub fn exception(
        self,
        reason: Exception,
        inp: &mut Vec<u8>,
        out: &mut Vec<u8>,
        ctx: &mut M::Context,
    ) -> (r: Intent<M>)
        ensures
            !(self.0 is ReadingBody && reason == Exception::EndOfStream) ==> is_closing(r.state),
            reason == Exception::ReadError || reason == Exception::WriteError ==> r.state is None
                && final(out)@ == old(out)@ && final(inp)@ == old(inp)@,
            self.0 is ReadHeaders && reason == Exception::LimitReached ==> (r.state matches Some(
                ParserImpl::DoneResponse,
            )),
            self.0 matches ParserImpl::ReadingBody(rb) ==> !is_idle(r.state) && (reason
                == Exception::EndOfStream && eof_step(rb.progress, old(inp)@.len()) is Error
                ==> is_closing(r.state)),
    {
        match (self.0, reason) {
            (ParserImpl::ReadHeaders, Exception::LimitReached) => {
                error_response::<M>(RequestError::HeadersAreTooLarge, out, ctx)
            },
            (ParserImpl::ReadingBody(rb), Exception::LimitReached) => {
                let mut response = Response::from_message(rb.response.with(take_vec(out)));
                let r = body_failed(rb.machine, RequestError::PayloadTooLarge, &mut response, ctx);
                let (buf, _) = response.decompose();
                *out = buf;
                r
            },
            (ParserImpl::ReadingBody(rb), Exception::EndOfStream) => {
                let step = at_eof(&rb.progress, inp);
                let mut response = Response::from_message(rb.response.with(take_vec(out)));
                let r = match step {
                    BodyStep::Done(n) => {
                        let next = match rb.machine {
                            Some(m) => match rb.progress {
                                BodyProgress::BufferEof(_) => m.request_received(
                                    &inp.as_slice()[0..n],
                                    &mut response,
                                    ctx,
                                ),
                                _ => {
                                    let m2 = if n > 0 {
                                        m.request_chunk(&inp.as_slice()[0..n], &mut response, ctx)
                                    } else {
                                        Some(m)
                                    };
                                    match m2 {
                                        Some(m3) => m3.request_end(&mut response, ctx),
                                        None => None,
                                    }
                                },
                            },
                            None => None,
                        };
                        consume(inp, n);
                        complete(next, &mut response, true, rb.deadline, ctx)
                    },
                    _ => body_failed(
                        rb.machine,
                        RequestError::PrematureEndOfStream,
                        &mut response,
                        ctx,
                    ),
                };
                let (buf, _) = response.decompose();
                *out = buf;
                r
            },
            _ => intent_close(),
        }
    }
}

/// A request with a fixed-size body that is answered on a kept-alive
/// connection has taken from the input exactly its head and its body, in
/// any receive mode.
pub proof fn lemma_fixed_exchange_consumed<M>(
    inp: Seq<u8>,
    fin: Seq<u8>,
    r: Intent<M>,
    answer: Option<(RecvMode, u64)>,
    v: RequestHead,
    n: u64,
)
    requires
        inp.len() <= usize::MAX,
        head_read(inp, fin, r, answer),
        is_idle(r.state),
        parsed_request(inp) == Ok::<Option<RequestHead>, HeadError>(Some(v)),
        v.0 <= MAX_HEADERS_SIZE,
        request_scan(v.1, v.3, v.4) matches Ok(sc) && sc.body == BodyKind::Fixed(n),
    ensures
        v.0 + n <= inp.len(),
        fin == inp.subrange(v.0 + n, inp.len() as int),
{
    let sc = request_scan(v.1, v.3, v.4)->Ok_0;
    let w = inp.subrange(v.0 as int, inp.len() as int);
    if answer is None {
        assert(w =~= inp.subrange(v.0 + n, inp.len() as int));
    } else {
        let mode = answer->Some_0.0;
        match mode {
            RecvMode::Buffered(l) => {
                crate::body::lemma_fixed_body_consumed(n as usize, w);
            },
            RecvMode::Progressive(h) => {
                crate::body::lemma_progressive_fixed_consumed(h, n, w);
            },
        }
        assert(w.subrange(n as int, w.len() as int) =~= inp.subrange(v.0 + n, inp.len() as int));
    }
}

/// A chunked request that is answered on a kept-alive connection has taken
/// from the input exactly its head and its framed body (size lines, line
/// ends and the last chunk included), in any receive mode.
pub proof fn lemma_chunked_exchange_consumed<M>(
    inp: Seq<u8>,
    fin: Seq<u8>,
    r: Intent<M>,
    answer: Option<(RecvMode, u64)>,
    v: RequestHead,
)
    requires
        inp.len() <= usize::MAX,
        head_read(inp, fin, r, answer),
        is_idle(r.state),
        parsed_request(inp) == Ok::<Option<RequestHead>, HeadError>(Some(v)),
        v.0 <= MAX_HEADERS_SIZE,
        request_scan(v.1, v.3, v.4) matches Ok(sc) && sc.body == BodyKind::Chunked,
    ensures
        v.0 <= inp.len(),
        dechunk(inp.subrange(v.0 as int, inp.len() as int)) matches Some((_, framed)) && v.0 + framed
            <= inp.len() && fin == inp.subrange((v.0 + framed) as int, inp.len() as int),
{
    let sc = request_scan(v.1, v.3, v.4)->Ok_0;
    let w = inp.subrange(v.0 as int, inp.len() as int);
    let mode = answer->Some_0.0;
    match mode {
        RecvMode::Buffered(l) => {
            crate::body::lemma_chunked_body_consumed(l, w);
        },
        RecvMode::Progressive(h) => {
            crate::body::lemma_progressive_chunked_consumed(h, w);
        },
    }
    let framed = dechunk(w)->Some_0.1;
    assert(w.subrange(framed as int, w.len() as int) =~= inp.subrange(
        (v.0 + framed) as int,
        inp.len() as int,
    ));
}

} // verus!
