//! The client connection state machine: sends requests, reads the
//! responses, and closes the connection whenever a response cannot be
//! trusted to have ended where it says.
use vstd::prelude::*;

use crate::body::{
    advance, at_eof, body_expectation, body_run, consume, expectation, input_after, pending_measure,
    progress_fits, read_outcome, sat_add, earlier, is_buffered, lemma_buffered_step, BodyError, BodyStep,
    Expectation, Needle,
};
use crate::client::request::Request;
use crate::error::{ProtocolError, ResponseError};
use crate::message::MessageState;
use crate::scan::{response_is_bodiless, response_scan, scan_response};
use crate::server::parser::version_of;
use crate::shared::{start_progress, BodyKind, BodyProgress, RecvMode, Version};
use crate::wire::{parse_response_head, parsed_response, RawHeader, RawResponse, MAX_HEADERS_SIZE};

verus! {

/// A response head as handed to the requester.
pub struct Head {
    pub version: Version,
    pub code: u16,
    pub reason: Vec<u8>,
    pub headers: Vec<RawHeader>,
    pub body_kind: BodyKind,
    /// The connection closes after this response.
    pub close: bool,
}

/// The state of the connection as a client sees it.
pub struct Connection {
    idle: bool,
}

impl Connection {
    /// No request is in flight.
    pub closed spec fn spec_idle(&self) -> bool {
        self.idle
    }

    /// No request is in flight: a new one may start.
    pub fn is_idle(&self) -> (r: bool)
        ensures
            r == self.spec_idle(),
    {
        self.idle
    }
}

/// What the client wants next from an idle connection.
pub enum Task<M: Client> {
    /// Nothing until the deadline.
    Sleep(M, u64),
    /// Send a request driven by the requester.
    Request(M, M::Requester),
    /// Close the connection.
    Close,
}

/// What the connection shares with every requester: the clock.
pub trait Context {
    /// The current time, in milliseconds.
    fn now(&self) -> u64;
}

/// Decides when a client connection sends its next request; written by
/// the user of the library.
pub trait Client: Sized {
    type Requester: Requester;

    /// The connection is established, or the previous exchange is over.
    fn connection_idle(
        self,
        connection: &Connection,
        ctx: &mut <Self::Requester as Requester>::Context,
    ) -> Task<Self>;

    /// Something outside woke an idle connection.
    fn wakeup(
        self,
        connection: &Connection,
        ctx: &mut <Self::Requester as Requester>::Context,
    ) -> Task<Self>;

    /// The deadline of an idle connection passed.
    fn timeout(
        self,
        connection: &Connection,
        ctx: &mut <Self::Requester as Requester>::Context,
    ) -> Task<Self>;

    /// How long connecting may take, in milliseconds.
    fn connect_timeout(&self, ctx: &mut <Self::Requester as Requester>::Context) -> u64;

    /// How long a kept-alive connection may stay idle, in milliseconds.
    fn idle_timeout(&self, ctx: &mut <Self::Requester as Requester>::Context) -> u64;
}

/// Drives one request and its response; written by the user of the
/// library. Every callback that returns `None` closes the connection.
pub trait Requester: Sized {
    type Context: Context;

    /// Writes the request.
    fn prepare_request(self, req: &mut Request, ctx: &mut Self::Context) -> Option<Self>;

    /// The head of the response arrived. Returns the requester, how the
    /// body is to be received, and the deadline for the whole response.
    fn headers_received(self, head: &Head, request: &mut Request, ctx: &mut Self::Context) -> Option<
        (Self, RecvMode, u64),
    >;

    /// The whole body arrived (buffered mode).
    fn response_received(self, data: &[u8], request: &mut Request, ctx: &mut Self::Context);

    /// The response is unusable.
    fn bad_response(self, error: &ResponseError, ctx: &mut Self::Context);

    /// A piece of the body arrived (progressive mode).
    fn response_chunk(self, chunk: &[u8], request: &mut Request, ctx: &mut Self::Context) -> Option<
        Self,
    >;

    /// The body is complete (progressive mode).
    fn response_end(self, request: &mut Request, ctx: &mut Self::Context);

    /// The deadline passed; returns the requester and a new deadline, or
    /// `None` to give up.
    fn timeout(self, request: &mut Request, ctx: &mut Self::Context) -> Option<(Self, u64)>;

    /// Something outside woke the connection.
    fn wakeup(self, request: &mut Request, ctx: &mut Self::Context) -> Option<Self>;

    /// How long to wait between two reads or writes, in milliseconds.
    fn byte_timeout(&self, ctx: &mut Self::Context) -> u64;
}

/// Where a client connection stands.
pub enum ParserImpl<R> {
    /// Connecting, until the deadline.
    Connecting(u64),
    /// No request in flight, until the deadline.
    Idle(u64),
    /// A request is sent; its response head is awaited.
    ReadHeaders { machine: R, request: MessageState, is_head: bool },
    /// The response body is being read.
    Response {
        progress: BodyProgress,
        machine: R,
        deadline: u64,
        request: MessageState,
        is_head: bool,
        close: bool,
    },
    /// The exchange is over; the output drains before the next request.
    Flushing(u64),
}

/// The engine's answer to an event: the next state (`None` closes the
/// connection now), what to wait for, and until when.
pub struct Intent<R> {
    pub state: Option<ParserImpl<R>>,
    pub expect: Expectation,
    pub deadline: u64,
}

/// A client connection: the client and the state of its exchange.
pub struct Parser<M: Client>(pub M, pub ParserImpl<M::Requester>);

fn later(now: u64, delta: u64) -> u64 {
    now.saturating_add(delta)
}

/// What a client waits for while a response head is incomplete: the empty
/// line that ends it, within `MAX_HEADERS_SIZE` bytes.
pub open spec fn head_expectation() -> Expectation {
    Expectation::Delimiter(0, Needle::HeadEnd, MAX_HEADERS_SIZE)
}

fn head_expectation_exec() -> (r: Expectation)
    ensures
        r == head_expectation(),
{
    Expectation::Delimiter(0, Needle::HeadEnd, MAX_HEADERS_SIZE)
}

fn take_vec(v: &mut Vec<u8>) -> (r: Vec<u8>)
    ensures
        r@ == old(v)@,
{
    let mut r: Vec<u8> = Vec::new();
    std::mem::swap(v, &mut r);
    r
}

/// The answer of a connection that closes now.
pub fn intent_close<M: Client>() -> (r: (Option<M>, Intent<M::Requester>))
    ensures
        r.0 is None,
        r.1.state is None,
{
    (None, Intent { state: None, expect: Expectation::Sleep, deadline: 0 })
}

/// The response error that a broken body is reported with.
pub open spec fn response_error_of(e: BodyError) -> ResponseError {
    match e {
        BodyError::ChunkIsTooLarge(size, limit) => ResponseError::ChunkIsTooLarge(size, limit),
        BodyError::PayloadTooLarge => ResponseError::PayloadTooLarge(0, 0),
        BodyError::PrematureEnd => ResponseError::Connection(ProtocolError::ConnectionClosed),
        _ => ResponseError::InvalidChunkSize,
    }
}

fn response_error_exec(e: BodyError) -> (r: ResponseError)
    ensures
        r == response_error_of(e),
{
    match e {
        BodyError::ChunkIsTooLarge(size, limit) => ResponseError::ChunkIsTooLarge(size, limit),
        BodyError::PayloadTooLarge => ResponseError::PayloadTooLarge(0, 0),
        BodyError::PrematureEnd => ResponseError::Connection(ProtocolError::ConnectionClosed),
        _ => ResponseError::InvalidChunkSize,
    }
}

/// After the requester wrote its request: a requester that goes on waits
/// for the response head, until `byte_deadline`, knowing whether the
/// request was a HEAD request; one that gave up closes the connection.
pub fn after_prepare<M: Client>(
    cli: M,
    prepared: Option<M::Requester>,
    req: Request,
    out: &mut Vec<u8>,
    byte_deadline: u64,
) -> (r: (Option<M>, Intent<M::Requester>))
    ensures
        final(out)@ == req.output(),
        prepared is None ==> r.0 is None && r.1.state is None,
        prepared matches Some(m) ==> r.0 is Some && r.1.state == Some(
            ParserImpl::ReadHeaders {
                machine: m,
                request: req.spec_state(),
                is_head: req.spec_is_head() == Some(true),
            },
        ) && r.1.expect == head_expectation() && r.1.deadline == byte_deadline,
{
    let is_head = match req.is_head() {
        Some(h) => h,
        None => false,
    };
    let (buf, st) = req.decompose();
    *out = buf;
    match prepared {
        Some(m) => (
            Some(cli),
            Intent {
                state: Some(ParserImpl::ReadHeaders { machine: m, request: st, is_head }),
                expect: head_expectation_exec(),
                deadline: byte_deadline,
            },
        ),
        None => intent_close::<M>(),
    }
}

/// Acts on what the client decided for an idle connection: a request is
/// written by its requester into a fresh request builder (see
/// `after_prepare`).
pub fn maybe_new_request<M: Client>(
    task: Task<M>,
    out: &mut Vec<u8>,
    ctx: &mut <M::Requester as Requester>::Context,
) -> (r: (Option<M>, Intent<M::Requester>))
    ensures
        task is Close ==> r.1.state is None,
        r.1.state is Some <==> r.0 is Some,
        task matches Task::Sleep(_, d) ==> (r.1.state matches Some(ParserImpl::Idle(dd)) && dd == d)
            && r.1.expect == Expectation::Sleep && r.1.deadline == d && final(out)@ == old(out)@,
        task is Request ==> r.1.state is None || ((r.1.state matches Some(
            ParserImpl::ReadHeaders { .. },
        )) && r.1.expect == head_expectation()),
{
    match task {
        Task::Close => intent_close::<M>(),
        Task::Sleep(cli, deadline) => (
            Some(cli),
            Intent { state: Some(ParserImpl::Idle(deadline)), expect: Expectation::Sleep, deadline },
        ),
        Task::Request(cli, m) => {
            let mut req = Request::new(take_vec(out));
            let prepared = m.prepare_request(&mut req, ctx);
            let byte_deadline = match &prepared {
                Some(m) => later(ctx.now(), m.byte_timeout(ctx)),
                None => 0,
            };
            after_prepare(cli, prepared, req, out, byte_deadline)
        },
    }
}

/// The exchange is over. A connection whose request went out whole and
/// whose response did not ask to close drains its output and is reused;
/// any other closes.
pub fn finish<M: Client>(
    cli: M,
    req: &Request,
    close: bool,
    ctx: &mut <M::Requester as Requester>::Context,
) -> (r: (Option<M>, Intent<M::Requester>))
    ensures
        r.1.state is Some <==> req.spec_state() == MessageState::Done && !close,
        r.1.state is Some <==> r.0 is Some,
        r.1.state is Some ==> r.1.state matches Some(ParserImpl::Flushing(_)),
{
    if req.is_complete() && !close {
        let deadline = later(ctx.now(), cli.idle_timeout(ctx));
        (
            Some(cli),
            Intent { state: Some(ParserImpl::Flushing(deadline)), expect: Expectation::Flush(0), deadline },
        )
    } else {
        intent_close::<M>()
    }
}

/// What reading a response body with progress `p` from the input `inp`
/// leads to, with `fin` the input left and `r` the answer; the requester
/// has the `deadline`, and the response asks to close when `close`.
///
/// While the connection stays open, the input is read as `read_outcome`
/// says; a requester that gives up on a progressive piece closes the
/// connection (a buffered body hands out no pieces). Where more input is
/// needed the body goes on being read, waiting until the deadline at the latest; where
/// the body ended the connection is reused only when the response did not
/// ask to close; a framing error closes the connection.
pub open spec fn response_body_read<R>(
    p: BodyProgress,
    deadline: u64,
    close: bool,
    inp: Seq<u8>,
    fin: Seq<u8>,
    r: Intent<R>,
) -> bool {
    let outcome = read_outcome(p, inp);
    &&& r.state is Some ==> fin == input_after(p, inp) && (outcome.2 is NeedMore
        || outcome.2 is Done)
    &&& outcome.2 is NeedMore ==> r.state is None || (r.state matches Some(
        ParserImpl::Response { progress, deadline: d, close: c, .. },
    ) && progress == outcome.0 && d == deadline && c == close && r.expect == body_expectation(
        progress,
        fin,
    ) && r.deadline <= deadline)
    &&& outcome.2 is NeedMore && is_buffered(p) ==> r.state is Some
    &&& outcome.2 is Done ==> r.state is None || (!close && (r.state matches Some(
        ParserImpl::Flushing(_),
    )))
    &&& outcome.2 is Error ==> r.state is None
}

/// Reads as much of the response body as the input holds, handing it to
/// the requester (see `response_body_read`). A broken body is reported
/// and closes the connection; the error is told too.
pub fn read_response_body<M: Client>(
    cli: M,
    machine: M::Requester,
    progress: BodyProgress,
    deadline: u64,
    request: MessageState,
    is_head: bool,
    close: bool,
    inp: &mut Vec<u8>,
    out: &mut Vec<u8>,
    ctx: &mut <M::Requester as Requester>::Context,
) -> (r: (Option<M>, Intent<M::Requester>, Option<BodyError>))
    requires
        progress_fits(progress, old(inp)@.len()),
    ensures
        response_body_read(progress, deadline, close, old(inp)@, final(inp)@, r.1),
        r.1.state is Some <==> r.0 is Some,
        r.2 matches Some(e) ==> read_outcome(progress, old(inp)@).2 == BodyStep::Error(e)
            && r.1.state is None,
{
    let ghost target = read_outcome(progress, inp@);
    let ghost mut fuel: nat = pending_measure(progress, inp@.len()) + 1;
    let mut cur = progress;
    let mut machine = machine;
    let mut req = Request::from_message(request.with(take_vec(out)), Some(is_head));
    loop
        invariant
            progress_fits(cur, inp@.len()),
            fuel > pending_measure(cur, inp@.len()),
            body_run(cur, inp@, fuel) == target,
            target == read_outcome(progress, old(inp)@),
            is_buffered(progress) ==> is_buffered(cur),
        decreases pending_measure(cur, inp@.len()),
    {
        let ghost p0 = cur;
        let ghost i0 = inp@;
        proof {
            if is_buffered(p0) {
                lemma_buffered_step(p0, i0);
            }
        }
        let step = advance(&mut cur, inp);
        match step {
            BodyStep::NeedMore => {
                        let expect = expectation(&cur, inp);
                let now_deadline = later(ctx.now(), machine.byte_timeout(ctx));
                let wait = if now_deadline < deadline {
                    now_deadline
                } else {
                    deadline
                };
                let (buf, st) = req.decompose();
                *out = buf;
                return (
                    Some(cli),
                    Intent {
                        state: Some(
                            ParserImpl::Response {
                                progress: cur,
                                machine,
                                deadline,
                                request: st,
                                is_head,
                                close,
                            },
                        ),
                        expect,
                        deadline: wait,
                    },
                    None,
                );
            },
            BodyStep::Continue => {
                proof {
                    fuel = (fuel - 1) as nat;
                }
            },
            BodyStep::Chunk(n) => {
                let next = machine.response_chunk(&inp.as_slice()[0..n], &mut req, ctx);
                consume(inp, n);
                proof {
                    fuel = (fuel - 1) as nat;
                }
                match next {
                    Some(m) => {
                        machine = m;
                    },
                    None => {
                        let (buf, _) = req.decompose();
                        *out = buf;
                        let (c, i) = intent_close::<M>();
                        return (c, i, None);
                    },
                }
            },
            BodyStep::Done(n) => {
                match cur {
                    BodyProgress::BufferFixed(_) | BodyProgress::BufferEof(_)
                    | BodyProgress::BufferChunked(_, _, _) => {
                        machine.response_received(&inp.as_slice()[0..n], &mut req, ctx);
                    },
                    _ => {
                        let m2 = if n > 0 {
                            machine.response_chunk(&inp.as_slice()[0..n], &mut req, ctx)
                        } else {
                            Some(machine)
                        };
                        if let Some(m3) = m2 {
                            m3.response_end(&mut req, ctx);
                        }
                    },
                }
                consume(inp, n);
                let (c, i) = finish(cli, &req, close, ctx);
                let (buf, _) = req.decompose();
                *out = buf;
                return (c, i, None);
            },
            BodyStep::Error(e) => {
                machine.bad_response(&response_error_exec(e), ctx);
                let (buf, _) = req.decompose();
                *out = buf;
                let (c, i) = intent_close::<M>();
                return (c, i, Some(e));
            },
        }
    }
}

/// The head handed to the requester for a parsed response whose body is
/// of kind `body` and after which the connection closes when `close`.
pub fn head_of(raw: RawResponse, body: BodyKind, close: bool) -> (h: Head)
    ensures
        h.version == version_of(raw.version),
        h.code == raw.code,
        h.reason@ == raw.reason@,
        h.headers@ == raw.headers@,
        h.body_kind == body,
        h.close == close,
{
    let version = if raw.version == 1 {
        Version::Http11
    } else {
        Version::Http10
    };
    Head { version, code: raw.code, reason: raw.reason, headers: raw.headers, body_kind: body, close }
}

/// A response body of kind `body` can be received in `mode`: upgrades are
/// not supported, and a buffered fixed-size body must fit the limit.
pub open spec fn response_body_accepted(mode: RecvMode, body: BodyKind) -> bool {
    body != BodyKind::Upgrade && match (mode, body) {
        (RecvMode::Buffered(limit), BodyKind::Fixed(n)) => n <= limit,
        _ => true,
    }
}

/// An empty fixed body is complete at once and takes no input.
proof fn lemma_empty_body(mode: RecvMode, w: Seq<u8>)
    ensures
        input_after(start_progress(mode, BodyKind::Fixed(0)), w) == w,
        read_outcome(start_progress(mode, BodyKind::Fixed(0)), w).2 == BodyStep::Done(0),
{
    assert(w.subrange(0, w.len() as int) =~= w);
}

/// What reading a response head from the input `inp` leads to, for a
/// request that was a HEAD request when `is_head`, with `fin` the input
/// left, `r` the answer, and `answer` the mode and deadline the requester
/// returned from `headers_received` (`None` where it declined or was not
/// asked).
///
/// A head that cannot be parsed, is too large, or has broken framing
/// closes the connection with the input untouched; a head not complete yet
/// is waited for, with the input untouched. Otherwise exactly the head is
/// consumed and handed to the requester: one that declines, or whose mode
/// cannot take the body, closes the connection; otherwise the body is read
/// as `response_body_read` says, from the progress the requester's mode
/// starts with. Nothing past the head of a response without a body is
/// consumed.
pub open spec fn response_head_read<R>(
    is_head: bool,
    inp: Seq<u8>,
    fin: Seq<u8>,
    r: Intent<R>,
    answer: Option<(RecvMode, u64)>,
) -> bool {
    match parsed_response(inp) {
        Err(_) => r.state is None && fin == inp,
        Ok(None) => if inp.len() > MAX_HEADERS_SIZE {
            r.state is None && fin == inp
        } else {
            (r.state matches Some(ParserImpl::ReadHeaders { is_head: h, .. }) && h == is_head) && fin
                == inp && r.expect == head_expectation()
        },
        Ok(Some(v)) => if response_scan(is_head, v.2, v.1, v.4) is Err {
            r.state is None && fin == inp
        } else {
            let (body, close) = response_scan(is_head, v.2, v.1, v.4)->Ok_0;
            let w = inp.subrange(v.0 as int, inp.len() as int);
            &&& v.0 <= inp.len()
            &&& (r.state matches Some(ParserImpl::Flushing(_))) ==> !close
            &&& match answer {
                None => r.state is None,
                Some((mode, deadline)) => if response_body_accepted(mode, body) {
                    response_body_read(start_progress(mode, body), deadline, close, w, fin, r)
                } else {
                    r.state is None
                },
            }
            &&& r.state is Some && response_is_bodiless(is_head, v.2) ==> fin == w
        },
    }
}

/// Parses the response head and, once it is complete, hands it to the
/// requester and starts on the body (see `response_head_read`). A head
/// that cannot be read, or that the requester declines, closes the
/// connection.
pub fn read_response_head<M: Client>(
    cli: M,
    machine: M::Requester,
    request: MessageState,
    is_head: bool,
    inp: &mut Vec<u8>,
    out: &mut Vec<u8>,
    ctx: &mut <M::Requester as Requester>::Context,
) -> (r: (Option<M>, Intent<M::Requester>, Ghost<Option<(RecvMode, u64)>>))
    ensures
        response_head_read(is_head, old(inp)@, final(inp)@, r.1, r.2@),
        r.1.state is Some <==> r.0 is Some,
{
    let parsed = parse_response_head(inp.as_slice());
    let raw = match parsed {
        Err(_) => {
            machine.bad_response(&ResponseError::BadHeaders, ctx);
            let (c, i) = intent_close::<M>();
            return (c, i, Ghost(None));
        },
        Ok(None) => {
            if inp.len() > MAX_HEADERS_SIZE {
                machine.bad_response(&ResponseError::BadHeaders, ctx);
                let (c, i) = intent_close::<M>();
                return (c, i, Ghost(None));
            }
            let deadline = later(ctx.now(), machine.byte_timeout(ctx));
            return (
                Some(cli),
                Intent {
                    state: Some(ParserImpl::ReadHeaders { machine, request, is_head }),
                    expect: head_expectation_exec(),
                    deadline,
                },
                Ghost(None),
            );
        },
        Ok(Some(raw)) => raw,
    };
    let scanned = scan_response(is_head, raw.code, raw.version, &raw.headers);
    let (body, close) = match scanned {
        Err(_) => {
            machine.bad_response(&ResponseError::BadHeaders, ctx);
            let (c, i) = intent_close::<M>();
            return (c, i, Ghost(None));
        },
        Ok(pair) => pair,
    };
    let ghost w = inp@.subrange(raw.len as int, inp@.len() as int);
    let ghost code = raw.code;
    consume(inp, raw.len);
    let head = head_of(raw, body, close);
    let mut req = Request::from_message(request.with(take_vec(out)), Some(is_head));
    let accepted = machine.headers_received(&head, &mut req, ctx);
    let (buf, st) = req.decompose();
    *out = buf;
    match accepted {
        None => {
            let (c, i) = intent_close::<M>();
            (c, i, Ghost(None))
        },
        Some((m, mode, deadline)) => {
            match (mode, body) {
                (RecvMode::Buffered(limit), BodyKind::Fixed(n)) => {
                    if n > limit as u64 {
                        m.bad_response(&ResponseError::PayloadTooLarge(n, limit), ctx);
                        let (c, i) = intent_close::<M>();
                        return (c, i, Ghost(Some((mode, deadline))));
                    }
                },
                (_, BodyKind::Upgrade) => {
                    m.bad_response(&ResponseError::BadHeaders, ctx);
                    let (c, i) = intent_close::<M>();
                    return (c, i, Ghost(Some((mode, deadline))));
                },
                _ => {},
            }
            let progress = BodyProgress::start(mode, body);
            let (c, i, _) = read_response_body(
                cli,
                m,
                progress,
                deadline,
                st,
                is_head,
                close,
                inp,
                out,
                ctx,
            );
            proof {
                assert(response_body_accepted(mode, body));
                if response_is_bodiless(is_head, code) {
                    lemma_empty_body(mode, w);
                }
            }
            (c, i, Ghost(Some((mode, deadline))))
        },
    }
}

fn fits_exec(p: &BodyProgress, len: usize) -> (r: bool)
    ensures
        r == progress_fits(*p, len as nat),
{
    match p {
        BodyProgress::BufferChunked(limit, off, left) => *off <= len && *left <= *limit && *off
            <= *limit - *left,
        BodyProgress::ProgressiveChunked(_, off, _) => *off <= len,
        _ => true,
    }
}

/// How long the requester at work in `state` lets the stream stay silent,
/// as a deadline from now; `0` where no requester is at work.
fn byte_deadline<M: Client>(
    state: &ParserImpl<M::Requester>,
    ctx: &mut <M::Requester as Requester>::Context,
) -> u64 {
    match state {
        ParserImpl::ReadHeaders { machine, .. } => later(ctx.now(), machine.byte_timeout(ctx)),
        ParserImpl::Response { machine, .. } => later(ctx.now(), machine.byte_timeout(ctx)),
        _ => 0,
    }
}

/// The state goes on waiting for what it waited for. A response head is
/// waited for until `byte_deadline`; a body being read until the earlier
/// of its own deadline and `byte_deadline`.
fn resume<M: Client>(
    cli: M,
    state: ParserImpl<M::Requester>,
    inp: &Vec<u8>,
    byte_deadline: u64,
) -> (r: (Option<M>, Intent<M::Requester>))
    ensures
        r.0 is Some,
        r.1.state == Some(state),
        state matches ParserImpl::Connecting(d) ==> r.1.expect == Expectation::Flush(0)
            && r.1.deadline == d,
        state matches ParserImpl::Flushing(d) ==> r.1.expect == Expectation::Flush(0)
            && r.1.deadline == d,
        state matches ParserImpl::Idle(d) ==> r.1.expect == Expectation::Sleep && r.1.deadline == d,
        state is ReadHeaders ==> r.1.expect == head_expectation() && r.1.deadline == byte_deadline,
        state matches ParserImpl::Response { progress, deadline, .. } ==> r.1.deadline == earlier(
            deadline,
            byte_deadline,
        ) && (progress_fits(progress, inp@.len()) ==> r.1.expect == body_expectation(
            progress,
            inp@,
        )),
{
    let (expect, deadline) = match &state {
        ParserImpl::Connecting(d) => (Expectation::Flush(0), *d),
        ParserImpl::Flushing(d) => (Expectation::Flush(0), *d),
        ParserImpl::Idle(d) => (Expectation::Sleep, *d),
        ParserImpl::ReadHeaders { .. } => (head_expectation_exec(), byte_deadline),
        ParserImpl::Response { progress, deadline, .. } => {
            let e = if fits_exec(progress, inp.len()) {
                expectation(progress, inp)
            } else {
                Expectation::Sleep
            };
            let d = if byte_deadline < *deadline {
                byte_deadline
            } else {
                *deadline
            };
            (e, d)
        },
    };
    (Some(cli), Intent { state: Some(state), expect, deadline })
}

/// After the requester's timeout while the response head is awaited: a
/// requester that asks for more time keeps waiting for the head until its
/// new deadline; one that gives up closes the connection.
pub fn head_timeout_answered<M: Client>(
    cli: M,
    res: Option<(M::Requester, u64)>,
    request: MessageState,
    is_head: bool,
) -> (r: (Option<M>, Intent<M::Requester>))
    ensures
        res matches Some((m, d)) ==> r.0 is Some && r.1.state == Some(
            ParserImpl::ReadHeaders { machine: m, request, is_head },
        ) && r.1.expect == head_expectation() && r.1.deadline == d,
        res is None ==> r.0 is None && r.1.state is None,
{
    match res {
        Some((m, deadline)) => (
            Some(cli),
            Intent {
                state: Some(ParserImpl::ReadHeaders { machine: m, request, is_head }),
                expect: head_expectation_exec(),
                deadline,
            },
        ),
        None => intent_close::<M>(),
    }
}

/// After the requester's timeout while the body is read: a requester that
/// asks for more time goes on reading with the same progress and its new
/// deadline, waiting until the earlier of it and `byte_deadline`; one that
/// gives up closes the connection.
pub fn body_timeout_answered<M: Client>(
    cli: M,
    res: Option<(M::Requester, u64)>,
    progress: BodyProgress,
    request: MessageState,
    is_head: bool,
    close: bool,
    inp: &Vec<u8>,
    byte_deadline: u64,
) -> (r: (Option<M>, Intent<M::Requester>))
    ensures
        res matches Some((m, d)) ==> r.0 is Some && r.1.state == Some(
            ParserImpl::Response { progress, machine: m, deadline: d, request, is_head, close },
        ) && r.1.deadline == earlier(d, byte_deadline) && (progress_fits(progress, inp@.len())
            ==> r.1.expect == body_expectation(progress, inp@)),
        res is None ==> r.0 is None && r.1.state is None,
{
    match res {
        Some((m, deadline)) => resume(
            cli,
            ParserImpl::Response { progress, machine: m, deadline, request, is_head, close },
            inp,
            byte_deadline,
        ),
        None => intent_close::<M>(),
    }
}

impl<M: Client> Parser<M> {
    /// A connection being established: it waits until it can write.
    pub fn create(cli: M, ctx: &mut <M::Requester as Requester>::Context) -> (r: (
        Option<M>,
        Intent<M::Requester>,
    ))
        ensures
            r.1.state matches Some(ParserImpl::Connecting(_)),
    {
        let deadline = later(ctx.now(), cli.connect_timeout(ctx));
        (
            Some(cli),
            Intent {
                state: Some(ParserImpl::Connecting(deadline)),
                expect: Expectation::Flush(0),
                deadline,
            },
        )
    }

    /// Bytes arrived in `inp`; requests are written to `out`.
    pub fn bytes_read(
        self,
        inp: &mut Vec<u8>,
        out: &mut Vec<u8>,
        ctx: &mut <M::Requester as Requester>::Context,
    ) -> (r: (Option<M>, Intent<M::Requester>))
        ensures
            r.1.state is Some <==> r.0 is Some,
            self.1 is Idle ==> r.1.state is None,
            self.1 matches ParserImpl::ReadHeaders { is_head, .. } ==> exists|
                answer: Option<(RecvMode, u64)>,
            | #[trigger] response_head_read(is_head, old(inp)@, final(inp)@, r.1, answer),
            self.1 matches ParserImpl::Response { progress, deadline, close, .. } ==> if progress_fits(
                progress,
                old(inp)@.len(),
            ) {
                response_body_read(progress, deadline, close, old(inp)@, final(inp)@, r.1)
            } else {
                r.1.state is None
            },
            self.1 is Connecting || self.1 is Flushing ==> r.1.state == Some(self.1) && final(inp)@
                == old(inp)@,
    {
        match self.1 {
            ParserImpl::ReadHeaders { machine, request, is_head } => {
                let (c, i, answer) = read_response_head(
                    self.0,
                    machine,
                    request,
                    is_head,
                    inp,
                    out,
                    ctx,
                );
                proof {
                    assert(response_head_read(is_head, old(inp)@, inp@, i, answer@));
                }
                (c, i)
            },
            ParserImpl::Response { progress, machine, deadline, request, is_head, close } => {
                if fits_exec(&progress, inp.len()) {
                    let (c, i, _) = read_response_body(
                        self.0,
                        machine,
                        progress,
                        deadline,
                        request,
                        is_head,
                        close,
                        inp,
                        out,
                        ctx,
                    );
                    (c, i)
                } else {
                    machine.bad_response(&ResponseError::InvalidChunkSize, ctx);
                    intent_close::<M>()
                }
            },
            ParserImpl::Idle(_) => intent_close::<M>(),
            state => {
                let byte_deadline = byte_deadline::<M>(&state, ctx);
                resume(self.0, state, inp, byte_deadline)
            },
        }
    }

    /// The output drained: a connection just established, or one whose
    /// exchange is over, asks the client what to do next.
    pub fn bytes_flushed(
        self,
        inp: &Vec<u8>,
        out: &mut Vec<u8>,
        ctx: &mut <M::Requester as Requester>::Context,
    ) -> (r: (Option<M>, Intent<M::Requester>))
        ensures
            r.1.state is Some <==> r.0 is Some,
            self.1 is Connecting || self.1 is Flushing ==> r.1.state is None || (r.1.state matches Some(
                ParserImpl::Idle(_),
            )) || (r.1.state matches Some(ParserImpl::ReadHeaders { .. })),
            !(self.1 is Connecting || self.1 is Flushing) ==> r.1.state == Some(self.1),
    {
        match self.1 {
            ParserImpl::Connecting(_) | ParserImpl::Flushing(_) => {
                let task = self.0.connection_idle(&Connection { idle: true }, ctx);
                maybe_new_request(task, out, ctx)
            },
            state => {
                let byte_deadline = byte_deadline::<M>(&state, ctx);
                resume(self.0, state, inp, byte_deadline)
            },
        }
    }

    /// The deadline passed.
    pub fn timeout(
        self,
        inp: &Vec<u8>,
        out: &mut Vec<u8>,
        ctx: &mut <M::Requester as Requester>::Context,
    ) -> (r: (Option<M>, Intent<M::Requester>))
        ensures
            r.1.state is Some <==> r.0 is Some,
            self.1 is Connecting || self.1 is Flushing ==> r.1.state is None,
            self.1 is Idle ==> r.1.state is None || (r.1.state matches Some(ParserImpl::Idle(_)))
                || (r.1.state matches Some(ParserImpl::ReadHeaders { .. })),
            self.1 matches ParserImpl::ReadHeaders { is_head, .. } ==> r.1.state is None || (
            r.1.state matches Some(ParserImpl::ReadHeaders { is_head: h, .. }) && h == is_head),
            self.1 matches ParserImpl::Response { progress, close, .. } ==> r.1.state is None || (
            r.1.state matches Some(ParserImpl::Response { progress: p, close: c, .. }) && p
                == progress && c == close),
    {
        match self.1 {
            ParserImpl::Idle(_) => {
                let task = self.0.timeout(&Connection { idle: true }, ctx);
                maybe_new_request(task, out, ctx)
            },
            ParserImpl::ReadHeaders { machine, request, is_head } => {
                let mut req = Request::from_message(request.with(take_vec(out)), Some(is_head));
                let res = machine.timeout(&mut req, ctx);
                let (buf, st) = req.decompose();
                *out = buf;
                head_timeout_answered(self.0, res, st, is_head)
            },
            ParserImpl::Response { progress, machine, request, is_head, close, .. } => {
                let mut req = Request::from_message(request.with(take_vec(out)), Some(is_head));
                let res = machine.timeout(&mut req, ctx);
                let (buf, st) = req.decompose();
                *out = buf;
                let byte_deadline = match &res {
                    Some((m, _)) => later(ctx.now(), m.byte_timeout(ctx)),
                    None => 0,
                };
                body_timeout_answered(self.0, res, progress, st, is_head, close, inp, byte_deadline)
            },
            _ => intent_close::<M>(),
        }
    }

    /// Something outside woke the connection.
    pub fn wakeup(
        self,
        inp: &Vec<u8>,
        out: &mut Vec<u8>,
        ctx: &mut <M::Requester as Requester>::Context,
    ) -> (r: (Option<M>, Intent<M::Requester>))
        ensures
            r.1.state is Some <==> r.0 is Some,
            self.1 is Connecting || self.1 is Flushing ==> r.1.state == Some(self.1),
            self.1 is Idle ==> r.1.state is None || (r.1.state matches Some(ParserImpl::Idle(_)))
                || (r.1.state matches Some(ParserImpl::ReadHeaders { .. })),
            self.1 matches ParserImpl::ReadHeaders { is_head, .. } ==> r.1.state is None || (
            r.1.state matches Some(ParserImpl::ReadHeaders { is_head: h, .. }) && h == is_head),
            self.1 matches ParserImpl::Response { progress, close, .. } ==> r.1.state is None || (
            r.1.state matches Some(ParserImpl::Response { progress: p, close: c, .. }) && p
                == progress && c == close),
    {
        match self.1 {
            ParserImpl::Idle(_) => {
                let task = self.0.wakeup(&Connection { idle: true }, ctx);
                maybe_new_request(task, out, ctx)
            },
            ParserImpl::ReadHeaders { machine, request, is_head } => {
                let mut req = Request::from_message(request.with(take_vec(out)), Some(is_head));
                let res = machine.wakeup(&mut req, ctx);
                let (buf, st) = req.decompose();
                *out = buf;
                match res {
                    Some(m) => {
                        let byte_deadline = later(ctx.now(), m.byte_timeout(ctx));
                        resume(
                            self.0,
                            ParserImpl::ReadHeaders { machine: m, request: st, is_head },
                            inp,
                            byte_deadline,
                        )
                    },
                    None => intent_close::<M>(),
                }
            },
            ParserImpl::Response { progress, machine, deadline, request, is_head, close } => {
                let mut req = Request::from_message(request.with(take_vec(out)), Some(is_head));
                let res = machine.wakeup(&mut req, ctx);
                let (buf, st) = req.decompose();
                *out = buf;
                match res {
                    Some(m) => {
                        let byte_deadline = later(ctx.now(), m.byte_timeout(ctx));
                        resume(
                            self.0,
                            ParserImpl::Response {
                                progress,
                                machine: m,
                                deadline,
                                request: st,
                                is_head,
                                close,
                            },
                            inp,
                            byte_deadline,
                        )
                    },
                    None => intent_close::<M>(),
                }
            },
            state => {
                let byte_deadline = byte_deadline::<M>(&state, ctx);
                resume(self.0, state, inp, byte_deadline)
            },
        }
    }

    /// The stream ended or failed. A body read to the end of the stream is
    /// complete there; any other exchange in flight is reported broken. The
    /// connection closes.
    pub fn exception(
        self,
        reason: ProtocolError,
        inp: &mut Vec<u8>,
        out: &mut Vec<u8>,
        ctx: &mut <M::Requester as Requester>::Context,
    ) -> (r: (Option<M>, Intent<M::Requester>))
        ensures
            r.1.state is None,
    {
        match self.1 {
            ParserImpl::ReadHeaders { machine, .. } => {
                machine.bad_response(&ResponseError::Connection(reason), ctx);
                intent_close::<M>()
            },
            ParserImpl::Response { progress, machine, request, is_head, .. } => {
                let step = at_eof(&progress, inp);
                match (reason, step) {
                    (ProtocolError::ConnectionClosed, BodyStep::Done(n)) => {
                        let mut req = Request::from_message(
                            request.with(take_vec(out)),
                            Some(is_head),
                        );
                        match progress {
                            BodyProgress::BufferEof(_) => {
                                machine.response_received(&inp.as_slice()[0..n], &mut req, ctx);
                            },
                            _ => {
                                let m2 = if n > 0 {
                                    machine.response_chunk(&inp.as_slice()[0..n], &mut req, ctx)
                                } else {
                                    Some(machine)
                                };
                                if let Some(m3) = m2 {
                                    m3.response_end(&mut req, ctx);
                                }
                            },
                        }
                        consume(inp, n);
                        let (buf, _) = req.decompose();
                        *out = buf;
                    },
                    _ => {
                        machine.bad_response(&ResponseError::Connection(reason), ctx);
                    },
                }
                intent_close::<M>()
            },
            _ => intent_close::<M>(),
        }
    }
}

} // verus!
