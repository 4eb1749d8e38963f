use rotor_http::error::RequestError;
use rotor_http::server::parser::{Context, Head, Intent, Parser, ParserImpl, Server};
use rotor_http::server::response::{default_error_page, Response};
use rotor_http::shared::RecvMode;

#[derive(Debug, PartialEq, Eq, Default)]
pub struct Ctx {
    progressive: bool,
    headers_received: usize,
    chunks_received: usize,
    body: String,
    requests_received: usize,
    bad_requests: usize,
    respond: bool,
}

impl Context for Ctx {
    fn now(&self) -> u64 {
        1000
    }
    fn byte_timeout(&self) -> u64 {
        10_000
    }
    fn emit_error_page(&self, code: &RequestError, response: &mut Response) {
        default_error_page(code, response);
    }
}

#[derive(Debug, PartialEq, Eq)]
pub enum Proto {
    Reading,
    Done,
}

fn answer(response: &mut Response) {
    response.status(200, "OK");
    response.add_length(2).unwrap();
    response.done_headers().unwrap();
    response.write_body(b"ok");
    response.done();
}

impl Server for Proto {
    type Context = Ctx;
    fn headers_received(_head: &Head, _response: &mut Response, ctx: &mut Ctx) -> Option<(Self, RecvMode, u64)> {
        ctx.headers_received += 1;
        if ctx.progressive {
            Some((Proto::Reading, RecvMode::Progressive(1000), ctx.now() + 10_000))
        } else {
            Some((Proto::Reading, RecvMode::Buffered(1000), ctx.now() + 10_000))
        }
    }
    fn request_received(self, data: &[u8], response: &mut Response, ctx: &mut Ctx) -> Option<Self> {
        ctx.body.push_str(std::str::from_utf8(data).unwrap());
        ctx.requests_received += 1;
        if ctx.respond {
            answer(response);
            None
        } else {
            Some(Proto::Done)
        }
    }
    fn request_chunk(self, chunk: &[u8], _response: &mut Response, ctx: &mut Ctx) -> Option<Self> {
        ctx.body.push_str(std::str::from_utf8(chunk).unwrap());
        ctx.chunks_received += 1;
        Some(Proto::Reading)
    }
    fn request_end(self, response: &mut Response, ctx: &mut Ctx) -> Option<Self> {
        ctx.requests_received += 1;
        if ctx.respond {
            answer(response);
            None
        } else {
            Some(Proto::Done)
        }
    }
    fn bad_request(self, _response: &mut Response, ctx: &mut Ctx) {
        ctx.bad_requests += 1;
    }
    fn timeout(self, _response: &mut Response, _ctx: &mut Ctx) -> Option<(Self, u64)> {
        None
    }
    fn wakeup(self, _response: &mut Response, _ctx: &mut Ctx) -> Option<Self> {
        Some(self)
    }
}

struct Conn {
    state: Option<ParserImpl<Proto>>,
    inp: Vec<u8>,
    out: Vec<u8>,
    ctx: Ctx,
}

impl Conn {
    fn new(ctx: Ctx) -> Conn {
        let mut ctx = ctx;
        let intent: Intent<Proto> = Parser::<Proto>::create(&mut ctx);
        Conn { state: intent.state, inp: Vec::new(), out: Vec::new(), ctx }
    }
    fn push(&mut self, data: &[u8]) {
        self.inp.extend_from_slice(data);
        let state = self.state.take().expect("connection is open");
        let intent = Parser(state).bytes_read(&mut self.inp, &mut self.out, &mut self.ctx);
        self.state = intent.state;
    }
    fn closing(&self) -> bool {
        matches!(self.state, None | Some(ParserImpl::DoneResponse))
    }
    fn idle(&self) -> bool {
        matches!(self.state, Some(ParserImpl::Idle))
    }
}

fn counts(ctx: &Ctx) -> (usize, usize, &str, usize) {
    (ctx.headers_received, ctx.chunks_received, ctx.body.as_str(), ctx.requests_received)
}

const CHUNKED_HEAD: &str = "GET / HTTP/1.1\r\nTransfer-Encoding: chunked\r\nConnection: close\r\n\r\n";
const WIKI: &str = "4\r\nWiki\r\n5\r\npedia\r\nE\r\n in\r\n\r\nchunks.\r\n0\r\n\r\n";

#[test]
fn parser_test_zero_body() {
    let mut c = Conn::new(Ctx::default());
    c.push(b"GET / HTTP/1.1\r\nContent-Length: 0\r\nConnection: close\r\n\r\n");
    assert_eq!(counts(&c.ctx), (1, 0, "", 1));
}

#[test]
fn test_partial_headers() {
    let mut c = Conn::new(Ctx::default());
    c.push(b"GET / HTTP/1.1\r\nContent-");
    assert_eq!(counts(&c.ctx), (0, 0, "", 0));
    c.push(b"Length: 0\r\n\r\n");
    assert_eq!(counts(&c.ctx), (1, 0, "", 1));
}

#[test]
fn parser_test_empty_chunked() {
    let mut c = Conn::new(Ctx::default());
    c.push(CHUNKED_HEAD.as_bytes());
    assert_eq!(counts(&c.ctx), (1, 0, "", 0));
    c.push(b"0\r\n\r\n");
    assert_eq!(counts(&c.ctx), (1, 0, "", 1));
}

#[test]
fn parser_test_one_chunk() {
    let mut c = Conn::new(Ctx::default());
    c.push(CHUNKED_HEAD.as_bytes());
    assert_eq!(counts(&c.ctx), (1, 0, "", 0));
    c.push(b"5\r\nrotor\r\n0\r\n\r\n");
    assert_eq!(counts(&c.ctx), (1, 0, "rotor", 1));
}

#[test]
fn parser_test_chunked_encoding() {
    let mut c = Conn::new(Ctx::default());
    c.push(CHUNKED_HEAD.as_bytes());
    assert_eq!(counts(&c.ctx), (1, 0, "", 0));
    c.push(WIKI.as_bytes());
    assert_eq!(counts(&c.ctx), (1, 0, "Wikipedia in\r\n\r\nchunks.", 1));
}

#[test]
fn test_progressive_chunked() {
    let mut c = Conn::new(Ctx { progressive: true, ..Default::default() });
    c.push(CHUNKED_HEAD.as_bytes());
    assert_eq!(counts(&c.ctx), (1, 0, "", 0));
    c.push(WIKI.as_bytes());
    // the pieces are merged up to the size hint
    assert_eq!(counts(&c.ctx), (1, 1, "Wikipedia in\r\n\r\nchunks.", 1));
}

#[test]
fn progressive_small_hint_delivers_in_order() {
    let mut c = Conn::new(Ctx { progressive: true, ..Default::default() });
    c.push(CHUNKED_HEAD.as_bytes());
    c.push(b"4\r\nWi");
    c.push(b"ki\r\n5\r\npedia\r\n0\r\n\r\n");
    assert_eq!(c.ctx.body, "Wikipedia");
    assert_eq!(c.ctx.requests_received, 1);
}

#[test]
fn test_newline_delimited() {
    let mut c = Conn::new(Ctx::default());
    c.push(b"GET / HTTP/1.1\nContent-Length: 0\nConnection: close\n\n");
    assert_eq!(counts(&c.ctx), (1, 0, "", 1));
}

#[test]
fn test_leading_whitespace() {
    let mut c = Conn::new(Ctx::default());
    c.push(b"\r\nGET /foo HTTP/1.1\r\nHost: example.com\r\n\r\n");
    assert_eq!(counts(&c.ctx), (1, 0, "", 1));
}

#[test]
fn test_crazy() {
    let mut c = Conn::new(Ctx::default());
    c.push(b"~36!$543&..JKLHfF+Dkjk /foo/$bar HTTP/1.1\r\n\r\n");
    assert_eq!(counts(&c.ctx), (1, 0, "", 1));
}

#[test]
fn chunk_too_large_closes_with_bad_request() {
    let mut c = Conn::new(Ctx::default());
    c.push(CHUNKED_HEAD.as_bytes());
    // the handler accepts 1000 bytes; this chunk declares 0x1000
    c.push(b"1000\r\n");
    assert_eq!(c.ctx.requests_received, 0);
    assert_eq!(c.ctx.bad_requests, 1);
    assert!(c.closing());
    assert!(c.out.starts_with(b"HTTP/1.1 400 Bad Request\r\n"));
}

#[test]
fn malformed_chunk_size_closes() {
    let mut c = Conn::new(Ctx::default());
    c.push(CHUNKED_HEAD.as_bytes());
    c.push(b"zz\r\n");
    assert_eq!(c.ctx.bad_requests, 1);
    assert!(c.closing());
    assert!(c.out.starts_with(b"HTTP/1.1 400 Bad Request\r\n"));
}

#[test]
fn keep_alive_after_complete_response() {
    let mut c = Conn::new(Ctx { respond: true, ..Default::default() });
    c.push(b"GET / HTTP/1.1\r\nContent-Length: 3\r\n\r\nabc");
    assert!(c.idle());
    assert_eq!(c.ctx.body, "abc");
    assert_eq!(&c.out[..], b"HTTP/1.1 200 OK\r\nContent-Length: 2\r\n\r\nok");
    assert!(c.inp.is_empty());
    c.push(b"GET / HTTP/1.1\r\n\r\n");
    assert!(c.idle());
    assert_eq!(c.ctx.requests_received, 2);
}

#[test]
fn close_header_prevents_keep_alive() {
    let mut c = Conn::new(Ctx { respond: true, ..Default::default() });
    c.push(b"GET / HTTP/1.1\r\nConnection: keep-alive, close\r\n\r\n");
    assert!(c.closing());
    assert!(c.out.ends_with(b"Connection: close\r\n\r\nok"));
}

#[test]
fn chunked_body_consumes_exactly_its_framing() {
    let mut c = Conn::new(Ctx { respond: true, ..Default::default() });
    c.push(b"POST / HTTP/1.1\r\nTransfer-Encoding: chunked\r\n\r\n5\r\nrotor\r\n0\r\n\r\nGET");
    assert!(c.idle());
    assert_eq!(c.ctx.body, "rotor");
    assert_eq!(&c.inp[..], b"GET");
}

#[test]
fn payload_too_large_is_refused() {
    let mut c = Conn::new(Ctx::default());
    c.push(b"POST / HTTP/1.1\r\nContent-Length: 1000\r\n\r\n");
    assert!(c.closing());
    assert_eq!(c.ctx.requests_received, 0);
    assert!(c.out.starts_with(b"HTTP/1.1 413 Payload Too Large\r\n"));
}

#[test]
fn duplicate_length_is_refused() {
    let mut c = Conn::new(Ctx::default());
    c.push(b"POST / HTTP/1.1\r\nContent-Length: 1\r\nContent-Length: 1\r\n\r\na");
    assert!(c.closing());
    assert_eq!(c.ctx.headers_received, 0);
    assert!(c.out.starts_with(b"HTTP/1.0 400 Bad Request\r\n"));
}

#[test]
fn malformed_head_is_refused() {
    let mut c = Conn::new(Ctx::default());
    c.push(b"GET / HTTP/1.1\r\nBad Header\r\n\r\n");
    assert!(c.closing());
    assert!(c.out.starts_with(b"HTTP/1.0 400 Bad Request\r\n"));
}

#[test]
fn expect_continue_is_answered() {
    let mut c = Conn::new(Ctx::default());
    c.push(b"POST / HTTP/1.1\r\nExpect: 100-continue\r\nContent-Length: 2\r\n\r\n");
    assert_eq!(&c.out[..], b"HTTP/1.1 100 Continue\r\n\r\n");
    c.push(b"hi");
    assert_eq!(c.ctx.body, "hi");
}

struct Eager;

impl Server for Eager {
    type Context = Ctx;
    fn headers_received(_head: &Head, response: &mut Response, ctx: &mut Ctx) -> Option<(Self, RecvMode, u64)> {
        response.status(417, "Expectation Failed");
        response.add_length(0).unwrap();
        response.done_headers().unwrap();
        response.done();
        Some((Eager, RecvMode::Buffered(10), ctx.now()))
    }
    fn request_received(self, _data: &[u8], _response: &mut Response, _ctx: &mut Ctx) -> Option<Self> {
        None
    }
    fn request_chunk(self, _chunk: &[u8], _response: &mut Response, _ctx: &mut Ctx) -> Option<Self> {
        None
    }
    fn request_end(self, _response: &mut Response, _ctx: &mut Ctx) -> Option<Self> {
        None
    }
    fn bad_request(self, _response: &mut Response, _ctx: &mut Ctx) {}
    fn timeout(self, _response: &mut Response, _ctx: &mut Ctx) -> Option<(Self, u64)> {
        None
    }
    fn wakeup(self, _response: &mut Response, _ctx: &mut Ctx) -> Option<Self> {
        None
    }
}

#[test]
fn expect_continue_skipped_once_response_started() {
    let mut ctx = Ctx::default();
    let intent: Intent<Eager> = Parser::<Eager>::create(&mut ctx);
    let mut inp = b"POST / HTTP/1.1\r\nExpect: 100-continue\r\nContent-Length: 2\r\n\r\n".to_vec();
    let mut out = Vec::new();
    let _ = Parser(intent.state.unwrap()).bytes_read(&mut inp, &mut out, &mut ctx);
    assert_eq!(&out[..], b"HTTP/1.1 417 Expectation Failed\r\nContent-Length: 0\r\n\r\n");
}

#[test]
fn head_request_gets_no_body() {
    let mut c = Conn::new(Ctx { respond: true, ..Default::default() });
    c.push(b"HEAD / HTTP/1.1\r\n\r\n");
    assert_eq!(&c.out[..], b"HTTP/1.1 200 OK\r\nContent-Length: 2\r\n\r\n");
    assert!(c.idle());
}

#[test]
fn http10_closes_after_response() {
    let mut c = Conn::new(Ctx { respond: true, ..Default::default() });
    c.push(b"GET / HTTP/1.0\r\n\r\n");
    assert!(c.closing());
    assert_eq!(&c.out[..], b"HTTP/1.0 200 OK\r\nContent-Length: 2\r\nConnection: close\r\n\r\nok");
}

#[test]
fn zero_body_with_close_answers_once_and_closes() {
    let mut c = Conn::new(Ctx { respond: true, ..Default::default() });
    c.push(b"GET / HTTP/1.1\r\nContent-Length: 0\r\nConnection: close\r\n\r\n");
    assert_eq!(counts(&c.ctx), (1, 0, "", 1));
    assert!(c.closing());
}

struct Decline;

impl Server for Decline {
    type Context = Ctx;
    fn headers_received(_head: &Head, _response: &mut Response, _ctx: &mut Ctx) -> Option<(Self, RecvMode, u64)> {
        None
    }
    fn request_received(self, _data: &[u8], _response: &mut Response, _ctx: &mut Ctx) -> Option<Self> {
        None
    }
    fn request_chunk(self, _chunk: &[u8], _response: &mut Response, _ctx: &mut Ctx) -> Option<Self> {
        None
    }
    fn request_end(self, _response: &mut Response, _ctx: &mut Ctx) -> Option<Self> {
        None
    }
    fn bad_request(self, _response: &mut Response, _ctx: &mut Ctx) {}
    fn timeout(self, _response: &mut Response, _ctx: &mut Ctx) -> Option<(Self, u64)> {
        None
    }
    fn wakeup(self, _response: &mut Response, _ctx: &mut Ctx) -> Option<Self> {
        None
    }
}

fn decline(input: &[u8]) -> (Option<ParserImpl<Decline>>, Vec<u8>, Vec<u8>) {
    let mut ctx = Ctx::default();
    let intent: Intent<Decline> = Parser::<Decline>::create(&mut ctx);
    let mut inp = input.to_vec();
    let mut out = Vec::new();
    let r = Parser(intent.state.unwrap()).bytes_read(&mut inp, &mut out, &mut ctx);
    (r.state, inp, out)
}

#[test]
fn declined_request_without_body_keeps_alive() {
    let (state, inp, out) = decline(b"GET / HTTP/1.1\r\n\r\nNEXT");
    assert!(matches!(state, Some(ParserImpl::Idle)));
    assert_eq!(&inp[..], b"NEXT");
    assert!(out.starts_with(b"HTTP/1.1 400 Bad Request\r\n"));
}

#[test]
fn declined_request_with_body_closes() {
    let (state, _, out) = decline(b"POST / HTTP/1.1\r\nContent-Length: 3\r\n\r\nabc");
    assert!(matches!(state, Some(ParserImpl::DoneResponse)));
    assert!(out.starts_with(b"HTTP/1.1 400 Bad Request\r\n"));
}

#[test]
fn partial_head_is_left_in_input() {
    let (state, inp, out) = decline(b"GET / HTTP/1.1\r\nHost: x");
    assert!(matches!(state, Some(ParserImpl::ReadHeaders)));
    assert_eq!(&inp[..], b"GET / HTTP/1.1\r\nHost: x");
    assert!(out.is_empty());
}
