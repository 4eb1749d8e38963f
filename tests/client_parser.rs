use rotor_http::client::parser::{
    Context, Client, Connection, Head, Intent, Parser, ParserImpl, Requester, Task,
};
use rotor_http::client::request::Request;
use rotor_http::error::ResponseError;
use rotor_http::server::response::Response;
use rotor_http::body::{Expectation, Needle};
use rotor_http::shared::{BodyKind, RecvMode, Version};

#[derive(Debug, Default, PartialEq, Eq)]
struct Ctx {
    requests: usize,
    headers_received: usize,
    responses_received: usize,
    chunks_received: usize,
    bytes_received: usize,
    errors: usize,
    head: bool,
    kinds: Vec<BodyKind>,
    statuses: Vec<(u16, Vec<u8>)>,
    body: Vec<u8>,
}

impl Context for Ctx {
    fn now(&self) -> u64 {
        0
    }
}

#[derive(Debug)]
struct Cli(usize);
#[derive(Debug)]
struct Req;

impl Client for Cli {
    type Requester = Req;
    fn connection_idle(mut self, _conn: &Connection, ctx: &mut Ctx) -> Task<Cli> {
        if self.0 > 0 {
            self.0 -= 1;
            Task::Request(self, Req)
        } else {
            Task::Sleep(self, ctx.now() + 100_000)
        }
    }
    fn wakeup(self, _connection: &Connection, _ctx: &mut Ctx) -> Task<Cli> {
        Task::Close
    }
    fn timeout(self, _connection: &Connection, _ctx: &mut Ctx) -> Task<Cli> {
        Task::Close
    }
    fn connect_timeout(&self, _ctx: &mut Ctx) -> u64 {
        15_000
    }
    fn idle_timeout(&self, _ctx: &mut Ctx) -> u64 {
        120_000
    }
}

impl Requester for Req {
    type Context = Ctx;
    fn prepare_request(self, req: &mut Request, ctx: &mut Ctx) -> Option<Self> {
        ctx.requests += 1;
        let method = if ctx.head { "HEAD" } else { "GET" };
        req.start(method, "/", Version::Http11);
        req.add_header("Host", b"localhost").unwrap();
        req.done_headers().unwrap();
        req.done();
        Some(self)
    }
    fn headers_received(self, head: &Head, _request: &mut Request, ctx: &mut Ctx) -> Option<(Self, RecvMode, u64)> {
        ctx.headers_received += 1;
        ctx.kinds.push(head.body_kind);
        ctx.statuses.push((head.code, head.reason.clone()));
        Some((self, RecvMode::Buffered(16386), ctx.now() + 1_000_000))
    }
    fn response_received(self, data: &[u8], _request: &mut Request, ctx: &mut Ctx) {
        ctx.bytes_received += data.len();
        ctx.body.extend_from_slice(data);
        ctx.responses_received += 1;
    }
    fn bad_response(self, _error: &ResponseError, ctx: &mut Ctx) {
        ctx.errors += 1;
    }
    fn response_chunk(self, _chunk: &[u8], _request: &mut Request, ctx: &mut Ctx) -> Option<Self> {
        ctx.chunks_received += 1;
        Some(self)
    }
    fn response_end(self, _request: &mut Request, _ctx: &mut Ctx) {}
    fn timeout(self, _request: &mut Request, _ctx: &mut Ctx) -> Option<(Self, u64)> {
        None
    }
    fn wakeup(self, _request: &mut Request, _ctx: &mut Ctx) -> Option<Self> {
        Some(self)
    }
    fn byte_timeout(&self, _ctx: &mut Ctx) -> u64 {
        120_000
    }
}

struct Conn {
    cli: Option<Cli>,
    state: Option<ParserImpl<Req>>,
    inp: Vec<u8>,
    out: Vec<u8>,
    ctx: Ctx,
}

impl Conn {
    fn connected(requests: usize, ctx: Ctx) -> Conn {
        let mut ctx = ctx;
        let (cli, intent): (Option<Cli>, Intent<Req>) = Parser::create(Cli(requests), &mut ctx);
        let mut c = Conn { cli, state: intent.state, inp: Vec::new(), out: Vec::new(), ctx };
        let p = Parser(c.cli.take().unwrap(), c.state.take().unwrap());
        let (cli, intent) = p.bytes_flushed(&c.inp, &mut c.out, &mut c.ctx);
        c.cli = cli;
        c.state = intent.state;
        c
    }
    fn push(&mut self, data: &[u8]) {
        self.inp.extend_from_slice(data);
        let p = Parser(self.cli.take().unwrap(), self.state.take().unwrap());
        let (cli, intent) = p.bytes_read(&mut self.inp, &mut self.out, &mut self.ctx);
        self.cli = cli;
        self.state = intent.state;
    }
    fn counts(&self) -> (usize, usize, usize, usize, usize, usize) {
        let c = &self.ctx;
        (c.requests, c.headers_received, c.responses_received, c.chunks_received, c.bytes_received, c.errors)
    }
}

const CHUNKED_HEAD: &str = "HTTP/1.1 200 OK\r\nTransfer-Encoding: chunked\r\nConnection: close\r\n\r\n";

#[test]
fn test_zero_body() {
    let mut c = Conn::connected(1, Ctx::default());
    c.push(b"HTTP/1.1 200 OK\r\nContent-Length: 0\r\nConnection: close\r\n\r\n");
    assert_eq!(c.counts(), (1, 1, 1, 0, 0, 0));
}

#[test]
fn test_empty_chunked() {
    let mut c = Conn::connected(1, Ctx::default());
    c.push(CHUNKED_HEAD.as_bytes());
    assert_eq!(c.counts(), (1, 1, 0, 0, 0, 0));
    c.push(b"0\r\n\r\n");
    assert_eq!(c.counts(), (1, 1, 1, 0, 0, 0));
}

#[test]
fn test_one_chunk() {
    let mut c = Conn::connected(1, Ctx::default());
    c.push(CHUNKED_HEAD.as_bytes());
    assert_eq!(c.counts(), (1, 1, 0, 0, 0, 0));
    c.push(b"5\r\nrotor\r\n0\r\n\r\n");
    assert_eq!(c.counts(), (1, 1, 1, 0, 5, 0));
}

#[test]
fn test_chunked_encoding() {
    let mut c = Conn::connected(1, Ctx::default());
    c.push(CHUNKED_HEAD.as_bytes());
    assert_eq!(c.counts(), (1, 1, 0, 0, 0, 0));
    c.push(b"4\r\nWiki\r\n5\r\npedia\r\nE\r\n in\r\n\r\nchunks.\r\n0\r\n\r\n");
    assert_eq!(c.counts(), (1, 1, 1, 0, 23, 0));
}

#[test]
fn request_is_written_on_connect() {
    let c = Conn::connected(1, Ctx::default());
    assert_eq!(&c.out[..], b"GET / HTTP/1.1\r\nHost: localhost\r\n\r\n");
    assert!(matches!(c.state, Some(ParserImpl::ReadHeaders { is_head: false, .. })));
}

#[test]
fn head_response_has_no_body() {
    let mut c = Conn::connected(1, Ctx { head: true, ..Default::default() });
    assert!(c.out.starts_with(b"HEAD / HTTP/1.1\r\n"));
    c.push(b"HTTP/1.1 200 OK\r\nContent-Length: 12345\r\n\r\n");
    assert_eq!(c.counts(), (1, 1, 1, 0, 0, 0));
    assert_eq!(c.ctx.kinds, vec![BodyKind::Fixed(0)]);
}

#[test]
fn keep_alive_response_reuses_connection() {
    let mut c = Conn::connected(2, Ctx::default());
    c.push(b"HTTP/1.1 200 OK\r\nContent-Length: 2\r\n\r\nhi");
    assert!(matches!(c.state, Some(ParserImpl::Flushing(_))));
    let p = Parser(c.cli.take().unwrap(), c.state.take().unwrap());
    let (cli, intent) = p.bytes_flushed(&c.inp, &mut c.out, &mut c.ctx);
    c.cli = cli;
    c.state = intent.state;
    assert_eq!(c.ctx.requests, 2);
    assert!(matches!(c.state, Some(ParserImpl::ReadHeaders { .. })));
}

#[test]
fn bad_chunk_size_is_reported() {
    let mut c = Conn::connected(1, Ctx::default());
    c.push(CHUNKED_HEAD.as_bytes());
    c.push(b"xyz\r\n");
    assert_eq!(c.ctx.errors, 1);
    assert!(c.state.is_none());
}

#[test]
fn response_until_close() {
    let mut c = Conn::connected(1, Ctx::default());
    c.push(b"HTTP/1.0 200 OK\r\n\r\nsome data");
    assert_eq!(c.ctx.kinds, vec![BodyKind::Eof]);
    let p = Parser(c.cli.take().unwrap(), c.state.take().unwrap());
    let (_, intent) = p.exception(
        rotor_http::error::ProtocolError::ConnectionClosed,
        &mut c.inp,
        &mut c.out,
        &mut c.ctx,
    );
    assert!(intent.state.is_none());
    assert_eq!(c.ctx.bytes_received, 9);
    assert_eq!(c.ctx.responses_received, 1);
}

#[test]
fn builder_output_reads_back() {
    for chunked in [false, true] {
        let mut r = Response::new(Vec::new(), Version::Http11, false, false);
        r.status(201, "Created");
        r.add_header("X-Thing", b"1").unwrap();
        if chunked {
            r.add_chunked().unwrap();
        } else {
            r.add_length(11).unwrap();
        }
        r.done_headers().unwrap();
        r.write_body(b"Hello");
        r.write_body(b" world");
        r.done();
        let (wire, _) = r.decompose();
        let mut c = Conn::connected(1, Ctx::default());
        c.push(&wire);
        assert_eq!(c.ctx.statuses, vec![(201, b"Created".to_vec())]);
        let kind = if chunked { BodyKind::Chunked } else { BodyKind::Fixed(11) };
        assert_eq!(c.ctx.kinds, vec![kind]);
        assert_eq!(&c.ctx.body[..], b"Hello world");
        assert!(c.inp.is_empty());
    }
}

#[test]
fn request_waits_for_the_head_delimiter() {
    let mut ctx = Ctx::default();
    let (cli, intent): (Option<Cli>, Intent<Req>) = Parser::create(Cli(1), &mut ctx);
    let mut out = Vec::new();
    let (_, intent) = Parser(cli.unwrap(), intent.state.unwrap()).bytes_flushed(&Vec::new(), &mut out, &mut ctx);
    assert_eq!(intent.expect, Expectation::Delimiter(0, Needle::HeadEnd, 16384));
    assert_eq!(intent.deadline, 120_000);
}
