//! The body progress tracker: reads the body of the message being received
//! out of the input buffer, one step at a time, in any framing.
use vstd::prelude::*;

use crate::shared::BodyProgress;
use crate::wire::{parse_chunk_size, parsed_chunk_size, MAX_CHUNK_HEAD};

verus! {

/// What went wrong with the framing of a body.
#[derive(Copy, Clone, Debug, PartialEq, Eq, Structural)]
pub enum BodyError {
    /// A chunk-size line, or the line end after chunk data, is malformed.
    InvalidChunkSize,
    /// A chunk-size line is longer than `MAX_CHUNK_HEAD`.
    ChunkHeadTooLong,
    /// A chunk would take the buffered body past its limit (chunk size,
    /// limit).
    ChunkIsTooLarge(u64, usize),
    /// A body read to the end of the stream is past its limit.
    PayloadTooLarge,
    /// The stream ended before the body did.
    PrematureEnd,
}

/// The outcome of one step over the input buffer.
#[derive(Copy, Clone, Debug, PartialEq, Eq, Structural)]
pub enum BodyStep {
    /// More input is needed.
    NeedMore,
    /// The progress moved; step again.
    Continue,
    /// The first `n` bytes of the input are a piece of the body; they are
    /// handed over and then consumed.
    Chunk(usize),
    /// The body is complete: the first `n` bytes of the input are the whole
    /// buffered body, or its last progressive piece; they are handed over
    /// and then consumed.
    Done(usize),
    /// The framing is broken; the connection must close.
    Error(BodyError),
}

/// What the engine waits for next.
#[derive(Copy, Clone, Debug, PartialEq, Eq, Structural)]
pub enum Expectation {
    /// At least this many bytes in the input buffer.
    Bytes(usize),
    /// The needle, searched for in the input from the start offset; past
    /// the limit offset without it, the input is too large.
    Delimiter(usize, Needle, usize),
    /// The output buffer drained to this many bytes.
    Flush(usize),
    /// Nothing but a timeout or a wakeup.
    Sleep,
}

/// The earlier of two deadlines.
pub open spec fn earlier(a: u64, b: u64) -> u64 {
    if a < b {
        a
    } else {
        b
    }
}

/// The progress of a body that is handed over whole, once complete.
pub open spec fn is_buffered(p: BodyProgress) -> bool {
    p is BufferFixed || p is BufferEof || p is BufferChunked
}

/// A buffered body never hands out pieces, and stays buffered.
pub proof fn lemma_buffered_step(p: BodyProgress, inp: Seq<u8>)
    requires
        is_buffered(p),
    ensures
        !(body_step(p, inp).2 is Chunk),
        is_buffered(body_step(p, inp).0),
{
}

/// What a `Delimiter` expectation searches for.
#[derive(Copy, Clone, Debug, PartialEq, Eq, Structural)]
pub enum Needle {
    /// `\r\n`, the end of a line.
    LineEnd,
    /// `\r\n\r\n`, the end of a header block.
    HeadEnd,
}

/// `s` with the bytes from `a` to `b` cut out.
pub open spec fn splice(s: Seq<u8>, a: int, b: int) -> Seq<u8> {
    s.subrange(0, a) + s.subrange(b, s.len() as int)
}

/// `s` holds a line end at `i`.
pub open spec fn crlf_at(s: Seq<u8>, i: int) -> bool {
    i + 2 <= s.len() && s[i] == 13 && s[i + 1] == 10
}

/// The part of the input where a chunk-size line starting at `off` is
/// looked for.
pub open spec fn size_window(inp: Seq<u8>, off: int) -> Seq<u8> {
    let end = if inp.len() < off + MAX_CHUNK_HEAD {
        inp.len() as int
    } else {
        off + MAX_CHUNK_HEAD
    };
    inp.subrange(off, end)
}

/// A chunk-size line at `off`: its size is read and the line is cut out
/// of the input. A buffered read (`limit` given) refuses a chunk that would
/// take the body past the limit. The last chunk must be followed by an
/// empty line, which is cut out too; the body before `off` is then
/// complete. Trailer headers are not supported.
pub open spec fn size_line_step(
    p: BodyProgress,
    inp: Seq<u8>,
    off: int,
    limit: Option<usize>,
) -> (BodyProgress, Seq<u8>, BodyStep) {
    match parsed_chunk_size(size_window(inp, off)) {
        Err(_) => (p, inp, BodyStep::Error(BodyError::InvalidChunkSize)),
        Ok(None) => if inp.len() - off >= MAX_CHUNK_HEAD {
            (p, inp, BodyStep::Error(BodyError::ChunkHeadTooLong))
        } else {
            (p, inp, BodyStep::NeedMore)
        },
        Ok(Some((n, size))) => if n < 2 || n > size_window(inp, off).len() {
            (p, inp, BodyStep::Error(BodyError::InvalidChunkSize))
        } else if size == 0 {
            if off + n + 2 > inp.len() {
                (p, inp, BodyStep::NeedMore)
            } else if crlf_at(inp, off + n) {
                (p, splice(inp, off, off + n + 2), BodyStep::Done(off as usize))
            } else {
                (p, inp, BodyStep::Error(BodyError::InvalidChunkSize))
            }
        } else {
            match limit {
                Some(l) => if off + size > l {
                    (
                        p,
                        inp,
                        BodyStep::Error(BodyError::ChunkIsTooLarge(size, l)),
                    )
                } else {
                    (
                        BodyProgress::BufferChunked(l, off as usize, size as usize),
                        splice(inp, off, off + n),
                        BodyStep::Continue,
                    )
                },
                None => (
                    BodyProgress::ProgressiveChunked(p->ProgressiveChunked_0, off as usize, size),
                    splice(inp, off, off + n),
                    BodyStep::Continue,
                ),
            }
        },
    }
}

/// One step of reading a body from the input `inp` with progress `p`: the
/// new progress, the new input, and what the step found.
///
/// Chunked bodies have their size lines and line ends cut out of the
/// input, so the body bytes stand together at its start.
pub open spec fn body_step(p: BodyProgress, inp: Seq<u8>) -> (BodyProgress, Seq<u8>, BodyStep) {
    match p {
        BodyProgress::BufferFixed(n) => if inp.len() >= n {
            (p, inp, BodyStep::Done(n))
        } else {
            (p, inp, BodyStep::NeedMore)
        },
        BodyProgress::BufferEof(limit) => if inp.len() > limit {
            (p, inp, BodyStep::Error(BodyError::PayloadTooLarge))
        } else {
            (p, inp, BodyStep::NeedMore)
        },
        BodyProgress::ProgressiveFixed(hint, left) => if left == 0 {
            (p, inp, BodyStep::Done(0))
        } else if inp.len() >= left {
            (BodyProgress::ProgressiveFixed(hint, 0), inp, BodyStep::Done(left as usize))
        } else if inp.len() > 0 && inp.len() >= hint {
            (
                BodyProgress::ProgressiveFixed(hint, (left - inp.len()) as u64),
                inp,
                BodyStep::Chunk(inp.len() as usize),
            )
        } else {
            (p, inp, BodyStep::NeedMore)
        },
        BodyProgress::ProgressiveEof(hint) => if inp.len() > 0 && inp.len() >= hint {
            (p, inp, BodyStep::Chunk(inp.len() as usize))
        } else {
            (p, inp, BodyStep::NeedMore)
        },
        BodyProgress::BufferChunked(limit, off, left) => if left == 0 {
            size_line_step(p, inp, off as int, Some(limit))
        } else if inp.len() < off + left + 2 {
            (p, inp, BodyStep::NeedMore)
        } else if crlf_at(inp, off + left) {
            (
                BodyProgress::BufferChunked(limit, (off + left) as usize, 0),
                splice(inp, off + left, off + left + 2),
                BodyStep::Continue,
            )
        } else {
            (p, inp, BodyStep::Error(BodyError::InvalidChunkSize))
        },
        BodyProgress::ProgressiveChunked(hint, off, left) => if left == 0 {
            size_line_step(p, inp, off as int, None)
        } else if inp.len() >= off + left + 2 {
            if crlf_at(inp, off + left) {
                let end = (off + left) as usize;
                if end >= hint {
                    (
                        BodyProgress::ProgressiveChunked(hint, 0, 0),
                        splice(inp, end as int, end + 2),
                        BodyStep::Chunk(end),
                    )
                } else {
                    (
                        BodyProgress::ProgressiveChunked(hint, end, 0),
                        splice(inp, end as int, end + 2),
                        BodyStep::Continue,
                    )
                }
            } else {
                (p, inp, BodyStep::Error(BodyError::InvalidChunkSize))
            }
        } else if inp.len() < off + left && inp.len() > off && inp.len() >= hint {
            (
                BodyProgress::ProgressiveChunked(hint, 0, (left - (inp.len() - off)) as u64),
                inp,
                BodyStep::Chunk(inp.len() as usize),
            )
        } else {
            (p, inp, BodyStep::NeedMore)
        },
    }
}

/// The progress fits the input: held-back body bytes are in it, and a
/// buffered chunk stays within the limit.
pub open spec fn progress_fits(p: BodyProgress, inp_len: nat) -> bool {
    match p {
        BodyProgress::BufferChunked(limit, off, left) => off <= inp_len && off + left <= limit,
        BodyProgress::ProgressiveChunked(_, off, _) => off <= inp_len,
        _ => true,
    }
}

/// A measure of the work left in the input, which every step that moves
/// makes smaller.
pub open spec fn pending_measure(p: BodyProgress, len: nat) -> nat {
    2 * len + match p {
        BodyProgress::BufferChunked(_, _, left) => if left > 0 {
            1nat
        } else {
            0nat
        },
        BodyProgress::ProgressiveChunked(_, _, left) => if left > 0 {
            1nat
        } else {
            0nat
        },
        _ => 0nat,
    }
}

/// The body that the chunked stream `w` carries and the number of bytes
/// its framing takes, size lines and line ends included; `None` where `w`
/// holds no complete, well-formed chunked body.
pub open spec fn dechunk(w: Seq<u8>) -> Option<(Seq<u8>, nat)>
    decreases w.len(),
{
    match parsed_chunk_size(size_window(w, 0)) {
        Ok(Some((n, size))) => if n < 2 || n > size_window(w, 0).len() {
            None
        } else if size == 0 {
            if crlf_at(w, n as int) {
                Some((Seq::empty(), n + 2))
            } else {
                None
            }
        } else if n + size + 2 <= w.len() && crlf_at(w, n + size) {
            match dechunk(w.subrange(n + size + 2, w.len() as int)) {
                Some((b, k)) => Some((w.subrange(n as int, n + size) + b, (n + size + 2 + k) as nat)),
                None => None,
            }
        } else {
            None
        },
        _ => None,
    }
}

/// Steps taken one after the other while they only move the progress.
spec fn run_steps(p: BodyProgress, inp: Seq<u8>, fuel: nat) -> (
    BodyProgress,
    Seq<u8>,
    BodyStep,
)
    decreases fuel,
{
    let (p2, inp2, step) = body_step(p, inp);
    if step is Continue && fuel > 0 {
        run_steps(p2, inp2, (fuel - 1) as nat)
    } else {
        (p2, inp2, step)
    }
}

spec fn lift(o: Option<(Seq<u8>, nat)>, b: Seq<u8>, c: nat) -> Option<(Seq<u8>, nat)> {
    match o {
        Some((x, k)) => Some((b + x, c + k)),
        None => None,
    }
}

spec fn in_chunk(rest: Seq<u8>, left: nat) -> Option<(Seq<u8>, nat)> {
    if left + 2 <= rest.len() && crlf_at(rest, left as int) {
        lift(
            dechunk(rest.subrange(left + 2 as int, rest.len() as int)),
            rest.subrange(0, left as int),
            left + 2,
        )
    } else {
        None
    }
}

/// The input of a buffered chunked read stands to the wire bytes `w` as
/// body bytes already gathered, followed by the wire bytes not read yet.
spec fn chunked_inv(p: BodyProgress, inp: Seq<u8>, w: Seq<u8>) -> bool {
    match p {
        BodyProgress::BufferChunked(limit, off, left) => {
            let rest = inp.subrange(off as int, inp.len() as int);
            let c = (w.len() - rest.len()) as nat;
            &&& off <= inp.len()
            &&& off + left <= limit
            &&& rest.len() <= w.len()
            &&& rest == w.subrange(c as int, w.len() as int)
            &&& dechunk(w) == lift(
                if left == 0 {
                    dechunk(rest)
                } else {
                    in_chunk(rest, left as nat)
                },
                inp.subrange(0, off as int),
                c,
            )
        },
        _ => false,
    }
}

proof fn lemma_lift_twice(o: Option<(Seq<u8>, nat)>, a: Seq<u8>, b: Seq<u8>, c: nat, d: nat)
    ensures
        lift(lift(o, b, d), a, c) == lift(o, a + b, c + d),
{
    if let Some((x, k)) = o {
        assert(a + (b + x) =~= (a + b) + x);
    }
}

proof fn lemma_data_step(limit: usize, off: usize, left: usize, inp: Seq<u8>, w: Seq<u8>)
    requires
        chunked_inv(BodyProgress::BufferChunked(limit, off, left), inp, w),
        left > 0,
        inp.len() >= off + left + 2,
        crlf_at(inp, off + left),
    ensures
        chunked_inv(
            BodyProgress::BufferChunked(limit, (off + left) as usize, 0),
            splice(inp, off + left, off + left + 2),
            w,
        ),
{
    let rest = inp.subrange(off as int, inp.len() as int);
    let c = (w.len() - rest.len()) as nat;
    let gathered = inp.subrange(0, off as int);
    let end = off + left;
    let inp2 = splice(inp, end, end + 2);
    let rest2 = inp2.subrange(end, inp2.len() as int);
    let c2 = (w.len() - rest2.len()) as nat;
    assert(crlf_at(rest, left as int));
    assert(rest2 =~= rest.subrange(left + 2, rest.len() as int));
    assert(c2 == c + left + 2);
    assert(rest2 =~= w.subrange(c2 as int, w.len() as int));
    assert(inp2.subrange(0, end) =~= gathered + rest.subrange(0, left as int));
    assert(in_chunk(rest, left as nat) == lift(
        dechunk(rest2),
        rest.subrange(0, left as int),
        (left + 2) as nat,
    ));
    lemma_lift_twice(dechunk(rest2), gathered, rest.subrange(0, left as int), c, (left + 2) as nat);
}

proof fn lemma_size_step(limit: usize, off: usize, n: nat, size: u64, inp: Seq<u8>, w: Seq<u8>)
    requires
        chunked_inv(BodyProgress::BufferChunked(limit, off, 0), inp, w),
        parsed_chunk_size(size_window(inp, off as int)) == Ok::<Option<(nat, u64)>, ()>(
            Some((n, size)),
        ),
        2 <= n <= size_window(inp, off as int).len(),
        size > 0,
        off + size <= limit,
    ensures
        chunked_inv(
            BodyProgress::BufferChunked(limit, off, size as usize),
            splice(inp, off as int, off + n),
            w,
        ),
{
    let rest = inp.subrange(off as int, inp.len() as int);
    let c = (w.len() - rest.len()) as nat;
    let gathered = inp.subrange(0, off as int);
    let inp2 = splice(inp, off as int, off + n);
    let rest2 = inp2.subrange(off as int, inp2.len() as int);
    let c2 = (w.len() - rest2.len()) as nat;
    assert(size_window(inp, off as int) =~= size_window(rest, 0));
    assert(rest2 =~= rest.subrange(n as int, rest.len() as int));
    assert(inp2.subrange(0, off as int) =~= gathered);
    assert(c2 == c + n);
    assert(rest2 =~= w.subrange(c2 as int, w.len() as int));
    if size + 2 <= rest2.len() {
        assert(crlf_at(rest2, size as int) == crlf_at(rest, n + size));
        assert(rest2.subrange(size + 2, rest2.len() as int) =~= rest.subrange(
            n + size + 2,
            rest.len() as int,
        ));
        assert(rest2.subrange(0, size as int) =~= rest.subrange(n as int, n + size));
    }
    lemma_lift_twice(
        dechunk(rest.subrange(n + size + 2, rest.len() as int)),
        gathered,
        rest.subrange(n as int, n + size),
        c,
        (n + size + 2) as nat,
    );
    lemma_lift_twice(
        dechunk(rest2.subrange(size + 2, rest2.len() as int)),
        gathered,
        rest2.subrange(0, size as int),
        c2,
        (size + 2) as nat,
    );
}

proof fn lemma_last_chunk(limit: usize, off: usize, n: nat, inp: Seq<u8>, w: Seq<u8>)
    requires
        chunked_inv(BodyProgress::BufferChunked(limit, off, 0), inp, w),
        parsed_chunk_size(size_window(inp, off as int)) == Ok::<Option<(nat, u64)>, ()>(
            Some((n, 0)),
        ),
        2 <= n <= size_window(inp, off as int).len(),
        off + n + 2 <= inp.len(),
        crlf_at(inp, off + n),
    ensures
        ({
            let out = splice(inp, off as int, off + n + 2);
            off <= out.len() && dechunk(w) == Some(
                (out.subrange(0, off as int), (w.len() - (out.len() - off)) as nat),
            ) && out.len() - off <= w.len() && out.subrange(off as int, out.len() as int)
                == w.subrange(w.len() - (out.len() - off), w.len() as int)
        }),
{
    let rest = inp.subrange(off as int, inp.len() as int);
    let gathered = inp.subrange(0, off as int);
    let out = splice(inp, off as int, off + n + 2);
    assert(size_window(inp, off as int) =~= size_window(rest, 0));
    assert(crlf_at(rest, n as int));
    assert(dechunk(rest) == Some((Seq::<u8>::empty(), n + 2)));
    assert(out.subrange(0, off as int) =~= gathered);
    assert(gathered + Seq::<u8>::empty() =~= gathered);
    assert(out.subrange(off as int, out.len() as int) =~= rest.subrange(n + 2 as int, rest.len() as int));
    let c = w.len() - rest.len();
    assert(rest.subrange(n + 2 as int, rest.len() as int) =~= w.subrange(c + n + 2, w.len() as int));
}

proof fn lemma_chunked_run(p: BodyProgress, inp: Seq<u8>, w: Seq<u8>, fuel: nat)
    requires
        chunked_inv(p, inp, w),
    ensures
        run_steps(p, inp, fuel) matches (_, out, BodyStep::Done(k)) ==> k <= out.len() && dechunk(w)
            == Some((out.subrange(0, k as int), (w.len() - (out.len() - k)) as nat)) && out.len()
            - k <= w.len() && out.subrange(k as int, out.len() as int) == w.subrange(
            w.len() - (out.len() - k),
            w.len() as int,
        ),
    decreases fuel,
{
    let limit = p->BufferChunked_0;
    let off = p->BufferChunked_1;
    let left = p->BufferChunked_2;
    let (p2, inp2, step) = body_step(p, inp);
    if left == 0 {
        match parsed_chunk_size(size_window(inp, off as int)) {
            Ok(Some((n, size))) => {
                if n >= 2 && n <= size_window(inp, off as int).len() {
                    if size == 0 {
                        if off + n + 2 <= inp.len() && crlf_at(inp, off + n) {
                            lemma_last_chunk(limit, off, n, inp, w);
                        }
                    } else if off + size <= limit {
                        lemma_size_step(limit, off, n, size, inp, w);
                        if fuel > 0 {
                            lemma_chunked_run(p2, inp2, w, (fuel - 1) as nat);
                        }
                    }
                }
            },
            _ => {},
        }
    } else if inp.len() >= off + left + 2 && crlf_at(inp, off + left) {
        lemma_data_step(limit, off, left, inp, w);
        if fuel > 0 {
            lemma_chunked_run(p2, inp2, w, (fuel - 1) as nat);
        }
    }
}

proof fn lemma_buffered_run(p: BodyProgress, inp: Seq<u8>, fuel: nat)
    requires
        p is BufferChunked,
    ensures
        body_run(p, inp, fuel) == run_steps(p, inp, fuel),
    decreases fuel,
{
    let (p2, inp2, step) = body_step(p, inp);
    assert(!(step is Chunk));
    if step is Continue && fuel > 0 {
        assert(p2 is BufferChunked);
        lemma_buffered_run(p2, inp2, (fuel - 1) as nat);
    }
}

/// A buffered chunked body takes from the input exactly what its framing
/// spans: when reading it ends the body, the body handed over is the one
/// the chunks carry, and the input left is the wire bytes that follow the
/// framing (size lines, line ends and the last chunk included).
pub proof fn lemma_chunked_body_consumed(limit: usize, w: Seq<u8>)
    ensures
        read_outcome(BodyProgress::BufferChunked(limit, 0, 0), w).2 matches BodyStep::Done(k) ==> (
        dechunk(w) matches Some((body, framed)) && framed <= w.len() && body == read_outcome(
            BodyProgress::BufferChunked(limit, 0, 0),
            w,
        ).1.subrange(0, k as int) && input_after(BodyProgress::BufferChunked(limit, 0, 0), w)
            == w.subrange(framed as int, w.len() as int)),
{
    let p = BodyProgress::BufferChunked(limit, 0, 0);
    assert(w.subrange(0, w.len() as int) =~= w);
    assert(w.subrange(0, 0) =~= Seq::<u8>::empty());
    match dechunk(w) {
        Some((x, k)) => {
            assert(Seq::<u8>::empty() + x =~= x);
        },
        None => {},
    }
    assert(chunked_inv(p, w, w));
    let fuel = pending_measure(p, w.len()) + 1;
    lemma_chunked_run(p, w, w, fuel);
    lemma_buffered_run(p, w, fuel);
}

proof fn lemma_progressive_fixed_run(hint: usize, left: u64, inp: Seq<u8>, fuel: nat)
    requires
        inp.len() <= usize::MAX,
    ensures
        body_run(BodyProgress::ProgressiveFixed(hint, left), inp, fuel) matches (_, out, BodyStep::Done(k))
            ==> left <= inp.len() && k <= out.len() && out.subrange(k as int, out.len() as int)
            == inp.subrange(left as int, inp.len() as int),
    decreases fuel,
{
    let p = BodyProgress::ProgressiveFixed(hint, left);
    let (p2, inp2, step) = body_step(p, inp);
    if left == 0 {
        assert(inp.subrange(0, inp.len() as int) =~= inp);
    } else if inp.len() >= left {
    } else if step is Chunk && fuel > 0 {
        let rest = inp2.subrange(inp.len() as int, inp2.len() as int);
        assert(inp2 == inp);
        assert(rest.len() == 0);
        assert(p2 == BodyProgress::ProgressiveFixed(hint, (left - inp.len()) as u64));
        assert(body_run(p, inp, fuel) == body_run(p2, rest, (fuel - 1) as nat));
        lemma_progressive_fixed_run(hint, (left - inp.len()) as u64, rest, (fuel - 1) as nat);
    }
}

/// A progressive fixed-size body of `left` bytes takes exactly those bytes
/// from the input when reading it ends the body.
pub proof fn lemma_progressive_fixed_consumed(hint: usize, left: u64, w: Seq<u8>)
    requires
        w.len() <= usize::MAX,
    ensures
        read_outcome(BodyProgress::ProgressiveFixed(hint, left), w).2 is Done ==> left <= w.len()
            && input_after(BodyProgress::ProgressiveFixed(hint, left), w) == w.subrange(
            left as int,
            w.len() as int,
        ),
{
    lemma_progressive_fixed_run(
        hint,
        left,
        w,
        pending_measure(BodyProgress::ProgressiveFixed(hint, left), w.len()) + 1,
    );
}

spec fn frame_of(o: Option<(Seq<u8>, nat)>, c: nat) -> Option<nat> {
    match o {
        Some((_, k)) => Some(c + k),
        None => None,
    }
}

/// The input of a progressive chunked read stands to the wire bytes `w` as
/// body bytes held back, followed by the wire bytes not read yet.
spec fn progressive_inv(p: BodyProgress, inp: Seq<u8>, w: Seq<u8>) -> bool {
    match p {
        BodyProgress::ProgressiveChunked(_, off, left) => {
            let rest = inp.subrange(off as int, inp.len() as int);
            let c = (w.len() - rest.len()) as nat;
            &&& inp.len() <= usize::MAX
            &&& off <= inp.len()
            &&& rest.len() <= w.len()
            &&& rest == w.subrange(c as int, w.len() as int)
            &&& frame_of(dechunk(w), 0) == frame_of(
                if left == 0 {
                    dechunk(rest)
                } else {
                    in_chunk(rest, left as nat)
                },
                c,
            )
        },
        _ => false,
    }
}

proof fn lemma_pc_size(hint: usize, off: usize, n: nat, size: u64, inp: Seq<u8>, w: Seq<u8>)
    requires
        progressive_inv(BodyProgress::ProgressiveChunked(hint, off, 0), inp, w),
        parsed_chunk_size(size_window(inp, off as int)) == Ok::<Option<(nat, u64)>, ()>(
            Some((n, size)),
        ),
        2 <= n <= size_window(inp, off as int).len(),
        size > 0,
    ensures
        progressive_inv(
            BodyProgress::ProgressiveChunked(hint, off, size),
            splice(inp, off as int, off + n),
            w,
        ),
{
    let rest = inp.subrange(off as int, inp.len() as int);
    let c = (w.len() - rest.len()) as nat;
    let inp2 = splice(inp, off as int, off + n);
    let rest2 = inp2.subrange(off as int, inp2.len() as int);
    assert(size_window(inp, off as int) =~= size_window(rest, 0));
    assert(rest2 =~= rest.subrange(n as int, rest.len() as int));
    assert(rest2 =~= w.subrange((c + n) as int, w.len() as int));
    if size + 2 <= rest2.len() {
        assert(crlf_at(rest2, size as int) == crlf_at(rest, n + size));
        assert(rest2.subrange(size + 2, rest2.len() as int) =~= rest.subrange(
            n + size + 2,
            rest.len() as int,
        ));
    }
}

proof fn lemma_pc_last(hint: usize, off: usize, n: nat, inp: Seq<u8>, w: Seq<u8>)
    requires
        progressive_inv(BodyProgress::ProgressiveChunked(hint, off, 0), inp, w),
        parsed_chunk_size(size_window(inp, off as int)) == Ok::<Option<(nat, u64)>, ()>(
            Some((n, 0)),
        ),
        2 <= n <= size_window(inp, off as int).len(),
        off + n + 2 <= inp.len(),
        crlf_at(inp, off + n),
    ensures
        ({
            let out = splice(inp, off as int, off + n + 2);
            off <= out.len() && (dechunk(w) matches Some((_, framed)) && framed <= w.len()
                && out.subrange(off as int, out.len() as int) == w.subrange(
                framed as int,
                w.len() as int,
            ))
        }),
{
    let rest = inp.subrange(off as int, inp.len() as int);
    let c = (w.len() - rest.len()) as nat;
    assert(size_window(inp, off as int) =~= size_window(rest, 0));
    assert(crlf_at(rest, n as int));
    let out = splice(inp, off as int, off + n + 2);
    assert(out.subrange(off as int, out.len() as int) =~= rest.subrange(
        n + 2 as int,
        rest.len() as int,
    ));
    assert(rest.subrange(n + 2 as int, rest.len() as int) =~= w.subrange(
        (c + n + 2) as int,
        w.len() as int,
    ));
}

proof fn lemma_pc_data(hint: usize, off: usize, left: u64, inp: Seq<u8>, w: Seq<u8>)
    requires
        progressive_inv(BodyProgress::ProgressiveChunked(hint, off, left), inp, w),
        left > 0,
        inp.len() >= off + left + 2,
        crlf_at(inp, off + left),
    ensures
        ({
            let end = (off + left) as usize;
            let inp2 = splice(inp, end as int, end + 2);
            &&& end >= hint ==> progressive_inv(
                BodyProgress::ProgressiveChunked(hint, 0, 0),
                inp2.subrange(end as int, inp2.len() as int),
                w,
            )
            &&& end < hint ==> progressive_inv(
                BodyProgress::ProgressiveChunked(hint, end, 0),
                inp2,
                w,
            )
        }),
{
    let rest = inp.subrange(off as int, inp.len() as int);
    let c = (w.len() - rest.len()) as nat;
    let end = (off + left) as usize;
    let inp2 = splice(inp, end as int, end + 2);
    assert(crlf_at(rest, left as int));
    let rest2 = inp2.subrange(end as int, inp2.len() as int);
    assert(rest2 =~= rest.subrange(left + 2, rest.len() as int));
    assert(rest2 =~= w.subrange(c + left + 2, w.len() as int));
    assert(rest2.subrange(0, rest2.len() as int) =~= rest2);
}

proof fn lemma_pc_partial(hint: usize, off: usize, left: u64, inp: Seq<u8>, w: Seq<u8>)
    requires
        progressive_inv(BodyProgress::ProgressiveChunked(hint, off, left), inp, w),
        left > 0,
        off < inp.len() < off + left,
    ensures
        progressive_inv(
            BodyProgress::ProgressiveChunked(hint, 0, (left - (inp.len() - off)) as u64),
            Seq::<u8>::empty(),
            w,
        ),
{
    let rest = inp.subrange(off as int, inp.len() as int);
    assert(in_chunk(rest, left as nat) is None);
    assert(Seq::<u8>::empty().subrange(0, 0) =~= Seq::<u8>::empty());
    assert(w.subrange(w.len() as int, w.len() as int) =~= Seq::<u8>::empty());
}

proof fn lemma_progressive_run(p: BodyProgress, inp: Seq<u8>, w: Seq<u8>, fuel: nat)
    requires
        progressive_inv(p, inp, w),
    ensures
        body_run(p, inp, fuel) matches (_, out, BodyStep::Done(k)) ==> k <= out.len() && (dechunk(
            w,
        ) matches Some((_, framed)) && framed <= w.len() && out.subrange(k as int, out.len() as int)
            == w.subrange(framed as int, w.len() as int)),
    decreases fuel,
{
    let hint = p->ProgressiveChunked_0;
    let off = p->ProgressiveChunked_1;
    let left = p->ProgressiveChunked_2;
    let (p2, inp2, step) = body_step(p, inp);
    if left == 0 {
        match parsed_chunk_size(size_window(inp, off as int)) {
            Ok(Some((n, size))) => {
                if n >= 2 && n <= size_window(inp, off as int).len() {
                    if size == 0 {
                        if off + n + 2 <= inp.len() && crlf_at(inp, off + n) {
                            lemma_pc_last(hint, off, n, inp, w);
                        }
                    } else {
                        lemma_pc_size(hint, off, n, size, inp, w);
                        if fuel > 0 {
                            lemma_progressive_run(p2, inp2, w, (fuel - 1) as nat);
                        }
                    }
                }
            },
            _ => {},
        }
    } else if inp.len() >= off + left + 2 {
        if crlf_at(inp, off + left) {
            lemma_pc_data(hint, off, left, inp, w);
            let end = (off + left) as usize;
            if fuel > 0 {
                if end >= hint {
                    let inp3 = inp2.subrange(end as int, inp2.len() as int);
                    lemma_progressive_run(p2, inp3, w, (fuel - 1) as nat);
                } else {
                    lemma_progressive_run(p2, inp2, w, (fuel - 1) as nat);
                }
            }
        }
    } else if inp.len() < off + left && inp.len() > off && inp.len() >= hint {
        lemma_pc_partial(hint, off, left, inp, w);
        let inp3 = inp2.subrange(inp.len() as int, inp2.len() as int);
        assert(inp3 =~= Seq::<u8>::empty());
        if fuel > 0 {
            lemma_progressive_run(p2, inp3, w, (fuel - 1) as nat);
        }
    }
}

/// A progressive chunked body takes from the input exactly what its
/// framing spans: when reading it ends the body, the input left is the
/// wire bytes that follow the framing.
pub proof fn lemma_progressive_chunked_consumed(hint: usize, w: Seq<u8>)
    requires
        w.len() <= usize::MAX,
    ensures
        read_outcome(BodyProgress::ProgressiveChunked(hint, 0, 0), w).2 is Done ==> (dechunk(
            w,
        ) matches Some((_, framed)) && framed <= w.len() && input_after(
            BodyProgress::ProgressiveChunked(hint, 0, 0),
            w,
        ) == w.subrange(framed as int, w.len() as int)),
{
    let p = BodyProgress::ProgressiveChunked(hint, 0, 0);
    assert(w.subrange(0, w.len() as int) =~= w);
    assert(progressive_inv(p, w, w));
    lemma_progressive_run(p, w, w, pending_measure(p, w.len()) + 1);
}

/// A buffered fixed-size body of `n` bytes takes exactly its `n` bytes
/// from the input once they are all there.
pub proof fn lemma_fixed_body_consumed(n: usize, w: Seq<u8>)
    ensures
        read_outcome(BodyProgress::BufferFixed(n), w).2 == (if w.len() >= n {
            BodyStep::Done(n)
        } else {
            BodyStep::NeedMore
        }),
        w.len() >= n ==> input_after(BodyProgress::BufferFixed(n), w) == w.subrange(
            n as int,
            w.len() as int,
        ),
{
}

/// Steps taken one after the other until one needs more input, ends the
/// body or finds an error. A piece handed over (`Chunk(n)`) is consumed
/// before the next step.
pub open spec fn body_run(p: BodyProgress, inp: Seq<u8>, fuel: nat) -> (
    BodyProgress,
    Seq<u8>,
    BodyStep,
)
    decreases fuel,
{
    let (p2, inp2, step) = body_step(p, inp);
    match step {
        BodyStep::Continue => if fuel > 0 {
            body_run(p2, inp2, (fuel - 1) as nat)
        } else {
            (p2, inp2, step)
        },
        BodyStep::Chunk(n) => if fuel > 0 {
            body_run(p2, inp2.subrange(n as int, inp2.len() as int), (fuel - 1) as nat)
        } else {
            (p2, inp2, step)
        },
        _ => (p2, inp2, step),
    }
}

/// Where reading a body with progress `p` from input `inp` stops: the
/// progress, the input, and the last step (`NeedMore`, `Done` or `Error`).
pub open spec fn read_outcome(p: BodyProgress, inp: Seq<u8>) -> (BodyProgress, Seq<u8>, BodyStep) {
    body_run(p, inp, pending_measure(p, inp.len()) + 1)
}

/// The input left once a body read from `inp` with progress `p` stopped:
/// what the last step left, less the body handed over when it ended.
pub open spec fn input_after(p: BodyProgress, inp: Seq<u8>) -> Seq<u8> {
    let (_, rest, step) = read_outcome(p, inp);
    match step {
        BodyStep::Done(k) => rest.subrange(k as int, rest.len() as int),
        _ => rest,
    }
}

/// Cuts the bytes from `a` to `b` out of `v`.
pub fn remove_range(v: &mut Vec<u8>, a: usize, b: usize)
    requires
        a <= b <= old(v)@.len(),
    ensures
        final(v)@ == splice(old(v)@, a as int, b as int),
{
    let mut out: Vec<u8> = Vec::new();
    let mut i: usize = 0;
    while i < v.len()
        invariant
            a <= b <= v@.len(),
            0 <= i <= v@.len(),
            i <= a ==> out@ == v@.subrange(0, i as int),
            i >= b ==> out@ == v@.subrange(0, a as int) + v@.subrange(b as int, i as int),
            a < i < b ==> out@ == v@.subrange(0, a as int),
        decreases v@.len() - i,
    {
        if i < a || i >= b {
            out.push(v[i]);
        }
        proof {
            if i + 1 <= a {
                assert(v@.subrange(0, i + 1) == v@.subrange(0, i as int).push(v@[i as int]));
            }
            if i >= b {
                assert(v@.subrange(b as int, i + 1) == v@.subrange(b as int, i as int).push(
                    v@[i as int],
                ));
            }
            if i + 1 == b && a == b {
                assert(v@.subrange(b as int, b as int) == Seq::<u8>::empty());
            }
            if i + 1 == b && a < b {
                assert(v@.subrange(b as int, b as int) == Seq::<u8>::empty());
            }
        }
        i = i + 1;
    }
    proof {
        if v@.len() == a {
            assert(v@.subrange(b as int, v@.len() as int) == Seq::<u8>::empty());
        }
        if b == 0 {
            assert(out@ == v@.subrange(0, a as int) + v@.subrange(b as int, v@.len() as int));
        }
    }
    *v = out;
}

/// Drops the first `n` bytes of `v`.
pub fn consume(v: &mut Vec<u8>, n: usize)
    requires
        n <= old(v)@.len(),
    ensures
        final(v)@ == old(v)@.subrange(n as int, old(v)@.len() as int),
{
    remove_range(v, 0, n);
    assert(old(v)@.subrange(0, 0) + old(v)@.subrange(n as int, old(v)@.len() as int)
        =~= old(v)@.subrange(n as int, old(v)@.len() as int));
}

fn crlf_at_exec(s: &Vec<u8>, i: usize) -> (r: bool)
    ensures
        r == crlf_at(s@, i as int),
{
    i <= s.len() && s.len() - i >= 2 && s[i] == 13 && s[i + 1] == 10
}

fn size_line(p: BodyProgress, inp: &mut Vec<u8>, off: usize, limit: Option<usize>) -> (r: (
    BodyProgress,
    BodyStep,
))
    requires
        off <= old(inp)@.len(),
        limit is None ==> p is ProgressiveChunked,
    ensures
        (r.0, final(inp)@, r.1) == size_line_step(p, old(inp)@, off as int, limit),
        r.1 is Continue ==> final(inp)@.len() + 2 <= old(inp)@.len() && off <= final(inp)@.len(),
        r.1 matches BodyStep::Done(n) ==> n <= final(inp)@.len(),
{
    let end = if inp.len() - off < MAX_CHUNK_HEAD {
        inp.len()
    } else {
        off + MAX_CHUNK_HEAD
    };
    let window = &inp.as_slice()[off..end];
    assert(window@ == size_window(inp@, off as int));
    let parsed = parse_chunk_size(window);
    match parsed {
        Err(_) => (p, BodyStep::Error(BodyError::InvalidChunkSize)),
        Ok(None) => {
            if inp.len() - off >= MAX_CHUNK_HEAD {
                (p, BodyStep::Error(BodyError::ChunkHeadTooLong))
            } else {
                (p, BodyStep::NeedMore)
            }
        },
        Ok(Some((n, size))) => {
            if size == 0 {
                if inp.len() - off - n < 2 {
                    (p, BodyStep::NeedMore)
                } else if crlf_at_exec(inp, off + n) {
                    remove_range(inp, off, off + n + 2);
                    (p, BodyStep::Done(off))
                } else {
                    (p, BodyStep::Error(BodyError::InvalidChunkSize))
                }
            } else {
                match limit {
                    Some(l) => {
                        if off > l || size > (l - off) as u64 {
                            (p, BodyStep::Error(BodyError::ChunkIsTooLarge(size, l)))
                        } else {
                            remove_range(inp, off, off + n);
                            (BodyProgress::BufferChunked(l, off, size as usize), BodyStep::Continue)
                        }
                    },
                    None => {
                        remove_range(inp, off, off + n);
                        let hint = match p {
                            BodyProgress::ProgressiveChunked(h, _, _) => h,
                            _ => 0,
                        };
                        (BodyProgress::ProgressiveChunked(hint, off, size), BodyStep::Continue)
                    },
                }
            }
        },
    }
}

/// Takes one step of reading the body out of `inp`.
pub fn advance(progress: &mut BodyProgress, inp: &mut Vec<u8>) -> (r: BodyStep)
    requires
        progress_fits(*old(progress), old(inp)@.len()),
    ensures
        (*final(progress), final(inp)@, r) == body_step(*old(progress), old(inp)@),
        r is Continue ==> pending_measure(*final(progress), final(inp)@.len()) < pending_measure(
            *old(progress),
            old(inp)@.len(),
        ) && progress_fits(*final(progress), final(inp)@.len()),
        r matches BodyStep::Chunk(n) ==> 1 <= n <= final(inp)@.len() && pending_measure(
            *final(progress),
            (final(inp)@.len() - n) as nat,
        ) < pending_measure(*old(progress), old(inp)@.len()) && progress_fits(
            *final(progress),
            (final(inp)@.len() - n) as nat,
        ),
        r matches BodyStep::Done(n) ==> n <= final(inp)@.len(),
        r is NeedMore ==> progress_fits(*final(progress), final(inp)@.len()),
{
    let p = *progress;
    match p {
        BodyProgress::BufferFixed(n) => {
            if inp.len() >= n {
                BodyStep::Done(n)
            } else {
                BodyStep::NeedMore
            }
        },
        BodyProgress::BufferEof(limit) => {
            if inp.len() > limit {
                BodyStep::Error(BodyError::PayloadTooLarge)
            } else {
                BodyStep::NeedMore
            }
        },
        BodyProgress::ProgressiveFixed(hint, left) => {
            if left == 0 {
                BodyStep::Done(0)
            } else if inp.len() as u64 >= left {
                *progress = BodyProgress::ProgressiveFixed(hint, 0);
                BodyStep::Done(left as usize)
            } else if inp.len() > 0 && inp.len() >= hint {
                *progress = BodyProgress::ProgressiveFixed(hint, left - inp.len() as u64);
                BodyStep::Chunk(inp.len())
            } else {
                BodyStep::NeedMore
            }
        },
        BodyProgress::ProgressiveEof(hint) => {
            if inp.len() > 0 && inp.len() >= hint {
                BodyStep::Chunk(inp.len())
            } else {
                BodyStep::NeedMore
            }
        },
        BodyProgress::BufferChunked(limit, off, left) => {
            if left == 0 {
                let (np, step) = size_line(p, inp, off, Some(limit));
                *progress = np;
                step
            } else if inp.len() - off < left || inp.len() - off - left < 2 {
                BodyStep::NeedMore
            } else if crlf_at_exec(inp, off + left) {
                remove_range(inp, off + left, off + left + 2);
                *progress = BodyProgress::BufferChunked(limit, off + left, 0);
                BodyStep::Continue
            } else {
                BodyStep::Error(BodyError::InvalidChunkSize)
            }
        },
        BodyProgress::ProgressiveChunked(hint, off, left) => {
            let avail = inp.len() - off;
            if left == 0 {
                let (np, step) = size_line(p, inp, off, None);
                *progress = np;
                step
            } else if avail as u64 >= left && avail as u64 - left >= 2 {
                let end = off + left as usize;
                if crlf_at_exec(inp, end) {
                    remove_range(inp, end, end + 2);
                    if end >= hint {
                        *progress = BodyProgress::ProgressiveChunked(hint, 0, 0);
                        BodyStep::Chunk(end)
                    } else {
                        *progress = BodyProgress::ProgressiveChunked(hint, end, 0);
                        BodyStep::Continue
                    }
                } else {
                    BodyStep::Error(BodyError::InvalidChunkSize)
                }
            } else if (avail as u64) < left && avail > 0 && inp.len() >= hint {
                *progress = BodyProgress::ProgressiveChunked(hint, 0, left - avail as u64);
                BodyStep::Chunk(inp.len())
            } else {
                BodyStep::NeedMore
            }
        },
    }
}

/// What the end of the stream means for a body with progress `p` and
/// `len` bytes of input: bodies read to the end are complete, others were
/// cut short.
pub open spec fn eof_step(p: BodyProgress, len: nat) -> BodyStep {
    match p {
        BodyProgress::BufferEof(limit) => if len <= limit {
            BodyStep::Done(len as usize)
        } else {
            BodyStep::Error(BodyError::PayloadTooLarge)
        },
        BodyProgress::ProgressiveEof(_) => BodyStep::Done(len as usize),
        _ => BodyStep::Error(BodyError::PrematureEnd),
    }
}

/// Reads the end of the stream for a body with progress `progress`.
pub fn at_eof(progress: &BodyProgress, inp: &Vec<u8>) -> (r: BodyStep)
    ensures
        r == eof_step(*progress, inp@.len()),
{
    match progress {
        BodyProgress::BufferEof(limit) => {
            if inp.len() <= *limit {
                BodyStep::Done(inp.len())
            } else {
                BodyStep::Error(BodyError::PayloadTooLarge)
            }
        },
        BodyProgress::ProgressiveEof(_) => BodyStep::Done(inp.len()),
        _ => BodyStep::Error(BodyError::PrematureEnd),
    }
}

/// `a + b`, or the largest `usize` where that does not fit.
pub open spec fn sat_add(a: int, b: int) -> usize {
    if a + b > usize::MAX {
        usize::MAX
    } else {
        (a + b) as usize
    }
}

/// What to wait for after a step needed more input: the bytes that let the
/// next step move.
pub open spec fn body_expectation(p: BodyProgress, inp: Seq<u8>) -> Expectation {
    match p {
        BodyProgress::BufferFixed(n) => Expectation::Bytes(n),
        BodyProgress::BufferEof(limit) => Expectation::Bytes(sat_add(limit as int, 1)),
        BodyProgress::ProgressiveFixed(hint, left) => Expectation::Bytes(
            if left == 0 {
                0
            } else if hint as int > left as int {
                left as usize
            } else if hint == 0 {
                1
            } else {
                hint
            },
        ),
        BodyProgress::ProgressiveEof(hint) => Expectation::Bytes(if hint == 0 { 1 } else { hint }),
        BodyProgress::BufferChunked(_, off, left) => if left == 0 {
            line_expectation(inp, off)
        } else {
            Expectation::Bytes(sat_add(off + left, 2))
        },
        BodyProgress::ProgressiveChunked(_, off, left) => if left == 0 {
            line_expectation(inp, off)
        } else {
            Expectation::Bytes(sat_add(inp.len() as int, 1))
        },
    }
}

/// What to wait for at a chunk-size line that starts at `off`: the line
/// end, within `MAX_CHUNK_HEAD` bytes; after the last chunk's line, the
/// empty line that ends the body.
pub open spec fn line_expectation(inp: Seq<u8>, off: usize) -> Expectation {
    match parsed_chunk_size(size_window(inp, off as int)) {
        Ok(Some((n, size))) => if size == 0 && 2 <= n <= size_window(inp, off as int).len() {
            Expectation::Bytes(sat_add(off + n, 2))
        } else {
            Expectation::Delimiter(off, Needle::LineEnd, sat_add(off as int, MAX_CHUNK_HEAD as int))
        },
        _ => Expectation::Delimiter(off, Needle::LineEnd, sat_add(off as int, MAX_CHUNK_HEAD as int)),
    }
}

fn line_expectation_exec(inp: &Vec<u8>, off: usize) -> (r: Expectation)
    requires
        off <= inp@.len(),
    ensures
        r == line_expectation(inp@, off),
{
    let end = if inp.len() - off < MAX_CHUNK_HEAD {
        inp.len()
    } else {
        off + MAX_CHUNK_HEAD
    };
    let window = &inp.as_slice()[off..end];
    assert(window@ == size_window(inp@, off as int));
    let limit = sat_add_exec(off, MAX_CHUNK_HEAD);
    match parse_chunk_size(window) {
        Ok(Some((n, size))) => {
            if size == 0 {
                Expectation::Bytes(sat_add_exec(off + n, 2))
            } else {
                Expectation::Delimiter(off, Needle::LineEnd, limit)
            }
        },
        _ => Expectation::Delimiter(off, Needle::LineEnd, limit),
    }
}

fn sat_add_exec(a: usize, b: usize) -> (r: usize)
    ensures
        r == sat_add(a as int, b as int),
{
    if a > usize::MAX - b {
        usize::MAX
    } else {
        a + b
    }
}

/// What to wait for after a step needed more input.
pub fn expectation(progress: &BodyProgress, inp: &Vec<u8>) -> (r: Expectation)
    requires
        progress_fits(*progress, inp@.len()),
    ensures
        r == body_expectation(*progress, inp@),
{
    match progress {
        BodyProgress::BufferFixed(n) => Expectation::Bytes(*n),
        BodyProgress::BufferEof(limit) => Expectation::Bytes(sat_add_exec(*limit, 1)),
        BodyProgress::ProgressiveFixed(hint, left) => Expectation::Bytes(
            if *left == 0 {
                0
            } else if *hint as u64 > *left {
                *left as usize
            } else if *hint == 0 {
                1
            } else {
                *hint
            },
        ),
        BodyProgress::ProgressiveEof(hint) => Expectation::Bytes(if *hint == 0 { 1 } else { *hint }),
        BodyProgress::BufferChunked(_, off, left) => {
            if *left == 0 {
                line_expectation_exec(inp, *off)
            } else {
                Expectation::Bytes(sat_add_exec(*off + *left, 2))
            }
        },
        BodyProgress::ProgressiveChunked(_, off, left) => {
            if *left == 0 {
                line_expectation_exec(inp, *off)
            } else {
                Expectation::Bytes(sat_add_exec(inp.len(), 1))
            }
        },
    }
}

} // verus!
