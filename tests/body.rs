use rotor_http::body::{
    advance, at_eof, consume, expectation, remove_range, BodyError, BodyStep, Expectation, Needle,
};
use rotor_http::shared::{BodyKind, BodyProgress, RecvMode};

fn run(progress: &mut BodyProgress, inp: &mut Vec<u8>) -> BodyStep {
    loop {
        let step = advance(progress, inp);
        if step != BodyStep::Continue {
            return step;
        }
    }
}

#[test]
fn start_matches_mode_and_kind() {
    assert_eq!(BodyProgress::start(RecvMode::Buffered(10), BodyKind::Fixed(3)), BodyProgress::BufferFixed(3));
    assert_eq!(BodyProgress::start(RecvMode::Buffered(10), BodyKind::Chunked), BodyProgress::BufferChunked(10, 0, 0));
    assert_eq!(BodyProgress::start(RecvMode::Buffered(10), BodyKind::Eof), BodyProgress::BufferEof(10));
    assert_eq!(BodyProgress::start(RecvMode::Progressive(4), BodyKind::Fixed(3)), BodyProgress::ProgressiveFixed(4, 3));
    assert_eq!(BodyProgress::start(RecvMode::Progressive(4), BodyKind::Chunked), BodyProgress::ProgressiveChunked(4, 0, 0));
    assert_eq!(BodyProgress::start(RecvMode::Progressive(4), BodyKind::Eof), BodyProgress::ProgressiveEof(4));
}

#[test]
fn buffered_chunks_are_spliced_together() {
    let mut p = BodyProgress::start(RecvMode::Buffered(100), BodyKind::Chunked);
    let mut inp = b"4\r\nWiki\r\n5\r\npedia\r\nE\r\n in\r\n\r\nchunks.\r\n0\r\n\r\nNEXT".to_vec();
    let step = run(&mut p, &mut inp);
    assert_eq!(step, BodyStep::Done(23));
    assert_eq!(&inp[..23], b"Wikipedia in\r\n\r\nchunks.");
    consume(&mut inp, 23);
    assert_eq!(&inp[..], b"NEXT");
}

#[test]
fn chunk_extension_is_ignored() {
    let mut p = BodyProgress::BufferChunked(100, 0, 0);
    let mut inp = b"3;name=value\r\nabc\r\n0\r\n\r\n".to_vec();
    assert_eq!(run(&mut p, &mut inp), BodyStep::Done(3));
    assert_eq!(&inp[..], b"abc");
}

#[test]
fn partial_chunked_input_waits() {
    let mut p = BodyProgress::BufferChunked(100, 0, 0);
    let mut inp = b"5\r\nro".to_vec();
    assert_eq!(run(&mut p, &mut inp), BodyStep::NeedMore);
    assert_eq!(p, BodyProgress::BufferChunked(100, 0, 5));
    assert_eq!(&inp[..], b"ro");
    assert_eq!(expectation(&p, &inp), Expectation::Bytes(7));
    inp.extend_from_slice(b"tor\r\n0\r\n");
    assert_eq!(run(&mut p, &mut inp), BodyStep::NeedMore);
    inp.extend_from_slice(b"\r\n");
    assert_eq!(run(&mut p, &mut inp), BodyStep::Done(5));
    assert_eq!(&inp[..], b"rotor");
}

#[test]
fn chunk_over_the_limit_is_an_error() {
    let mut p = BodyProgress::BufferChunked(100, 0, 0);
    let mut inp = b"1000\r\n".to_vec();
    assert_eq!(run(&mut p, &mut inp), BodyStep::Error(BodyError::ChunkIsTooLarge(4096, 100)));
}

#[test]
fn bad_chunk_size_is_an_error() {
    let mut p = BodyProgress::BufferChunked(100, 0, 0);
    let mut inp = b"xy\r\n".to_vec();
    assert_eq!(run(&mut p, &mut inp), BodyStep::Error(BodyError::InvalidChunkSize));
}

#[test]
fn missing_line_end_after_data_is_an_error() {
    let mut p = BodyProgress::BufferChunked(100, 0, 0);
    let mut inp = b"2\r\nabXY0\r\n\r\n".to_vec();
    assert_eq!(run(&mut p, &mut inp), BodyStep::Error(BodyError::InvalidChunkSize));
}

#[test]
fn trailer_is_refused() {
    let mut p = BodyProgress::BufferChunked(100, 0, 0);
    let mut inp = b"0\r\nX-Trailer: 1\r\n\r\n".to_vec();
    assert_eq!(run(&mut p, &mut inp), BodyStep::Error(BodyError::InvalidChunkSize));
}

#[test]
fn long_size_line_is_an_error() {
    let mut p = BodyProgress::BufferChunked(100, 0, 0);
    let mut inp = vec![b'1'; 200];
    assert_eq!(run(&mut p, &mut inp), BodyStep::Error(BodyError::InvalidChunkSize));
    let mut p = BodyProgress::BufferChunked(100, 0, 0);
    let mut inp = b"1;".to_vec();
    inp.extend(vec![b'x'; 200]);
    assert_eq!(run(&mut p, &mut inp), BodyStep::Error(BodyError::ChunkHeadTooLong));
}

#[test]
fn fixed_body_waits_for_all_bytes() {
    let mut p = BodyProgress::BufferFixed(4);
    let mut inp = b"abc".to_vec();
    assert_eq!(advance(&mut p, &mut inp), BodyStep::NeedMore);
    assert_eq!(expectation(&p, &inp), Expectation::Bytes(4));
    inp.push(b'd');
    assert_eq!(advance(&mut p, &mut inp), BodyStep::Done(4));
}

#[test]
fn progressive_fixed_hands_out_pieces() {
    let mut p = BodyProgress::ProgressiveFixed(2, 5);
    let mut inp = b"a".to_vec();
    assert_eq!(advance(&mut p, &mut inp), BodyStep::NeedMore);
    inp.extend_from_slice(b"bc");
    assert_eq!(advance(&mut p, &mut inp), BodyStep::Chunk(3));
    assert_eq!(p, BodyProgress::ProgressiveFixed(2, 2));
    consume(&mut inp, 3);
    inp.extend_from_slice(b"deXX");
    assert_eq!(advance(&mut p, &mut inp), BodyStep::Done(2));
}

#[test]
fn progressive_chunked_hands_out_pieces() {
    let mut p = BodyProgress::ProgressiveChunked(1, 0, 0);
    let mut inp = b"4\r\nWiki\r\n5\r\nped".to_vec();
    assert_eq!(run(&mut p, &mut inp), BodyStep::Chunk(4));
    assert_eq!(&inp[..4], b"Wiki");
    consume(&mut inp, 4);
    assert_eq!(run(&mut p, &mut inp), BodyStep::Chunk(3));
    assert_eq!(&inp[..3], b"ped");
    assert_eq!(p, BodyProgress::ProgressiveChunked(1, 0, 2));
    consume(&mut inp, 3);
    inp.extend_from_slice(b"ia\r\n0\r\n\r\n");
    assert_eq!(run(&mut p, &mut inp), BodyStep::Chunk(2));
    consume(&mut inp, 2);
    assert_eq!(run(&mut p, &mut inp), BodyStep::Done(0));
    assert!(inp.is_empty());
}

#[test]
fn eof_bodies_end_with_the_stream() {
    let mut p = BodyProgress::BufferEof(5);
    let mut inp = b"abc".to_vec();
    assert_eq!(advance(&mut p, &mut inp), BodyStep::NeedMore);
    assert_eq!(at_eof(&p, &inp), BodyStep::Done(3));
    inp.extend_from_slice(b"def");
    assert_eq!(advance(&mut p, &mut inp), BodyStep::Error(BodyError::PayloadTooLarge));
    assert_eq!(at_eof(&BodyProgress::BufferFixed(4), &inp), BodyStep::Error(BodyError::PrematureEnd));
    assert_eq!(at_eof(&BodyProgress::ProgressiveEof(1), &inp), BodyStep::Done(6));
}

#[test]
fn remove_range_cuts_the_middle() {
    let mut v = b"0123456789".to_vec();
    remove_range(&mut v, 2, 5);
    assert_eq!(&v[..], b"0156789");
    remove_range(&mut v, 0, 0);
    assert_eq!(&v[..], b"0156789");
    remove_range(&mut v, 4, 7);
    assert_eq!(&v[..], b"0156");
}

#[test]
fn size_lines_wait_for_a_line_end() {
    let mut p = BodyProgress::BufferChunked(100, 0, 0);
    let mut inp = b"5".to_vec();
    assert_eq!(advance(&mut p, &mut inp), BodyStep::NeedMore);
    assert_eq!(expectation(&p, &inp), Expectation::Delimiter(0, Needle::LineEnd, 128));
    let mut q = BodyProgress::ProgressiveChunked(1, 3, 0);
    let held = b"abc4".to_vec();
    assert_eq!(expectation(&q, &held), Expectation::Delimiter(3, Needle::LineEnd, 131));
    let mut last = b"abc0\r\n".to_vec();
    assert_eq!(advance(&mut q, &mut last), BodyStep::NeedMore);
    assert_eq!(expectation(&q, &last), Expectation::Bytes(8));
}
