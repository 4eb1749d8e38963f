//! Body-framing resolution: from the headers of a message to the kind of
//! its body and whether the connection must close after it.
use vstd::prelude::*;
use vstd::string::StringSliceAdditionalSpecFns;

use crate::error::RequestError;
use crate::digits::decimal;
use crate::headers::{
    all_ws, chunked_word, close_word, connection_word, content_length_word, continue_word, expect_word,
    same_letters, same_letters_exec, token_is, token_is_exec, transfer_encoding_word,
};
use crate::shared::BodyKind;
use crate::wire::{headers_view, RawHeader};

verus! {

/// The pieces of `v` between commas, as `split(',')` yields them.
pub open spec fn parts(v: Seq<u8>) -> Seq<Seq<u8>>
    decreases v.len(),
{
    if v.len() == 0 {
        seq![Seq::empty()]
    } else {
        let p = parts(v.drop_last());
        if v.last() == 44 {
            p.push(Seq::empty())
        } else {
            p.update(p.len() - 1, p.last().push(v.last()))
        }
    }
}

/// Some comma-separated piece of `v` is the token `word`.
pub open spec fn any_part_is(v: Seq<u8>, word: Seq<u8>) -> bool {
    exists|k: int| 0 <= k < parts(v).len() && #[trigger] token_is(parts(v)[k], word)
}

/// The last comma-separated piece of `v` is the token `word`.
pub open spec fn last_part_is(v: Seq<u8>, word: Seq<u8>) -> bool {
    token_is(parts(v).last(), word)
}

/// Scans `v` piece by piece; returns whether some piece is `word` and the
/// start of the last piece.
fn scan_parts(v: &[u8], word: &[u8]) -> (r: (bool, usize))
    requires
        crate::headers::is_plain_word(word@),
    ensures
        r.0 == any_part_is(v@, word@),
        r.1 <= v@.len(),
        parts(v@).last() == v@.subrange(r.1 as int, v@.len() as int),
{
    let n = v.len();
    let mut found = false;
    let mut start: usize = 0;
    let mut i: usize = 0;
    proof {
        assert(v@.subrange(0, 0) == Seq::<u8>::empty());
    }
    while i < n
        invariant
            0 <= start <= i <= n,
            n == v@.len(),
            crate::headers::is_plain_word(word@),
            parts(v@.subrange(0, i as int)).len() >= 1,
            parts(v@.subrange(0, i as int)).last() == v@.subrange(start as int, i as int),
            found == (exists|k: int|
                0 <= k < parts(v@.subrange(0, i as int)).len() - 1 && #[trigger] token_is(
                    parts(v@.subrange(0, i as int))[k],
                    word@,
                )),
        decreases n - i,
    {
        let ghost before = parts(v@.subrange(0, i as int));
        assert(v@.subrange(0, i + 1).drop_last() == v@.subrange(0, i as int));
        assert(v@.subrange(0, i + 1).last() == v@[i as int]);
        if v[i] == 44 {
            let hit = token_is_exec(&v[start..i], word);
            proof {
                let after = parts(v@.subrange(0, i + 1));
                assert(after == before.push(Seq::empty()));
                assert forall|k: int| 0 <= k < after.len() - 1 implies after[k] == before[k] by {}
                if hit {
                    assert(token_is(after[before.len() - 1], word@));
                }
                if found {
                    let k = choose|k: int|
                        0 <= k < before.len() - 1 && #[trigger] token_is(before[k], word@);
                    assert(token_is(after[k], word@));
                }
                assert(v@.subrange(i + 1, i + 1) == Seq::<u8>::empty());
            }
            found = found || hit;
            start = i + 1;
        } else {
            proof {
                let after = parts(v@.subrange(0, i + 1));
                assert(after == before.update(before.len() - 1, before.last().push(v@[i as int])));
                assert(v@.subrange(start as int, i + 1) == v@.subrange(start as int, i as int).push(
                    v@[i as int],
                ));
                assert forall|k: int| 0 <= k < after.len() - 1 implies after[k] == before[k] by {}
            }
        }
        i = i + 1;
    }
    let hit = token_is_exec(&v[start..n], word);
    proof {
        assert(v@.subrange(0, n as int) == v@);
        let p = parts(v@);
        if hit {
            assert(token_is(p[p.len() - 1], word@));
        }
        if found {
            let k = choose|k: int| 0 <= k < p.len() - 1 && #[trigger] token_is(p[k], word@);
            assert(token_is(p[k], word@));
        }
        if any_part_is(v@, word@) {
            let k = choose|k: int| 0 <= k < p.len() && #[trigger] token_is(p[k], word@);
            if k < p.len() - 1 {
                assert(found);
            } else {
                assert(hit);
            }
        }
    }
    (found || hit, start)
}

/// The value of a sequence of decimal digits.
pub open spec fn digits_value(s: Seq<u8>) -> nat
    decreases s.len(),
{
    if s.len() == 0 {
        0
    } else {
        digits_value(s.drop_last()) * 10 + (s.last() - 48) as nat
    }
}

pub open spec fn all_digits(s: Seq<u8>) -> bool {
    forall|i: int| 0 <= i < s.len() ==> 48 <= #[trigger] s[i] <= 57
}

/// The digits of a `Content-Length` value: an optional `+`, then the rest.
pub open spec fn length_digits(s: Seq<u8>) -> Seq<u8> {
    if s.len() > 0 && s[0] == 43 {
        s.drop_first()
    } else {
        s
    }
}

/// The number a `Content-Length` value states, as an unsigned 64-bit
/// integer is read from text: an optional `+` and at least one digit.
pub open spec fn content_length_value(s: Seq<u8>) -> Option<u64> {
    let d = length_digits(s);
    if d.len() > 0 && all_digits(d) && digits_value(d) <= u64::MAX {
        Some(digits_value(d) as u64)
    } else {
        None
    }
}

proof fn lemma_digits_grow(s: Seq<u8>, i: int)
    requires
        0 <= i <= s.len(),
        all_digits(s),
    ensures
        digits_value(s.subrange(0, i)) <= digits_value(s),
    decreases s.len() - i,
{
    if i < s.len() {
        lemma_digits_grow(s, i + 1);
        assert(s.subrange(0, i + 1).drop_last() == s.subrange(0, i));
    } else {
        assert(s.subrange(0, i) == s);
    }
}

/// Reads a `Content-Length` value.
pub fn parse_content_length(s: &[u8]) -> (r: Option<u64>)
    ensures
        r == content_length_value(s@),
{
    let start: usize = if s.len() > 0 && s[0] == 43 {
        1
    } else {
        0
    };
    let ghost d = length_digits(s@);
    assert(d == s@.subrange(start as int, s@.len() as int));
    if start >= s.len() {
        return None;
    }
    let mut value: u64 = 0;
    let mut i: usize = start;
    while i < s.len()
        invariant
            start <= i <= s@.len(),
            d == length_digits(s@),
            d == s@.subrange(start as int, s@.len() as int),
            all_digits(d.subrange(0, i - start)),
            value as nat == digits_value(d.subrange(0, i - start)),
        decreases s@.len() - i,
    {
        let c = s[i];
        assert(d.subrange(0, i - start + 1).drop_last() == d.subrange(0, i - start));
        assert(d[i - start] == c);
        if c < 48 || c > 57 {
            assert(!all_digits(d));
            return None;
        }
        let digit: u64 = (c - 48) as u64;
        if value > (u64::MAX - digit) / 10 {
            proof {
                assert(digits_value(d.subrange(0, i - start + 1)) == value * 10 + digit);
                assert(value * 10 + digit > u64::MAX) by (nonlinear_arith)
                    requires
                        value > (u64::MAX - digit) / 10,
                        digit <= 9,
                ;
                if all_digits(d) {
                    lemma_digits_grow(d, i - start + 1);
                }
            }
            return None;
        }
        assert(value * 10 + digit <= u64::MAX) by (nonlinear_arith)
            requires
                value <= (u64::MAX - digit) / 10,
                digit <= 9,
        ;
        value = value * 10 + digit;
        i = i + 1;
    }
    assert(d.subrange(0, i - start) == d);
    Some(value)
}

/// `h` names `Content-Length`.
pub open spec fn is_cl(h: (Seq<u8>, Seq<u8>)) -> bool {
    same_letters(h.0, content_length_word())
}

/// Some header is `Content-Length`.
pub open spec fn has_cl(hs: Seq<(Seq<u8>, Seq<u8>)>) -> bool {
    exists|i: int| 0 <= i < hs.len() && #[trigger] is_cl(hs[i])
}

/// `Content-Length` is given twice.
pub open spec fn dup_cl(hs: Seq<(Seq<u8>, Seq<u8>)>) -> bool {
    exists|i: int, j: int| 0 <= i < j < hs.len() && #[trigger] is_cl(hs[i]) && #[trigger] is_cl(hs[j])
}

/// The value of the `Content-Length` header (of one of them, if several).
pub open spec fn cl_value(hs: Seq<(Seq<u8>, Seq<u8>)>) -> Seq<u8> {
    hs[choose|i: int| 0 <= i < hs.len() && #[trigger] is_cl(hs[i])].1
}

/// Some `Transfer-Encoding` header ends with the coding `chunked`.
pub open spec fn te_chunked(hs: Seq<(Seq<u8>, Seq<u8>)>) -> bool {
    exists|i: int|
        0 <= i < hs.len() && same_letters(#[trigger] hs[i].0, transfer_encoding_word())
            && last_part_is(hs[i].1, chunked_word())
}

/// Some `Connection` header lists the token `close`.
pub open spec fn conn_close(hs: Seq<(Seq<u8>, Seq<u8>)>) -> bool {
    exists|i: int|
        0 <= i < hs.len() && same_letters(#[trigger] hs[i].0, connection_word()) && any_part_is(
            hs[i].1,
            close_word(),
        )
}

/// Some `Expect` header is `100-continue`.
pub open spec fn expect_continue(hs: Seq<(Seq<u8>, Seq<u8>)>) -> bool {
    exists|i: int|
        0 <= i < hs.len() && same_letters(#[trigger] hs[i].0, expect_word()) && token_is(
            hs[i].1,
            continue_word(),
        )
}

/// The body kind that the headers `hs` of a message with a body give, and
/// whether the framing is ambiguous enough to forbid keep-alive (chunked
/// with a length beside it). Without framing headers a request has no body
/// and a response runs to the end of the stream.
pub open spec fn framing(hs: Seq<(Seq<u8>, Seq<u8>)>, is_request: bool) -> Result<(BodyKind, bool), RequestError> {
    if dup_cl(hs) {
        Err(RequestError::DuplicateContentLength)
    } else if te_chunked(hs) {
        Ok((BodyKind::Chunked, has_cl(hs)))
    } else if has_cl(hs) {
        match content_length_value(cl_value(hs)) {
            Some(n) => Ok((BodyKind::Fixed(n), false)),
            None => Err(RequestError::BadContentLength),
        }
    } else if is_request {
        Ok((BodyKind::Fixed(0), false))
    } else {
        Ok((BodyKind::Eof, false))
    }
}

/// What one pass over the headers finds.
pub struct HeaderFacts {
    pub first_cl: Option<usize>,
    pub dup_cl: bool,
    pub chunked: bool,
    pub close: bool,
    pub expect_continue: bool,
}

fn header_facts(headers: &Vec<RawHeader>) -> (r: HeaderFacts)
    ensures
        ({
            let hs = headers_view(headers@);
            &&& r.dup_cl == dup_cl(hs)
            &&& r.chunked == te_chunked(hs)
            &&& r.close == conn_close(hs)
            &&& r.expect_continue == expect_continue(hs)
            &&& (r.first_cl is Some <==> has_cl(hs))
            &&& (r.first_cl matches Some(i) ==> i < hs.len() && is_cl(hs[i as int]) && (!dup_cl(hs)
                ==> cl_value(hs) == hs[i as int].1))
        }),
{
    let ghost hs = headers_view(headers@);
    let mut first_cl: Option<usize> = None;
    let mut dup = false;
    let mut chunked = false;
    let mut close = false;
    let mut expect = false;
    let mut i: usize = 0;
    proof {
        reveal_strlit("transfer-encoding");
        reveal_strlit("content-length");
        reveal_strlit("connection");
        reveal_strlit("expect");
        reveal_strlit("close");
        reveal_strlit("chunked");
        reveal_strlit("100-continue");
        assert(vstd::string::is_ascii("close"));
        assert(vstd::string::is_ascii("chunked"));
        assert(vstd::string::is_ascii("100-continue"));
        assert(close_word() =~= seq![99u8, 108, 111, 115, 101]);
        assert(chunked_word() =~= seq![99u8, 104, 117, 110, 107, 101, 100]);
        assert(continue_word() =~= seq![49u8, 48, 48, 45, 99, 111, 110, 116, 105, 110, 117, 101]);
    }
    while i < headers.len()
        invariant
            0 <= i <= headers@.len(),
            hs == headers_view(headers@),
            hs.len() == headers@.len(),
            crate::headers::is_plain_word(close_word()),
            crate::headers::is_plain_word(chunked_word()),
            crate::headers::is_plain_word(continue_word()),
            dup == dup_cl(hs.subrange(0, i as int)),
            chunked == te_chunked(hs.subrange(0, i as int)),
            close == conn_close(hs.subrange(0, i as int)),
            expect == expect_continue(hs.subrange(0, i as int)),
            first_cl is Some <==> has_cl(hs.subrange(0, i as int)),
            first_cl matches Some(f) ==> f < i && is_cl(hs[f as int]) && forall|j: int|
                0 <= j < f ==> !#[trigger] is_cl(hs[j]),
        decreases headers@.len() - i,
    {
        let h = &headers[i];
        let ghost pre = hs.subrange(0, i as int);
        let ghost post = hs.subrange(0, i + 1);
        assert(post == pre.push(hs[i as int]));
        assert(hs[i as int] == (h.name@, h.value@));
        assert forall|k: int| 0 <= k < i implies #[trigger] post[k] == pre[k] by {}
        let name = h.name.as_slice();
        let value = h.value.as_slice();
        let ghost old_chunked = chunked;
        let ghost old_close = close;
        let ghost old_expect = expect;
        let is_te = same_letters_exec(name, "transfer-encoding".as_bytes());
        let is_len = same_letters_exec(name, "content-length".as_bytes());
        let is_conn = same_letters_exec(name, "connection".as_bytes());
        let is_exp = same_letters_exec(name, "expect".as_bytes());
        if is_te {
            let (_, last) = scan_parts(value, "chunked".as_bytes());
            let c = token_is_exec(&value[last..value.len()], "chunked".as_bytes());
            chunked = chunked || c;
        }
        if is_conn {
            let (c, _) = scan_parts(value, "close".as_bytes());
            close = close || c;
        }
        if is_exp {
            let c = token_is_exec(value, "100-continue".as_bytes());
            expect = expect || c;
        }
        assert(chunked == (old_chunked || (same_letters(hs[i as int].0, transfer_encoding_word())
            && last_part_is(hs[i as int].1, chunked_word()))));
        assert(close == (old_close || (same_letters(hs[i as int].0, connection_word())
            && any_part_is(hs[i as int].1, close_word()))));
        assert(expect == (old_expect || (same_letters(hs[i as int].0, expect_word()) && token_is(
            hs[i as int].1,
            continue_word(),
        ))));
        assert(is_len == is_cl(hs[i as int]));
        proof {
            if first_cl is None {
                assert forall|j: int| 0 <= j < i implies !#[trigger] is_cl(hs[j]) by {
                    if is_cl(hs[j]) {
                        assert(is_cl(pre[j]));
                    }
                }
            }
        }
        if is_len {
            if first_cl.is_some() {
                dup = true;
            } else {
                first_cl = Some(i);
            }
        }
        proof {
            assert(chunked == te_chunked(post)) by {
                if te_chunked(post) {
                    let k = choose|k: int|
                        0 <= k < post.len() && same_letters(#[trigger] post[k].0, transfer_encoding_word())
                            && last_part_is(post[k].1, chunked_word());
                    if k < i {
                        assert(pre[k] == post[k]);
                    } else {
                        assert(post[k] == hs[i as int]);
                    }
                }
                if !old_chunked && same_letters(hs[i as int].0, transfer_encoding_word())
                    && last_part_is(hs[i as int].1, chunked_word()) {
                    assert(post[i as int] == hs[i as int]);
                }
                if te_chunked(pre) {
                    let k = choose|k: int|
                        0 <= k < pre.len() && same_letters(#[trigger] pre[k].0, transfer_encoding_word())
                            && last_part_is(pre[k].1, chunked_word());
                    assert(post[k] == pre[k]);
                }
            }
            assert(close == conn_close(post)) by {
                if conn_close(post) {
                    let k = choose|k: int|
                        0 <= k < post.len() && same_letters(#[trigger] post[k].0, connection_word())
                            && any_part_is(post[k].1, close_word());
                    if k < i {
                        assert(pre[k] == post[k]);
                    } else {
                        assert(post[k] == hs[i as int]);
                    }
                }
                if !old_close && same_letters(hs[i as int].0, connection_word()) && any_part_is(
                    hs[i as int].1,
                    close_word(),
                ) {
                    assert(post[i as int] == hs[i as int]);
                }
                if conn_close(pre) {
                    let k = choose|k: int|
                        0 <= k < pre.len() && same_letters(#[trigger] pre[k].0, connection_word())
                            && any_part_is(pre[k].1, close_word());
                    assert(post[k] == pre[k]);
                }
            }
            assert(expect == expect_continue(post)) by {
                if expect_continue(post) {
                    let k = choose|k: int|
                        0 <= k < post.len() && same_letters(#[trigger] post[k].0, expect_word())
                            && token_is(post[k].1, continue_word());
                    if k < i {
                        assert(pre[k] == post[k]);
                    } else {
                        assert(post[k] == hs[i as int]);
                    }
                }
                if !old_expect && same_letters(hs[i as int].0, expect_word()) && token_is(
                    hs[i as int].1,
                    continue_word(),
                ) {
                    assert(post[i as int] == hs[i as int]);
                }
                if expect_continue(pre) {
                    let k = choose|k: int|
                        0 <= k < pre.len() && same_letters(#[trigger] pre[k].0, expect_word())
                            && token_is(pre[k].1, continue_word());
                    assert(post[k] == pre[k]);
                }
            }
            assert(has_cl(post) == (has_cl(pre) || is_cl(hs[i as int]))) by {
                if has_cl(post) {
                    let k = choose|k: int| 0 <= k < post.len() && #[trigger] is_cl(post[k]);
                    if k < i {
                        assert(is_cl(pre[k]));
                    }
                }
                if has_cl(pre) {
                    let k = choose|k: int| 0 <= k < pre.len() && #[trigger] is_cl(pre[k]);
                    assert(is_cl(post[k]));
                }
                if is_cl(hs[i as int]) {
                    assert(is_cl(post[i as int]));
                }
            }
            assert(dup == dup_cl(post)) by {
                if dup_cl(post) {
                    let (a, b) = choose|a: int, b: int|
                        0 <= a < b < post.len() && #[trigger] is_cl(post[a]) && #[trigger] is_cl(post[b]);
                    if b < i {
                        assert(is_cl(pre[a]) && is_cl(pre[b]));
                    } else {
                        assert(is_cl(pre[a]));
                        assert(has_cl(pre));
                    }
                }
                if dup_cl(pre) {
                    let (a, b) = choose|a: int, b: int|
                        0 <= a < b < pre.len() && #[trigger] is_cl(pre[a]) && #[trigger] is_cl(pre[b]);
                    assert(is_cl(post[a]) && is_cl(post[b]));
                }
                if has_cl(pre) && is_cl(hs[i as int]) {
                    let k = choose|k: int| 0 <= k < pre.len() && #[trigger] is_cl(pre[k]);
                    assert(is_cl(post[k]) && is_cl(post[i as int]));
                }
            }
        }
        i = i + 1;
    }
    proof {
        assert(hs.subrange(0, i as int) == hs);
        if let Some(f) = first_cl {
            if !dup_cl(hs) {
                let c = choose|c: int| 0 <= c < hs.len() && #[trigger] is_cl(hs[c]);
                if c != f {
                    if c < f {
                        assert(!is_cl(hs[c]));
                    } else {
                        assert(is_cl(hs[f as int]) && is_cl(hs[c]));
                    }
                }
            }
        }
    }
    HeaderFacts { first_cl, dup_cl: dup, chunked, close, expect_continue: expect }
}

/// Resolves the framing of a message with a body from its headers.
pub fn resolve_framing(headers: &Vec<RawHeader>, is_request: bool) -> (r: (
    Result<(BodyKind, bool), RequestError>,
    HeaderFacts,
))
    ensures
        r.0 == framing(headers_view(headers@), is_request),
        r.1.close == conn_close(headers_view(headers@)),
        r.1.expect_continue == expect_continue(headers_view(headers@)),
{
    let facts = header_facts(headers);
    let result = if facts.dup_cl {
        Err(RequestError::DuplicateContentLength)
    } else if facts.chunked {
        Ok((BodyKind::Chunked, facts.first_cl.is_some()))
    } else if let Some(i) = facts.first_cl {
        match parse_content_length(headers[i].value.as_slice()) {
            Some(n) => Ok((BodyKind::Fixed(n), false)),
            None => Err(RequestError::BadContentLength),
        }
    } else if is_request {
        Ok((BodyKind::Fixed(0), false))
    } else {
        Ok((BodyKind::Eof, false))
    };
    (result, facts)
}

/// What the engine learns from a request head.
#[derive(Copy, Clone, Debug, PartialEq, Eq, Structural)]
pub struct RequestScan {
    /// How the body is framed.
    pub body: BodyKind,
    /// The method is `HEAD`.
    pub is_head: bool,
    /// The client waits for `100 Continue` before it sends the body.
    pub expect_continue: bool,
    /// The connection closes after the response.
    pub close: bool,
}

/// The method `HEAD`, which is case-sensitive.
pub open spec fn is_head_method(method: Seq<u8>) -> bool {
    method == seq![72u8, 69, 65, 68]
}

/// What a request head with `method`, minor `version` and headers `hs`
/// tells: its framing, and that HTTP/1.0, `Connection: close` or a length
/// beside chunked framing close the connection.
pub open spec fn request_scan(method: Seq<u8>, version: u8, hs: Seq<(Seq<u8>, Seq<u8>)>) -> Result<
    RequestScan,
    RequestError,
> {
    match framing(hs, true) {
        Err(e) => Err(e),
        Ok((body, ambiguous)) => Ok(
            RequestScan {
                body,
                is_head: is_head_method(method),
                expect_continue: expect_continue(hs),
                close: version == 0 || conn_close(hs) || ambiguous,
            },
        ),
    }
}

/// A response that carries no body whatever its headers say: one to a
/// HEAD request, or with status 1xx, 204 or 304.
pub open spec fn response_is_bodiless(is_head: bool, code: u16) -> bool {
    is_head || (100 <= code && code < 200) || code == 204 || code == 304
}

/// What a response head tells: the kind of its body and whether the
/// connection closes after it.
pub open spec fn response_scan(is_head: bool, code: u16, version: u8, hs: Seq<(Seq<u8>, Seq<u8>)>) -> Result<
    (BodyKind, bool),
    RequestError,
> {
    if response_is_bodiless(is_head, code) {
        Ok((BodyKind::Fixed(0), version == 0 || conn_close(hs)))
    } else {
        match framing(hs, false) {
            Err(e) => Err(e),
            Ok((body, ambiguous)) => Ok((body, version == 0 || conn_close(hs) || ambiguous)),
        }
    }
}

fn method_is_head(method: &[u8]) -> (r: bool)
    ensures
        r == is_head_method(method@),
{
    let r = method.len() == 4 && method[0] == 72 && method[1] == 69 && method[2] == 65 && method[3]
        == 68;
    proof {
        if r {
            assert(method@ =~= seq![72u8, 69, 65, 68]);
        }
    }
    r
}

/// Scans the head of a request.
pub fn scan_request(method: &[u8], version: u8, headers: &Vec<RawHeader>) -> (r: Result<
    RequestScan,
    RequestError,
>)
    ensures
        r == request_scan(method@, version, headers_view(headers@)),
{
    let (framed, facts) = resolve_framing(headers, true);
    match framed {
        Err(e) => Err(e),
        Ok((body, ambiguous)) => Ok(
            RequestScan {
                body,
                is_head: method_is_head(method),
                expect_continue: facts.expect_continue,
                close: version == 0 || facts.close || ambiguous,
            },
        ),
    }
}

/// Scans the head of a response; `is_head` tells that the request was a
/// HEAD request.
pub fn scan_response(is_head: bool, code: u16, version: u8, headers: &Vec<RawHeader>) -> (r:
    Result<(BodyKind, bool), RequestError>)
    ensures
        r == response_scan(is_head, code, version, headers_view(headers@)),
{
    let (framed, facts) = resolve_framing(headers, false);
    if is_head || (100 <= code && code < 200) || code == 204 || code == 304 {
        Ok((BodyKind::Fixed(0), version == 0 || facts.close))
    } else {
        match framed {
            Err(e) => Err(e),
            Ok((body, ambiguous)) => Ok((body, version == 0 || facts.close || ambiguous)),
        }
    }
}

proof fn lemma_decimal_digits(n: nat)
    ensures
        decimal(n).len() > 0,
        all_digits(decimal(n)),
        digits_value(decimal(n)) == n,
        decimal(n)[0] != 43,
    decreases n,
{
    if n >= 10 {
        lemma_decimal_digits(n / 10);
        let d = decimal(n);
        assert(d.drop_last() == decimal(n / 10));
        assert(d[0] == decimal(n / 10)[0]);
        assert forall|i: int| 0 <= i < d.len() implies 48 <= #[trigger] d[i] <= 57 by {
            if i < d.len() - 1 {
                assert(d[i] == decimal(n / 10)[i]);
            }
        }
        assert(d.last() == (48 + n % 10) as u8);
        assert((n / 10) * 10 + n % 10 == n) by (nonlinear_arith);
        assert(digits_value(d) == digits_value(d.drop_last()) * 10 + (d.last() - 48) as nat);
    } else {
        let d = decimal(n);
        assert(d.drop_last() =~= Seq::<u8>::empty());
        assert(digits_value(d) == digits_value(d.drop_last()) * 10 + (d.last() - 48) as nat);
    }
}

/// The decimal text that the builder writes for a length reads back as
/// that length.
pub proof fn lemma_content_length_round_trip(n: u64)
    ensures
        content_length_value(decimal(n as nat)) == Some(n),
{
    lemma_decimal_digits(n as nat);
}

proof fn lemma_parts_without_commas(v: Seq<u8>)
    requires
        forall|i: int| 0 <= i < v.len() ==> #[trigger] v[i] != 44,
    ensures
        parts(v) == seq![v],
    decreases v.len(),
{
    if v.len() > 0 {
        lemma_parts_without_commas(v.drop_last());
        assert(v.drop_last().push(v.last()) == v);
        let p = parts(v.drop_last());
        assert(p.update(p.len() - 1, p.last().push(v.last())) =~= seq![v]);
    } else {
        assert(v =~= Seq::<u8>::empty());
    }
}

/// Headers that leave the framing alone: neither `Content-Length` nor
/// `Transfer-Encoding`.
pub open spec fn frames_nothing(hs: Seq<(Seq<u8>, Seq<u8>)>) -> bool {
    forall|i: int|
        0 <= i < hs.len() ==> !is_cl(#[trigger] hs[i]) && !same_letters(
            hs[i].0,
            transfer_encoding_word(),
        )
}

/// Round trip of the framing: a message whose headers are the ones a
/// caller added plus the `Content-Length: n` line the builder writes is
/// read back as a fixed body of `n` bytes, with no reason to close.
pub proof fn lemma_length_framing_round_trip(hs: Seq<(Seq<u8>, Seq<u8>)>, n: u64, is_request: bool)
    requires
        frames_nothing(hs),
    ensures
        framing(hs.push(("Content-Length".spec_bytes(), decimal(n as nat))), is_request) == Ok::<
            (BodyKind, bool),
            RequestError,
        >((BodyKind::Fixed(n), false)),
{
    let line = ("Content-Length".spec_bytes(), decimal(n as nat));
    let all = hs.push(line);
    reveal_strlit("Content-Length");
    reveal_strlit("content-length");
    reveal_strlit("transfer-encoding");
    assert(vstd::string::is_ascii("Content-Length"));
    assert(vstd::string::is_ascii("content-length"));
    assert(vstd::string::is_ascii("transfer-encoding"));
    assert(is_cl(line));
    assert(is_cl(all[hs.len() as int]));
    assert forall|i: int| 0 <= i < hs.len() implies #[trigger] all[i] == hs[i] by {}
    assert(!dup_cl(all)) by {
        if dup_cl(all) {
            let (a, b) = choose|a: int, b: int|
                0 <= a < b < all.len() && #[trigger] is_cl(all[a]) && #[trigger] is_cl(all[b]);
            assert(all[a] == hs[a]);
        }
    }
    assert(!te_chunked(all)) by {
        if te_chunked(all) {
            let k = choose|k: int|
                0 <= k < all.len() && same_letters(#[trigger] all[k].0, transfer_encoding_word())
                    && last_part_is(all[k].1, chunked_word());
            if k < hs.len() {
                assert(all[k] == hs[k]);
            }
        }
    }
    assert(has_cl(all));
    let c = choose|c: int| 0 <= c < all.len() && #[trigger] is_cl(all[c]);
    if c < hs.len() {
        assert(all[c] == hs[c]);
    }
    assert(cl_value(all) == decimal(n as nat));
    lemma_content_length_round_trip(n);
}

/// Round trip of the framing: a message whose headers are the ones a
/// caller added plus the `Transfer-Encoding: chunked` line the builder
/// writes is read back as chunked, with no reason to close.
pub proof fn lemma_chunked_framing_round_trip(hs: Seq<(Seq<u8>, Seq<u8>)>, is_request: bool)
    requires
        frames_nothing(hs),
    ensures
        framing(hs.push(("Transfer-Encoding".spec_bytes(), "chunked".spec_bytes())), is_request)
            == Ok::<(BodyKind, bool), RequestError>((BodyKind::Chunked, false)),
{
    let line = ("Transfer-Encoding".spec_bytes(), "chunked".spec_bytes());
    let all = hs.push(line);
    reveal_strlit("Transfer-Encoding");
    reveal_strlit("chunked");
    reveal_strlit("content-length");
    reveal_strlit("transfer-encoding");
    assert(vstd::string::is_ascii("Transfer-Encoding"));
    assert(vstd::string::is_ascii("chunked"));
    assert(vstd::string::is_ascii("content-length"));
    assert(vstd::string::is_ascii("transfer-encoding"));
    assert(!is_cl(line));
    assert forall|i: int| 0 <= i < hs.len() implies #[trigger] all[i] == hs[i] by {}
    let v = "chunked".spec_bytes();
    lemma_parts_without_commas(v);
    assert(all_ws(v.subrange(0, 0)));
    assert(v.subrange(0, v.len() as int) == v);
    assert(all_ws(v.subrange(v.len() as int, v.len() as int)));
    assert(token_is(v, chunked_word()));
    assert(last_part_is(all[hs.len() as int].1, chunked_word()));
    assert(same_letters(all[hs.len() as int].0, transfer_encoding_word()));
    assert(te_chunked(all));
    assert(!dup_cl(all)) by {
        if dup_cl(all) {
            let (a, b) = choose|a: int, b: int|
                0 <= a < b < all.len() && #[trigger] is_cl(all[a]) && #[trigger] is_cl(all[b]);
            assert(all[a] == hs[a]);
        }
    }
    assert(!has_cl(all)) by {
        if has_cl(all) {
            let c = choose|c: int| 0 <= c < all.len() && #[trigger] is_cl(all[c]);
            if c < hs.len() {
                assert(all[c] == hs[c]);
            }
        }
    }
}

} // verus!
