//! Recognition of the header names and header tokens that decide how a
//! message is framed.
//!
//! Header names compare ASCII case-insensitively. Token values compare
//! ASCII case-insensitively after the surrounding whitespace is trimmed.
use vstd::prelude::*;
use vstd::string::StringSliceAdditionalSpecFns;

verus! {

broadcast use vstd::string::is_ascii_spec_bytes;

/// ASCII lower-casing of one byte.
pub open spec fn lower(c: u8) -> u8 {
    if 65 <= c && c <= 90 {
        (c + 32) as u8
    } else {
        c
    }
}

/// Whitespace that may surround a header token.
pub open spec fn is_ws(c: u8) -> bool {
    c == 13 || c == 10 || c == 32 || c == 9
}

pub open spec fn all_ws(s: Seq<u8>) -> bool {
    forall|i: int| 0 <= i < s.len() ==> is_ws(#[trigger] s[i])
}

/// `s` equals the lower-case word `word` up to ASCII case.
pub open spec fn same_letters(s: Seq<u8>, word: Seq<u8>) -> bool {
    s.len() == word.len() && forall|i: int| 0 <= i < s.len() ==> lower(#[trigger] s[i]) == word[i]
}

/// `v` is `word`, up to ASCII case, with only whitespace before and after it.
pub open spec fn token_is(v: Seq<u8>, word: Seq<u8>) -> bool {
    exists|a: int|
        0 <= a && a + word.len() <= v.len() && #[trigger] all_ws(v.subrange(0, a)) && all_ws(
            v.subrange(a + word.len(), v.len() as int),
        ) && same_letters(v.subrange(a, a + word.len()), word)
}

pub open spec fn transfer_encoding_word() -> Seq<u8> {
    "transfer-encoding".spec_bytes()
}

pub open spec fn content_length_word() -> Seq<u8> {
    "content-length".spec_bytes()
}

pub open spec fn connection_word() -> Seq<u8> {
    "connection".spec_bytes()
}

pub open spec fn expect_word() -> Seq<u8> {
    "expect".spec_bytes()
}

pub open spec fn close_word() -> Seq<u8> {
    "close".spec_bytes()
}

pub open spec fn chunked_word() -> Seq<u8> {
    "chunked".spec_bytes()
}

pub open spec fn continue_word() -> Seq<u8> {
    "100-continue".spec_bytes()
}

/// A lower-case word with no whitespace at either end.
pub open spec fn is_plain_word(word: Seq<u8>) -> bool {
    word.len() > 0 && !is_ws(word[0]) && !is_ws(word[word.len() - 1]) && forall|i: int|
        0 <= i < word.len() ==> lower(#[trigger] word[i]) == word[i]
}

pub(crate) fn same_letters_exec(s: &[u8], word: &[u8]) -> (r: bool)
    ensures
        r == same_letters(s@, word@),
{
    if s.len() != word.len() {
        return false;
    }
    let mut i: usize = 0;
    while i < s.len()
        invariant
            s@.len() == word@.len(),
            0 <= i <= s@.len(),
            forall|j: int| 0 <= j < i ==> lower(#[trigger] s@[j]) == word@[j],
        decreases s@.len() - i,
    {
        let c = s[i];
        let l: u8 = if 65 <= c && c <= 90 {
            c + 32
        } else {
            c
        };
        if l != word[i] {
            return false;
        }
        i = i + 1;
    }
    true
}

fn is_ws_exec(c: u8) -> (r: bool)
    ensures
        r == is_ws(c),
{
    c == 13 || c == 10 || c == 32 || c == 9
}

/// Whether `v` is `word` up to case, with only whitespace around it.
pub(crate) fn token_is_exec(v: &[u8], word: &[u8]) -> (r: bool)
    requires
        is_plain_word(word@),
    ensures
        r == token_is(v@, word@),
{
    let n = v.len();
    let mut a: usize = 0;
    while a < n && is_ws_exec(v[a])
        invariant
            0 <= a <= n,
            n == v@.len(),
            forall|j: int| 0 <= j < a ==> is_ws(#[trigger] v@[j]),
        decreases n - a,
    {
        a = a + 1;
    }
    assert(all_ws(v@.subrange(0, a as int)));
    if a > n || word.len() > n - a {
        proof {
            lemma_token_start(v@, word@, a as int);
        }
        return false;
    }
    let end = a + word.len();
    let ok = same_letters_exec(&v[a..end], word);
    let mut b: usize = end;
    let mut tail_ok = true;
    while b < n
        invariant
            end <= b <= n,
            n == v@.len(),
            tail_ok == (forall|j: int| end <= j < b ==> is_ws(#[trigger] v@[j])),
        decreases n - b,
    {
        if !is_ws_exec(v[b]) {
            tail_ok = false;
        }
        b = b + 1;
    }
    proof {
        lemma_token_start(v@, word@, a as int);
        if tail_ok && ok {
            assert(v@.subrange(a as int, end as int) == v@.subrange(a as int, a + word@.len()));
            assert(all_ws(v@.subrange(end as int, n as int)));
        }
        if !tail_ok {
            let j = choose|j: int| end <= j < n && !is_ws(#[trigger] v@[j]);
            assert(v@.subrange(end as int, n as int)[j - end] == v@[j]);
        }
    }
    ok && tail_ok
}

/// Any start of `word` inside `v` with only whitespace before it is the
/// first byte of `v` that is not whitespace.
proof fn lemma_token_start(v: Seq<u8>, word: Seq<u8>, a: int)
    requires
        is_plain_word(word),
        0 <= a <= v.len(),
        all_ws(v.subrange(0, a)),
        a < v.len() ==> !is_ws(v[a]),
    ensures
        forall|b: int|
            0 <= b && b + word.len() <= v.len() && #[trigger] all_ws(v.subrange(0, b))
                && same_letters(v.subrange(b, b + word.len()), word) ==> b == a,
{
    assert forall|b: int|
        0 <= b && b + word.len() <= v.len() && #[trigger] all_ws(v.subrange(0, b))
            && same_letters(v.subrange(b, b + word.len()), word) implies b == a by {
        assert(v.subrange(b, b + word.len())[0] == v[b]);
        assert(lower(v[b]) == word[0]);
        assert(!is_ws(v[b]));
        if b < a {
            assert(v.subrange(0, a)[b] == v[b]);
        }
        if a < b {
            assert(v.subrange(0, b)[a] == v[a]);
        }
    }
}

/// The header name `Transfer-Encoding`, in any case.
pub fn is_transfer_encoding(val: &str) -> (r: bool)
    ensures
        r == same_letters(val.spec_bytes(), transfer_encoding_word()),
{
    same_letters_exec(val.as_bytes(), "transfer-encoding".as_bytes())
}

/// The header name `Content-Length`, in any case.
pub fn is_content_length(val: &str) -> (r: bool)
    ensures
        r == same_letters(val.spec_bytes(), content_length_word()),
{
    same_letters_exec(val.as_bytes(), "content-length".as_bytes())
}

/// The header name `Connection`, in any case.
pub fn is_connection(val: &str) -> (r: bool)
    ensures
        r == same_letters(val.spec_bytes(), connection_word()),
{
    same_letters_exec(val.as_bytes(), "connection".as_bytes())
}

/// The header name `Expect`, in any case.
pub fn is_expect(val: &str) -> (r: bool)
    ensures
        r == same_letters(val.spec_bytes(), expect_word()),
{
    same_letters_exec(val.as_bytes(), "expect".as_bytes())
}

/// The token `close`, in any case, surrounded by whitespace only.
pub fn is_close(val: &[u8]) -> (r: bool)
    ensures
        r == token_is(val@, close_word()),
{
    proof {
        reveal_strlit("close");
        assert(vstd::string::is_ascii("close"));
        assert("close".spec_bytes() =~= seq![99u8, 108, 111, 115, 101]);
    }
    token_is_exec(val, "close".as_bytes())
}

/// The token `chunked`, in any case, surrounded by whitespace only.
pub fn is_chunked(val: &[u8]) -> (r: bool)
    ensures
        r == token_is(val@, chunked_word()),
{
    proof {
        reveal_strlit("chunked");
        assert(vstd::string::is_ascii("chunked"));
        assert("chunked".spec_bytes() =~= seq![99u8, 104, 117, 110, 107, 101, 100]);
    }
    token_is_exec(val, "chunked".as_bytes())
}

/// The token `100-continue`, in any case, surrounded by whitespace only.
pub fn is_continue(val: &[u8]) -> (r: bool)
    ensures
        r == token_is(val@, continue_word()),
{
    proof {
        reveal_strlit("100-continue");
        assert(vstd::string::is_ascii("100-continue"));
        assert("100-continue".spec_bytes() =~= seq![49u8, 48, 48, 45, 99, 111, 110, 116, 105, 110, 117, 101]);
    }
    token_is_exec(val, "100-continue".as_bytes())
}

} // verus!
