//! Byte-level helpers shared by the decoders and encoders: ASCII text, comparison,
//! copying, and the splitting of a header line into space-delimited tokens.

use vstd::prelude::*;

verus! {

/// The bytes of an ASCII string literal.
pub open spec fn text(s: &str) -> Seq<u8> {
    s@.map_values(|c: char| c as u8)
}

/// The two bytes that end every line of the protocol.
pub open spec fn crlf() -> Seq<u8> {
    seq![13u8, 10u8]
}

/// Appends the bytes of an ASCII string to `out`.
pub fn push_text(out: &mut Vec<u8>, s: &str)
    requires
        vstd::string::is_ascii(s),
    ensures
        final(out)@ == old(out)@ + text(s),
{
    proof {
        vstd::string::is_ascii_spec_bytes(s);
    }
    let b = s.as_bytes();
    assert(b@ =~= text(s));
    out.extend_from_slice(b);
}

/// Appends `bytes` to `out`.
pub fn push_bytes(out: &mut Vec<u8>, bytes: &[u8])
    ensures
        final(out)@ == old(out)@ + bytes@,
{
    out.extend_from_slice(bytes);
}

/// A fresh vector holding `bytes`.
pub fn copy_bytes(bytes: &[u8]) -> (r: Vec<u8>)
    ensures
        r@ == bytes@,
{
    let mut v: Vec<u8> = Vec::new();
    v.extend_from_slice(bytes);
    assert(v@ =~= bytes@);
    v
}

/// Whether two byte strings are equal.
pub fn bytes_equal(a: &[u8], b: &[u8]) -> (r: bool)
    ensures
        r == (a@ == b@),
{
    if a.len() != b.len() {
        return false;
    }
    let mut i: usize = 0;
    while i < a.len()
        invariant
            a@.len() == b@.len(),
            i <= a@.len(),
            forall|j: int| 0 <= j < i ==> a@[j] == b@[j],
        decreases a.len() - i,
    {
        if a[i] != b[i] {
            return false;
        }
        i = i + 1;
    }
    assert(a@ =~= b@);
    true
}

/// Whether `bytes` spells the ASCII string `s`.
pub fn bytes_are_text(bytes: &[u8], s: &str) -> (r: bool)
    requires
        vstd::string::is_ascii(s),
    ensures
        r == (bytes@ == text(s)),
{
    proof {
        vstd::string::is_ascii_spec_bytes(s);
    }
    let t = s.as_bytes();
    assert(t@ =~= text(s));
    bytes_equal(bytes, t)
}

/// A byte that ends a token: a space, and when `cr` holds a carriage return too.
pub open spec fn is_delim(b: u8, cr: bool) -> bool {
    b == 32u8 || (cr && b == 13u8)
}

/// Where the token that `s` ends in begins: just after its last delimiter, or 0.
pub open spec fn token_start(s: Seq<u8>, cr: bool) -> int
    decreases s.len(),
{
    if s.len() == 0 {
        0
    } else if is_delim(s.last(), cr) {
        s.len() as int
    } else {
        token_start(s.drop_last(), cr)
    }
}

/// The tokens of `s` that a delimiter has closed, in order; what follows the last
/// delimiter is not among them.
pub open spec fn closed_tokens(s: Seq<u8>, cr: bool) -> Seq<Seq<u8>>
    decreases s.len(),
{
    if s.len() == 0 {
        Seq::empty()
    } else {
        let p = s.drop_last();
        if is_delim(s.last(), cr) {
            closed_tokens(p, cr).push(p.subrange(token_start(p, cr), p.len() as int))
        } else {
            closed_tokens(p, cr)
        }
    }
}

/// The pieces that `s` falls into at each space, the piece after the last space
/// included (empty pieces too), as `split(|b| *b == b' ')` yields them.
pub open spec fn split_on_spaces(s: Seq<u8>) -> Seq<Seq<u8>> {
    closed_tokens(s, false).push(s.subrange(token_start(s, false), s.len() as int))
}

pub proof fn lemma_token_start_bounds(s: Seq<u8>, cr: bool)
    ensures
        0 <= token_start(s, cr) <= s.len(),
    decreases s.len(),
{
    if s.len() > 0 {
        lemma_token_start_bounds(s.drop_last(), cr);
    }
}

/// A token as it can stand between delimiters: none of its bytes is a space or, when
/// `cr` holds, a carriage return.
pub open spec fn is_word(w: Seq<u8>, cr: bool) -> bool {
    forall|j: int| 0 <= j < w.len() ==> !is_delim(#[trigger] w[j], cr)
}

/// Reading a word after a delimiter (or at the start) closes no token, and the token
/// being read starts where the word does.
pub proof fn lemma_tokens_within_word(p: Seq<u8>, w: Seq<u8>, cr: bool)
    requires
        p.len() == 0 || is_delim(p.last(), cr),
        is_word(w, cr),
    ensures
        token_start(p + w, cr) == p.len(),
        closed_tokens(p + w, cr) == closed_tokens(p, cr),
    decreases w.len(),
{
    if w.len() == 0 {
        assert(p + w =~= p);
    } else {
        let q = p + w;
        assert(q.drop_last() =~= p + w.drop_last());
        assert(q.last() == w[w.len() - 1]);
        lemma_tokens_within_word(p, w.drop_last(), cr);
    }
}

/// A word followed by a delimiter adds that word to the closed tokens.
pub proof fn lemma_tokens_word_then_delim(p: Seq<u8>, w: Seq<u8>, d: u8, cr: bool)
    requires
        p.len() == 0 || is_delim(p.last(), cr),
        is_word(w, cr),
        is_delim(d, cr),
    ensures
        closed_tokens(p + w + seq![d], cr) == closed_tokens(p, cr).push(w),
{
    lemma_tokens_within_word(p, w, cr);
    let q = p + w;
    assert((q + seq![d]).drop_last() =~= q);
    assert(q.subrange(p.len() as int, q.len() as int) =~= w);
}

/// Splits `line` at every space, as `split(|b| *b == b' ')` does.
pub fn split_spaces(line: &[u8]) -> (parts: Vec<Vec<u8>>)
    ensures
        parts@.len() == split_on_spaces(line@).len(),
        forall|i: int| 0 <= i < parts@.len() ==> #[trigger] parts@[i]@ == split_on_spaces(line@)[i],
{
    let mut parts: Vec<Vec<u8>> = Vec::new();
    let mut start: usize = 0;
    let mut cursor: usize = 0;
    while cursor < line.len()
        invariant
            cursor <= line@.len(),
            start == token_start(line@.take(cursor as int), false),
            parts@.len() == closed_tokens(line@.take(cursor as int), false).len(),
            forall|i: int|
                0 <= i < parts@.len() ==> #[trigger] parts@[i]@ == closed_tokens(
                    line@.take(cursor as int),
                    false,
                )[i],
        decreases line.len() - cursor,
    {
        proof {
            lemma_token_start_bounds(line@.take(cursor as int), false);
        }
        let ghost before = line@.take(cursor as int);
        let ghost after = line@.take(cursor + 1);
        assert(after.drop_last() =~= before);
        assert(after.last() == line@[cursor as int]);
        if line[cursor] == 32u8 {
            let piece = copy_bytes(&line[start..cursor]);
            assert(piece@ =~= before.subrange(start as int, before.len() as int));
            parts.push(piece);
            start = cursor + 1;
        }
        cursor = cursor + 1;
    }
    proof {
        lemma_token_start_bounds(line@, false);
    }
    assert(line@.take(cursor as int) =~= line@);
    let last = copy_bytes(&line[start..line.len()]);
    parts.push(last);
    parts
}

} // verus!
