//! Cutting a stream of bytes into CRLF-terminated lines: the bytes of the line being
//! built, and what arrives with each byte.

use vstd::prelude::*;
use crate::codec::crlf_at;

verus! {

/// `s` ends in `\r\n`.
pub open spec fn ends_with_crlf(s: Seq<u8>) -> bool {
    s.len() >= 2 && s[s.len() - 2] == 13u8 && s[s.len() - 1] == 10u8
}

/// No `\r\n` occurs anywhere in `s`.
pub open spec fn has_no_crlf(s: Seq<u8>) -> bool {
    forall|j: int| !crlf_at(s, j)
}

/// The line being built; it never holds a complete line.
pub struct CrlfLineBuilder {
    build: Vec<u8>,
}

impl View for CrlfLineBuilder {
    type V = Seq<u8>;

    closed spec fn view(&self) -> Seq<u8> {
        self.build@
    }
}

impl CrlfLineBuilder {
    #[verifier::type_invariant]
    spec fn no_complete_line(self) -> bool {
        has_no_crlf(self.build@)
    }

    /// Nothing received yet.
    pub fn new() -> (r: Self)
        ensures
            r@ == Seq::<u8>::empty(),
            has_no_crlf(r@),
    {
        CrlfLineBuilder { build: Vec::new() }
    }

    /// Takes one received byte: when it completes a line (the bytes so far end in
    /// `\r\n`), that line comes back, `\r\n` included, and building starts afresh.
    pub fn push_byte(&mut self, byte: u8) -> (r: Option<Vec<u8>>)
        ensures
            has_no_crlf(old(self)@),
            has_no_crlf(final(self)@),
            ends_with_crlf(old(self)@.push(byte)) ==> final(self)@ == Seq::<u8>::empty() && (r
                matches Some(line) && line@ == old(self)@.push(byte)),
            !ends_with_crlf(old(self)@.push(byte)) ==> final(self)@ == old(self)@.push(byte)
                && r is None,
    {
        proof {
            use_type_invariant(&*self);
        }
        let ghost before = self.build@;
        let mut build: Vec<u8> = Vec::new();
        std::mem::swap(&mut build, &mut self.build);
        build.push(byte);
        let n = build.len();
        if n >= 2 && build[n - 2] == 13u8 && build[n - 1] == 10u8 {
            Some(build)
        } else {
            assert forall|j: int| !crlf_at(build@, j) by {
                if crlf_at(build@, j) && j + 2 < build@.len() {
                    assert(crlf_at(before, j));
                }
            }
            std::mem::swap(&mut build, &mut self.build);
            None
        }
    }
}

/// A line cut from the stream holds exactly one `\r\n`, the one it ends with.
pub proof fn lemma_line_has_one_crlf(before: Seq<u8>, byte: u8)
    requires
        has_no_crlf(before),
        ends_with_crlf(before.push(byte)),
    ensures
        forall|j: int| crlf_at(before.push(byte), j) <==> j == before.len() - 1,
{
    let line = before.push(byte);
    assert forall|j: int| crlf_at(line, j) <==> j == before.len() - 1 by {
        if crlf_at(line, j) && j != before.len() - 1 {
            assert(crlf_at(before, j));
        }
    }
}

/// The lines of `lines` written one after another.
pub open spec fn concat_lines(lines: Seq<Seq<u8>>) -> Seq<u8>
    decreases lines.len(),
{
    if lines.len() == 0 {
        Seq::empty()
    } else {
        concat_lines(lines.drop_last()) + lines.last()
    }
}

/// Feeding `bytes` one at a time to `push_byte` of a builder holding `build`: the
/// lines handed out, in order, and what the builder holds afterwards. Each step is
/// what `push_byte`'s `ensures` states.
pub open spec fn feed_bytes(build: Seq<u8>, bytes: Seq<u8>) -> (Seq<Seq<u8>>, Seq<u8>)
    decreases bytes.len(),
{
    if bytes.len() == 0 {
        (Seq::empty(), build)
    } else {
        let (lines, held) = feed_bytes(build, bytes.drop_last());
        let next = held.push(bytes.last());
        if ends_with_crlf(next) {
            (lines.push(next), Seq::empty())
        } else {
            (lines, next)
        }
    }
}

/// Whatever bytes are fed to a builder, nothing is lost or reordered: the lines handed
/// out followed by what the builder still holds are what it held followed by the
/// bytes fed. Every line ends in `\r\n` and holds no other `\r\n`, so it is the
/// shortest prefix of what was pending that ends in `\r\n`; and the builder never
/// holds a complete line.
pub proof fn law_lines_rebuild_the_bytes(build: Seq<u8>, bytes: Seq<u8>)
    requires
        has_no_crlf(build),
    ensures
        concat_lines(feed_bytes(build, bytes).0) + feed_bytes(build, bytes).1 == build + bytes,
        has_no_crlf(feed_bytes(build, bytes).1),
        forall|i: int|
            0 <= i < feed_bytes(build, bytes).0.len() ==> ends_with_crlf(
                #[trigger] feed_bytes(build, bytes).0[i],
            ) && forall|j: int|
                crlf_at(feed_bytes(build, bytes).0[i], j) ==> j == feed_bytes(build, bytes).0[i].len() - 2,
    decreases bytes.len(),
{
    if bytes.len() > 0 {
        let before = bytes.drop_last();
        law_lines_rebuild_the_bytes(build, before);
        let (lines, held) = feed_bytes(build, before);
        let byte = bytes.last();
        let next = held.push(byte);
        assert(build + bytes =~= (build + before).push(byte));
        if ends_with_crlf(next) {
            lemma_line_has_one_crlf(held, byte);
            let out = lines.push(next);
            assert(out.drop_last() =~= lines);
            assert(concat_lines(out) + Seq::<u8>::empty() =~= (concat_lines(lines) + held).push(byte));
            assert forall|i: int| 0 <= i < out.len() implies ends_with_crlf(#[trigger] out[i])
                && forall|j: int| crlf_at(out[i], j) ==> j == out[i].len() - 2 by {
                if i < lines.len() {
                    assert(out[i] == lines[i]);
                }
            }
        } else {
            assert forall|j: int| !crlf_at(next, j) by {
                if crlf_at(next, j) && j + 2 < next.len() {
                    assert(crlf_at(held, j));
                }
            }
            assert(concat_lines(lines) + next =~= (concat_lines(lines) + held).push(byte));
        }
    }
}

} // verus!
