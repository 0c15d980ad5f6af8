//! The codec of the framed transport: it cuts requests out of the bytes received
//! (`GET <key>\r\n`, or `SET <key> <flags> <exptime> <bytes>\r\n` followed by the data
//! and `\r\n`) and writes replies as lines.

use vstd::prelude::*;
#[allow(deprecated)]
use tokio_core::io::EasyBuf;
use crate::bytes::{text, crlf, bytes_are_text, copy_bytes, closed_tokens, token_start,
    lemma_token_start_bounds, push_bytes, push_text, is_word, lemma_tokens_word_then_delim};
use crate::decimal::{parse_decimal, parse_unsigned, decimal_encoding, lemma_decimal_round_trip};
use crate::easybuf::{easybuf_bytes, buf_as_slice, buf_drain_to};
use crate::memcached::types::{Command, Key, Reply, Request, RequestView, reply_text};

verus! {

/// Reads a header field as the decimal byte count of a `SET`; anything that is not a
/// decimal number fitting a `u64` gives no count.
fn parse_bytes(expected_to_be_a_byte_count: &[u8]) -> (r: Option<u64>)
    ensures
        r == byte_count_of(expected_to_be_a_byte_count@),
{
    match parse_decimal(expected_to_be_a_byte_count, u64::MAX) {
        Ok(v) => Some(v),
        Err(_) => None,
    }
}

/// The byte count that a header field spells, if it is a decimal number that fits a
/// `u64`.
pub open spec fn byte_count_of(field: Seq<u8>) -> Option<u64> {
    match parse_unsigned(field, u64::MAX as nat) {
        Ok(v) => Some(v as u64),
        Err(_) => None,
    }
}

/// Where the codec stands between calls.
#[derive(Clone, Copy, Debug, PartialEq, Eq)]
pub enum CodecState {
    /// The next bytes are a request line.
    AwaitingHeader,
    /// A `SET` line was read and its data is awaited.
    ReadingBody,
    /// A request line was refused; every later call fails.
    Error,
}

/// Why decoding failed.
#[derive(Clone, Copy, Debug, PartialEq, Eq)]
pub enum CodecError {
    /// A request line named no known command or no key, now or earlier.
    InErrorState,
    /// A `SET` line carried no valid byte count.
    InvalidByteCount,
}

impl CodecError {
    /// The message that describes the error.
    pub fn description(&self) -> (r: &'static str)
        ensures
            r == codec_error_description(*self),
    {
        match self {
            CodecError::InErrorState => "Codec is in error state",
            CodecError::InvalidByteCount => "didn't get a valid byte count with a set request",
        }
    }
}

pub open spec fn codec_error_description(e: CodecError) -> &'static str {
    match e {
        CodecError::InErrorState => "Codec is in error state",
        CodecError::InvalidByteCount => "didn't get a valid byte count with a set request",
    }
}

/// The request codec: its state, and while a `SET`'s data is awaited, that request and
/// the number of data bytes.
pub struct MemcachedCodec {
    state: CodecState,
    partial: Option<Request>,
    bytes_to_read: Option<u64>,
}

/// What the codec holds, as plain values.
pub struct CodecView {
    pub state: CodecState,
    pub partial: Option<RequestView>,
    pub bytes_to_read: Option<u64>,
}

impl View for MemcachedCodec {
    type V = CodecView;

    closed spec fn view(&self) -> CodecView {
        CodecView {
            state: self.state,
            partial: match self.partial {
                Some(r) => Some(r@),
                None => None,
            },
            bytes_to_read: self.bytes_to_read,
        }
    }
}

/// A `\r\n` starts at `i`.
pub open spec fn crlf_at(buf: Seq<u8>, i: int) -> bool {
    0 <= i && i + 1 < buf.len() && buf[i] == 13u8 && buf[i + 1] == 10u8
}

/// `i` is where the first `\r\n` of `buf` starts.
pub open spec fn is_first_crlf(buf: Seq<u8>, i: int) -> bool {
    crlf_at(buf, i) && forall|j: int| 0 <= j < i ==> !crlf_at(buf, j)
}

/// Where the first `\r\n` of `buf` starts, if it holds one.
pub open spec fn first_crlf(buf: Seq<u8>) -> Option<int> {
    if exists|i: int| is_first_crlf(buf, i) {
        Some(choose|i: int| is_first_crlf(buf, i))
    } else {
        None
    }
}

/// The command that the first token of a request line names.
pub open spec fn header_command(tokens: Seq<Seq<u8>>) -> Option<Command> {
    if tokens.len() >= 1 {
        if tokens[0] == text("GET") {
            Some(Command::Get)
        } else if tokens[0] == text("SET") {
            Some(Command::SetValue)
        } else {
            None
        }
    } else {
        None
    }
}

/// The key, the second token of a request line.
pub open spec fn header_key(tokens: Seq<Seq<u8>>) -> Option<Seq<u8>> {
    if tokens.len() >= 2 {
        Some(tokens[1])
    } else {
        None
    }
}

/// The byte count, the fifth token of a request line.
pub open spec fn header_count(tokens: Seq<Seq<u8>>) -> Option<u64> {
    if tokens.len() >= 5 {
        byte_count_of(tokens[4])
    } else {
        None
    }
}

/// The tokens of a request line: the line up to and including its `\r`, cut at every
/// space and at the `\r`.
pub open spec fn line_tokens(buf: Seq<u8>, i: int) -> Seq<Seq<u8>> {
    closed_tokens(buf.take(i + 1), true)
}

/// One call of `decode` on a codec holding `c` and a buffer holding `buf`: the codec
/// afterwards, what is left in the buffer, and what `decode` answers.
pub open spec fn decode_spec(c: CodecView, buf: Seq<u8>) -> (CodecView, Seq<u8>, Result<
    Option<RequestView>,
    CodecError,
>) {
    match c.state {
        CodecState::Error => (c, buf, Err(CodecError::InErrorState)),
        CodecState::AwaitingHeader => match first_crlf(buf) {
            None => (c, buf, Ok(None)),
            Some(i) => {
                let tokens = line_tokens(buf, i);
                let rest = buf.skip(i + 2);
                match (header_command(tokens), header_key(tokens)) {
                    (Some(Command::Get), Some(key)) => (
                        c,
                        rest,
                        Ok(Some(RequestView { command: Command::Get, key, body: None })),
                    ),
                    (Some(Command::SetValue), Some(key)) => match header_count(tokens) {
                        Some(n) => (
                            CodecView {
                                state: CodecState::ReadingBody,
                                partial: Some(
                                    RequestView { command: Command::SetValue, key, body: None },
                                ),
                                bytes_to_read: Some(n),
                            },
                            rest,
                            Ok(None),
                        ),
                        None => (c, rest, Err(CodecError::InvalidByteCount)),
                    },
                    _ => (CodecView { state: CodecState::Error, ..c }, rest, Err(CodecError::InErrorState)),
                }
            },
        },
        CodecState::ReadingBody => {
            let n = c.bytes_to_read.unwrap() as usize;
            if buf.len() >= n {
                (
                    CodecView { state: CodecState::AwaitingHeader, partial: None, ..c },
                    buf.skip(n + 2),
                    Ok(Some(RequestView { body: Some(buf.take(n as int)), ..c.partial.unwrap() })),
                )
            } else {
                (c, buf, Ok(None))
            }
        },
    }
}

/// `decode` can take `buf` in state `c`: when a `SET`'s data has arrived, the `\r\n`
/// behind it has too.
pub open spec fn decode_accepts(c: CodecView, buf: Seq<u8>) -> bool {
    c.state == CodecState::ReadingBody ==> match c.bytes_to_read {
        Some(n) => buf.len() >= n as usize ==> buf.len() >= (n as usize) + 2,
        None => true,
    }
}

/// A codec awaiting a `SET`'s data knows that request and its byte count.
pub open spec fn codec_consistent(c: CodecView) -> bool {
    c.state == CodecState::ReadingBody ==> c.partial is Some && c.bytes_to_read is Some
}

pub open spec fn request_result_view(r: Result<Option<Request>, CodecError>) -> Result<
    Option<RequestView>,
    CodecError,
> {
    match r {
        Ok(Some(req)) => Ok(Some(req@)),
        Ok(None) => Ok(None),
        Err(e) => Err(e),
    }
}

/// Finds where the first `\r\n` of `bytes` starts.
fn find_crlf(bytes: &[u8]) -> (r: Option<usize>)
    ensures
        r == match first_crlf(bytes@) {
            Some(i) => Some(i as usize),
            None => None::<usize>,
        },
        r matches Some(i) ==> is_first_crlf(bytes@, i as int),
{
    let mut i: usize = 0;
    while bytes.len() >= 2 && i < bytes.len() - 1
        invariant
            i <= bytes@.len(),
            forall|j: int| 0 <= j < i ==> !crlf_at(bytes@, j),
        decreases bytes.len() - i,
    {
        if bytes[i] == 13u8 && bytes[i + 1] == 10u8 {
            assert(is_first_crlf(bytes@, i as int));
            let ghost k = choose|k: int| is_first_crlf(bytes@, k);
            assert(k == i) by {
                if k < i {
                    assert(!crlf_at(bytes@, k));
                }
                if (i as int) < k {
                    assert(!crlf_at(bytes@, i as int));
                }
            }
            return Some(i);
        }
        i = i + 1;
    }
    assert forall|k: int| !is_first_crlf(bytes@, k) by {
        if is_first_crlf(bytes@, k) {
            assert(crlf_at(bytes@, k));
        }
    }
    None
}

proof fn lemma_tokens_step(line: Seq<u8>, cursor: int)
    requires
        0 <= cursor < line.len(),
    ensures
        closed_tokens(line.take(cursor + 1), true) == if crate::bytes::is_delim(line[cursor], true) {
            closed_tokens(line.take(cursor), true).push(
                line.subrange(token_start(line.take(cursor), true), cursor),
            )
        } else {
            closed_tokens(line.take(cursor), true)
        },
        token_start(line.take(cursor + 1), true) == if crate::bytes::is_delim(line[cursor], true) {
            cursor + 1
        } else {
            token_start(line.take(cursor), true)
        },
{
    let after = line.take(cursor + 1);
    assert(after.drop_last() =~= line.take(cursor));
    lemma_token_start_bounds(line.take(cursor), true);
    assert(line.take(cursor).subrange(token_start(line.take(cursor), true), cursor) =~= line.subrange(
        token_start(line.take(cursor), true),
        cursor,
    ));
}

/// When `buf` holds a `\r\n` at `i` and no `\r` before it, that is its first one.
proof fn lemma_first_crlf_is(buf: Seq<u8>, i: int)
    requires
        crlf_at(buf, i),
        forall|j: int| 0 <= j < i ==> buf[j] != 13u8,
    ensures
        first_crlf(buf) == Some(i),
{
    assert(is_first_crlf(buf, i));
    let k = choose|k: int| is_first_crlf(buf, k);
    assert(k == i) by {
        if k < i {
            assert(buf[k] != 13u8);
        }
        if i < k {
            assert(!crlf_at(buf, i));
        }
    }
}

/// A request line `GET <key>\r\n` at the front of the buffer is decoded into a get of
/// that key, and exactly that line leaves the buffer; the codec stays as it was. Any
/// key without spaces and carriage returns can be asked for this way.
pub proof fn law_decode_get_line(c: CodecView, key: Seq<u8>, more: Seq<u8>)
    requires
        c.state == CodecState::AwaitingHeader,
        is_word(key, true),
    ensures
        decode_spec(c, text("GET ") + key + crlf() + more) == (
            c,
            more,
            Ok::<Option<RequestView>, CodecError>(
                Some(RequestView { command: Command::Get, key, body: None }),
            ),
        ),
{
    reveal_strlit("GET ");
    reveal_strlit("GET");
    let get = text("GET");
    assert(text("GET ") =~= get + seq![32u8]);
    let buf = text("GET ") + key + crlf() + more;
    let i: int = 4 + key.len() as int;
    assert forall|j: int| 0 <= j < i implies buf[j] != 13u8 by {
        if j >= 4 {
            assert(buf[j] == key[j - 4]);
        }
    }
    assert(crlf_at(buf, i));
    lemma_first_crlf_is(buf, i);
    let empty = Seq::<u8>::empty();
    assert(is_word(get, true));
    lemma_tokens_word_then_delim(empty, get, 32u8, true);
    let l1 = empty + get + seq![32u8];
    lemma_tokens_word_then_delim(l1, key, 13u8, true);
    assert(buf.take(i + 1) =~= l1 + key + seq![13u8]);
    assert(closed_tokens(empty, true) =~= Seq::<Seq<u8>>::empty());
    let tokens = line_tokens(buf, i);
    assert(tokens =~= seq![get, key]);
    assert(buf.skip(i + 2) =~= more);
}

/// No carriage return occurs in `s`.
spec fn has_no_cr(s: Seq<u8>) -> bool {
    forall|j: int| 0 <= j < s.len() ==> s[j] != 13u8
}

proof fn lemma_no_cr_extend(p: Seq<u8>, w: Seq<u8>, d: u8)
    requires
        has_no_cr(p),
        is_word(w, true),
        d != 13u8,
    ensures
        has_no_cr(p + w + seq![d]),
{
    let q = p + w + seq![d];
    assert forall|j: int| 0 <= j < q.len() implies q[j] != 13u8 by {
        if j < p.len() {
        } else if j < p.len() + w.len() {
            assert(q[j] == w[j - p.len()]);
        }
    }
}

/// A `SET <key> <flags> <exptime> <count>\r\n` line whose count spells `n`, followed by
/// `n` bytes of data and `\r\n`, is decoded in two calls: the first takes the line and
/// waits for the data, the second takes the data and its line end and yields the `set`
/// of the key to the data. Nothing else leaves the buffer.
pub proof fn law_decode_set_request(
    c: CodecView,
    key: Seq<u8>,
    flags: Seq<u8>,
    exptime: Seq<u8>,
    count: Seq<u8>,
    n: u64,
    body: Seq<u8>,
    more: Seq<u8>,
)
    requires
        c.state == CodecState::AwaitingHeader,
        is_word(key, true),
        is_word(flags, true),
        is_word(exptime, true),
        is_word(count, true),
        byte_count_of(count) == Some(n),
        body.len() == n,
        n <= usize::MAX,
    ensures
        ({
            let buf = text("SET ") + key + text(" ") + flags + text(" ") + exptime + text(" ")
                + count + crlf() + body + crlf() + more;
            let first = decode_spec(c, buf);
            let waiting = CodecView {
                state: CodecState::ReadingBody,
                partial: Some(RequestView { command: Command::SetValue, key, body: None }),
                bytes_to_read: Some(n),
            };
            &&& first == (waiting, body + crlf() + more, Ok::<Option<RequestView>, CodecError>(None))
            &&& decode_accepts(waiting, body + crlf() + more)
            &&& decode_spec(waiting, body + crlf() + more) == (
                CodecView { state: CodecState::AwaitingHeader, partial: None, bytes_to_read: Some(n) },
                more,
                Ok::<Option<RequestView>, CodecError>(
                    Some(RequestView { command: Command::SetValue, key, body: Some(body) }),
                ),
            )
        }),
{
    reveal_strlit("SET ");
    reveal_strlit("SET");
    reveal_strlit("GET");
    reveal_strlit(" ");
    assert(text("GET")[0] != text("SET")[0]);
    let set = text("SET");
    let sp = text(" ");
    assert(text("SET ") =~= set + seq![32u8]);
    assert(sp =~= seq![32u8]);
    let empty = Seq::<u8>::empty();
    let l1 = empty + set + seq![32u8];
    let l2 = l1 + key + seq![32u8];
    let l3 = l2 + flags + seq![32u8];
    let l4 = l3 + exptime + seq![32u8];
    let l5 = l4 + count + seq![13u8];
    assert(is_word(set, true));
    lemma_tokens_word_then_delim(empty, set, 32u8, true);
    lemma_tokens_word_then_delim(l1, key, 32u8, true);
    lemma_tokens_word_then_delim(l2, flags, 32u8, true);
    lemma_tokens_word_then_delim(l3, exptime, 32u8, true);
    lemma_tokens_word_then_delim(l4, count, 13u8, true);
    assert(closed_tokens(empty, true) =~= Seq::<Seq<u8>>::empty());
    let tail = body + crlf() + more;
    let buf = text("SET ") + key + text(" ") + flags + text(" ") + exptime + text(" ") + count
        + crlf() + body + crlf() + more;
    assert(buf =~= l5 + seq![10u8] + tail);
    let i: int = l5.len() - 1;
    lemma_no_cr_extend(empty, set, 32u8);
    lemma_no_cr_extend(l1, key, 32u8);
    lemma_no_cr_extend(l2, flags, 32u8);
    lemma_no_cr_extend(l3, exptime, 32u8);
    lemma_no_cr_extend(l4, count, 32u8);
    assert forall|j: int| 0 <= j < i implies buf[j] != 13u8 by {
        assert(buf[j] == (l4 + count + seq![32u8])[j]);
    }
    assert(crlf_at(buf, i));
    lemma_first_crlf_is(buf, i);
    assert(buf.take(i + 1) =~= l5);
    assert(line_tokens(buf, i) =~= seq![set, key, flags, exptime, count]);
    assert(buf.skip(i + 2) =~= tail);
    assert(tail.take(n as int) =~= body);
    assert(tail.skip(n + 2) =~= more);
    let tokens = line_tokens(buf, i);
    assert(header_command(tokens) == Some(Command::SetValue));
    assert(header_key(tokens) == Some(key));
    assert(header_count(tokens) == Some(n));
    let waiting = CodecView {
        state: CodecState::ReadingBody,
        partial: Some(RequestView { command: Command::SetValue, key, body: None }),
        bytes_to_read: Some(n),
    };
    assert(decode_spec(c, buf) == (waiting, tail, Ok::<Option<RequestView>, CodecError>(None)));
    assert(decode_accepts(waiting, tail));
    assert(n as usize == n);
}

/// Once a request line has been refused, every later call is refused and the buffer
/// is left as it is.
pub proof fn law_codec_error_is_final(c: CodecView, buf: Seq<u8>)
    requires
        c.state == CodecState::Error,
    ensures
        decode_spec(c, buf) == (c, buf, Err::<Option<RequestView>, CodecError>(CodecError::InErrorState)),
{
}

/// Decoding only ever takes bytes off the front of the buffer: what is left is the
/// buffer without some prefix of it.
pub proof fn law_decode_takes_a_prefix(c: CodecView, buf: Seq<u8>)
    requires
        codec_consistent(c),
        decode_accepts(c, buf),
    ensures
        decode_spec(c, buf).1.len() <= buf.len(),
        decode_spec(c, buf).1 == buf.skip(buf.len() - decode_spec(c, buf).1.len()),
{
    let rest = decode_spec(c, buf).1;
    match c.state {
        CodecState::Error => {
            assert(buf.skip(0) =~= buf);
        },
        CodecState::AwaitingHeader => {
            match first_crlf(buf) {
                None => {
                    assert(buf.skip(0) =~= buf);
                },
                Some(i) => {
                    assert(is_first_crlf(buf, i));
                    assert(rest =~= buf.skip(buf.len() - rest.len()));
                },
            }
        },
        CodecState::ReadingBody => {
            let n = c.bytes_to_read.unwrap() as usize;
            if buf.len() >= n {
                assert(rest =~= buf.skip(buf.len() - rest.len()));
            } else {
                assert(buf.skip(0) =~= buf);
            }
        },
    }
}

/// Decoding keeps a codec consistent: whenever it awaits a `SET`'s data, it holds
/// that request and its byte count. With `new`, this covers every codec built by
/// `new` and any number of `decode` calls.
pub proof fn law_decode_keeps_codec_consistent(c: CodecView, buf: Seq<u8>)
    requires
        codec_consistent(c),
    ensures
        codec_consistent(decode_spec(c, buf).0),
{
}

impl MemcachedCodec {
    #[verifier::type_invariant]
    spec fn well_formed(self) -> bool {
        self.state == CodecState::ReadingBody ==> self.partial is Some && self.bytes_to_read is Some
    }

    /// A codec awaiting its first request line.
    pub fn new() -> (r: Self)
        ensures
            r@ == (CodecView { state: CodecState::AwaitingHeader, partial: None, bytes_to_read: None }),
    {
        MemcachedCodec { state: CodecState::AwaitingHeader, bytes_to_read: None, partial: None }
    }

    fn handle_error(&mut self) -> (r: Result<Option<Request>, CodecError>)
        ensures
            final(self)@ == (CodecView { state: CodecState::Error, ..old(self)@ }),
            r == Err::<Option<Request>, CodecError>(CodecError::InErrorState),
    {
        self.state = CodecState::Error;
        Err(CodecError::InErrorState)
    }

    /// Reads a request line, when a whole one has arrived.
    fn read_header(&mut self, buf: &mut EasyBuf) -> (r: Result<Option<Request>, CodecError>)
        requires
            old(self)@.state == CodecState::AwaitingHeader,
        ensures
            (final(self)@, easybuf_bytes(*final(buf)), request_result_view(r)) == decode_spec(
                old(self)@,
                easybuf_bytes(*old(buf)),
            ),
    {
        let ghost contents = easybuf_bytes(*buf);
        let received = buf_as_slice(buf);
        let total: usize = received.len();
        assert(total == contents.len());
        let found = find_crlf(received);
        match found {
            Some(i) => {
                assert(crlf_at(contents, i as int));
                let line_len: usize = i + 1;
                let line = buf_drain_to(buf, line_len);
                // take the \r\n off
                let _ = buf_drain_to(buf, 1);
                assert(easybuf_bytes(*buf) =~= contents.skip(i + 2));
                let line_bytes = buf_as_slice(&line);
                let ghost tokens = line_tokens(contents, i as int);
                assert(line_bytes@ =~= contents.take(i + 1));

                let mut space_index: usize = 0;
                let mut spaces_encountered: usize = 0;
                let mut command: Option<Command> = None;
                let mut key: Option<Key> = None;
                let mut bytes_to_read: Option<u64> = None;
                let mut cursor: usize = 0;
                assert(line_bytes@.take(0) =~= Seq::<u8>::empty());
                while cursor < line_len
                    invariant
                        line_bytes@ == contents.take(i + 1),
                        line_bytes@.len() == i + 1,
                        cursor <= i + 1,
                        line_len == i + 1,
                        spaces_encountered <= cursor,
                        space_index == token_start(line_bytes@.take(cursor as int), true),
                        spaces_encountered == closed_tokens(line_bytes@.take(cursor as int), true).len(),
                        command == header_command(closed_tokens(line_bytes@.take(cursor as int), true)),
                        match key {
                            Some(k) => header_key(closed_tokens(line_bytes@.take(cursor as int), true)) == Some(k@),
                            None => header_key(closed_tokens(line_bytes@.take(cursor as int), true)) is None,
                        },
                        bytes_to_read == header_count(closed_tokens(line_bytes@.take(cursor as int), true)),
                    decreases line_len - cursor,
                {
                    let ghost before = closed_tokens(line_bytes@.take(cursor as int), true);
                    proof {
                        lemma_tokens_step(line_bytes@, cursor as int);
                        lemma_token_start_bounds(line_bytes@.take(cursor as int), true);
                    }
                    let next_to_consider = line_bytes[cursor];
                    if next_to_consider == 32u8 || next_to_consider == 13u8 {
                        let part = &line_bytes[space_index..cursor];
                        let ghost after = before.push(part@);
                        assert(after == closed_tokens(line_bytes@.take(cursor + 1), true));
                        if spaces_encountered == 0 {
                            proof {
                                reveal_strlit("GET");
                                reveal_strlit("SET");
                            }
                            if bytes_are_text(part, "GET") {
                                command = Some(Command::Get);
                            } else if bytes_are_text(part, "SET") {
                                command = Some(Command::SetValue);
                            }
                        } else if spaces_encountered == 1 {
                            key = Some(Key(copy_bytes(part)));
                        } else if spaces_encountered == 4 {
                            bytes_to_read = parse_bytes(part);
                        }
                        assert(after.len() >= 1 ==> after[0] == if before.len() >= 1 { before[0] } else { part@ });
                        assert(after.len() >= 2 ==> after[1] == if before.len() >= 2 { before[1] } else { part@ });
                        assert(after.len() >= 5 ==> after[4] == if before.len() >= 5 { before[4] } else { part@ });
                        spaces_encountered = spaces_encountered + 1;
                        space_index = cursor + 1;
                    }
                    cursor = cursor + 1;
                }
                assert(line_bytes@.take(cursor as int) =~= line_bytes@);
                assert(contents.take(i + 1) =~= contents.take(i as int + 1));
                match (command, key) {
                    // TODO: pass through spaces encountered here to validate it's the right number
                    // for the passed command
                    (Some(command), Some(key)) => self.consume_header(command, key, bytes_to_read),
                    _ => self.handle_error(),
                }
            },
            None => Ok(None),
        }
    }

    fn consume_header(&mut self, command: Command, key: Key, bytes_to_read: Option<u64>) -> (r: Result<
        Option<Request>,
        CodecError,
    >)
        requires
            old(self)@.state == CodecState::AwaitingHeader,
        ensures
            command == Command::Get ==> final(self)@ == old(self)@ && request_result_view(r) == Ok::<
                Option<RequestView>,
                CodecError,
            >(Some(RequestView { command: Command::Get, key: key@, body: None })),
            command == Command::SetValue ==> match bytes_to_read {
                Some(n) => final(self)@ == (CodecView {
                    state: CodecState::ReadingBody,
                    partial: Some(RequestView { command: Command::SetValue, key: key@, body: None }),
                    bytes_to_read: Some(n),
                }) && request_result_view(r) == Ok::<Option<RequestView>, CodecError>(None),
                None => final(self)@ == old(self)@ && request_result_view(r) == Err::<
                    Option<RequestView>,
                    CodecError,
                >(CodecError::InvalidByteCount),
            },
    {
        match command {
            Command::Get => { Ok(Some(Request::new(Command::Get, key))) },
            Command::SetValue => {
                match bytes_to_read {
                    Some(count) => {
                        *self = MemcachedCodec {
                            state: CodecState::ReadingBody,
                            bytes_to_read: Some(count),
                            partial: Some(Request::new(Command::SetValue, key)),
                        };
                        Ok(None)
                    },
                    None => { Err(CodecError::InvalidByteCount) },
                }
            },
        }
    }

    /// Takes the data of a `SET`, when all of it and the `\r\n` behind it have arrived.
    fn read_body(&mut self, buf: &mut EasyBuf) -> (r: Result<Option<Request>, CodecError>)
        requires
            old(self)@.state == CodecState::ReadingBody,
            decode_accepts(old(self)@, easybuf_bytes(*old(buf))),
        ensures
            (final(self)@, easybuf_bytes(*final(buf)), request_result_view(r)) == decode_spec(
                old(self)@,
                easybuf_bytes(*old(buf)),
            ),
    {
        proof {
            use_type_invariant(&*self);
        }
        let ghost contents = easybuf_bytes(*buf);
        let count = match self.bytes_to_read {
            Some(count) => count,
            None => {
                proof {
                    assert(false);
                }
                0
            },
        };
        let available: usize = buf_as_slice(buf).len();
        if available >= count as usize {
            let body = buf_drain_to(buf, count as usize);
            let _ = buf_drain_to(buf, 2);
            assert(easybuf_bytes(*buf) =~= contents.skip(count as usize + 2));
            self.state = CodecState::AwaitingHeader;
            let mut partial: Option<Request> = None;
            std::mem::swap(&mut partial, &mut self.partial);
            let mut partial = match partial {
                Some(p) => p,
                None => {
                    proof {
                        assert(false);
                    }
                    Request::new(Command::SetValue, Key(Vec::new()))
                },
            };
            partial.set_body(copy_bytes(buf_as_slice(&body)));
            Ok(Some(partial))
        } else {
            Ok(None)
        }
    }

    /// Whether `decode` can take `buf` now: when a `SET`'s data has arrived, so has the
    /// `\r\n` behind it.
    pub fn accepts(&self, buf: &EasyBuf) -> (r: bool)
        ensures
            r == decode_accepts(self@, easybuf_bytes(*buf)),
    {
        match self.state {
            CodecState::ReadingBody => {},
            _ => return true,
        }
        match self.bytes_to_read {
            Some(count) => {
                let available: usize = buf_as_slice(buf).len();
                let n = count as usize;
                available < n || available - n >= 2
            },
            None => true,
        }
    }

    /// Cuts the next request out of `buf`: `Ok(None)` while it has not all arrived.
    pub fn decode(&mut self, buf: &mut EasyBuf) -> (r: Result<Option<Request>, CodecError>)
        requires
            decode_accepts(old(self)@, easybuf_bytes(*old(buf))),
        ensures
            (final(self)@, easybuf_bytes(*final(buf)), request_result_view(r)) == decode_spec(
                old(self)@,
                easybuf_bytes(*old(buf)),
            ),
            codec_consistent(old(self)@),
            codec_consistent(final(self)@),
    {
        proof {
            use_type_invariant(&*self);
        }
        let r = match self.state {
            CodecState::AwaitingHeader => self.read_header(buf),
            CodecState::ReadingBody => self.read_body(buf),
            CodecState::Error => self.handle_error(),
        };
        proof {
            use_type_invariant(&*self);
        }
        r
    }

    /// Writes a reply as one line.
    pub fn encode(&mut self, msg: Reply, buf: &mut Vec<u8>)
        ensures
            final(buf)@ == old(buf)@ + reply_text(msg@) + crlf(),
            final(self)@ == old(self)@,
    {
        let bytes = msg.serialize();
        push_bytes(buf, bytes.as_slice());
        proof {
            reveal_strlit("\r\n");
        }
        push_text(buf, "\r\n");
        assert(text("\r\n") =~= crlf());
    }
}

/// Every count that fits a `u64` is read as itself: the decimal text of `n` in the
/// fifth field of a `SET` line is the byte count `n`.
pub proof fn law_byte_count_reads_any_u64(n: u64)
    ensures
        byte_count_of(decimal_encoding(n as nat)) == Some(n),
{
    lemma_decimal_round_trip(n as nat, u64::MAX as nat);
}

} // verus!
