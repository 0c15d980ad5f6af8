//! The parser of the line-based protocol: it is handed one CRLF-terminated line at a
//! time and answers with a complete frame once one has arrived.

use vstd::prelude::*;
use crate::bytes::{text, crlf, bytes_are_text, copy_bytes, split_spaces, split_on_spaces, closed_tokens,
    is_word, lemma_tokens_word_then_delim, lemma_tokens_within_word};
use crate::decimal::{IntErrorKind, parse_decimal, parse_unsigned};
use crate::memcached::types::{
    FrameView, HeaderView, MemcachedCommandName, MemcachedFrame, MemcachedFrameHeader,
};

verus! {

/// Why a line was refused.
#[derive(Clone, Copy, Debug, PartialEq, Eq)]
pub enum ParseErrorKind {
    /// An earlier line was refused, and the parser stays refused.
    PreviousCallFailed,
    /// The first word is neither `get` nor `set`.
    InvalidCommand,
    /// The header line does not have five space-separated fields.
    InvalidFrame,
    /// A numeric field is not UTF-8 text.
    InvalidUtf8,
    /// A numeric field is empty.
    EmptyNumber,
    /// A numeric field holds something other than decimal digits.
    InvalidDigit,
    /// A numeric field is too large for its type.
    NumberTooLarge,
}

/// The error the parser reports.
#[derive(Debug)]
pub struct MemcachedParseError {
    kind: ParseErrorKind,
}

impl View for MemcachedParseError {
    type V = ParseErrorKind;

    closed spec fn view(&self) -> ParseErrorKind {
        self.kind
    }
}

/// The message that goes with each kind of error.
pub open spec fn description_of(kind: ParseErrorKind) -> &'static str {
    match kind {
        ParseErrorKind::PreviousCallFailed => "In error state from previous call",
        ParseErrorKind::InvalidCommand => "invalid memcached command sent",
        ParseErrorKind::InvalidFrame => "invalid memcached frame passed to header",
        ParseErrorKind::InvalidUtf8 => "invalid utf-8",
        ParseErrorKind::EmptyNumber => "cannot parse integer from empty string",
        ParseErrorKind::InvalidDigit => "invalid digit found in string",
        ParseErrorKind::NumberTooLarge => "number too large to fit in target type",
    }
}

impl MemcachedParseError {
    fn new(kind: ParseErrorKind) -> (r: Self)
        ensures
            r@ == kind,
    {
        MemcachedParseError { kind: kind }
    }

    /// The same error, passed on by a caller.
    fn from_err(e: MemcachedParseError) -> (r: Self)
        ensures
            r@ == e@,
    {
        Self::new(e.kind)
    }

    /// What went wrong.
    pub fn kind(&self) -> (r: ParseErrorKind)
        ensures
            r == self@,
    {
        self.kind
    }

    /// The message that describes the error.
    pub fn description(&self) -> (r: &'static str)
        ensures
            r == description_of(self@),
    {
        match self.kind {
            ParseErrorKind::PreviousCallFailed => "In error state from previous call",
            ParseErrorKind::InvalidCommand => "invalid memcached command sent",
            ParseErrorKind::InvalidFrame => "invalid memcached frame passed to header",
            ParseErrorKind::InvalidUtf8 => "invalid utf-8",
            ParseErrorKind::EmptyNumber => "cannot parse integer from empty string",
            ParseErrorKind::InvalidDigit => "invalid digit found in string",
            ParseErrorKind::NumberTooLarge => "number too large to fit in target type",
        }
    }
}

/// Reports whether `std::str::from_utf8` accepts `bytes`. Its documentation says that
/// it succeeds exactly when the bytes are valid UTF-8, which is what vstd's
/// `valid_utf8` states.
#[verifier::external_body]
fn is_valid_utf8(bytes: &[u8]) -> (r: bool)
    ensures
        r == vstd::utf8::valid_utf8(bytes@),
{
    std::str::from_utf8(bytes).is_ok()
}

pub open spec fn int_error_kind(e: IntErrorKind) -> ParseErrorKind {
    match e {
        IntErrorKind::Empty => ParseErrorKind::EmptyNumber,
        IntErrorKind::InvalidDigit => ParseErrorKind::InvalidDigit,
        IntErrorKind::PosOverflow => ParseErrorKind::NumberTooLarge,
    }
}

/// A numeric header field read as UTF-8 text and then as a decimal number of at most
/// `max`.
pub open spec fn header_part(part: Seq<u8>, max: nat) -> Result<nat, ParseErrorKind> {
    if !vstd::utf8::valid_utf8(part) {
        Err(ParseErrorKind::InvalidUtf8)
    } else {
        match parse_unsigned(part, max) {
            Ok(v) => Ok(v),
            Err(e) => Err(int_error_kind(e)),
        }
    }
}

/// The command that a header's first word names.
pub open spec fn command_named(word: Seq<u8>) -> Option<MemcachedCommandName> {
    if word == text("set") {
        Some(MemcachedCommandName::SetValue)
    } else if word == text("get") {
        Some(MemcachedCommandName::Get)
    } else {
        None
    }
}

/// The byte-count field without the line end that follows it.
pub open spec fn count_field(last: Seq<u8>) -> Seq<u8> {
    last.subrange(0, last.len() - 2)
}

/// Whether parsing a header line gets as far as its byte-count field.
pub open spec fn header_reaches_count(line: Seq<u8>) -> bool {
    let p = split_on_spaces(line);
    &&& p.len() == 5
    &&& command_named(p[0]) is Some
    &&& header_part(p[2], u32::MAX as nat) is Ok
    &&& header_part(p[3], u32::MAX as nat) is Ok
}

/// A header line that can be taken apart: when the byte-count field is reached, it
/// is long enough to hold the line end that is cut off it.
pub open spec fn header_is_sliceable(line: Seq<u8>) -> bool {
    header_reaches_count(line) ==> split_on_spaces(line)[4].len() >= 2
}

/// The header that a line holds: `<command> <key> <flags> <exptime> <bytes>\r\n`.
pub open spec fn parse_header_spec(line: Seq<u8>) -> Result<HeaderView, ParseErrorKind> {
    let p = split_on_spaces(line);
    if p.len() != 5 {
        Err(ParseErrorKind::InvalidFrame)
    } else {
        match command_named(p[0]) {
            None => Err(ParseErrorKind::InvalidCommand),
            Some(c) => match header_part(p[2], u32::MAX as nat) {
                Err(e) => Err(e),
                Ok(flags) => match header_part(p[3], u32::MAX as nat) {
                    Err(e) => Err(e),
                    Ok(exptime) => match header_part(count_field(p[4]), usize::MAX as nat) {
                        Err(e) => Err(e),
                        Ok(n) => Ok(
                            HeaderView {
                                command_name: c,
                                key: p[1],
                                flags: flags as u32,
                                exptime: exptime as u32,
                                byte_count: n as usize,
                            },
                        ),
                    },
                },
            },
        }
    }
}

pub open spec fn header_result_view(r: Result<MemcachedFrameHeader, MemcachedParseError>) -> Result<HeaderView, ParseErrorKind> {
    match r {
        Ok(h) => Ok(h@),
        Err(e) => Err(e@),
    }
}

/// Reads one numeric field of a header.
fn parse_header_part(part: &[u8], max: u64) -> (r: Result<u64, MemcachedParseError>)
    ensures
        match r {
            Ok(v) => header_part(part@, max as nat) == Ok::<nat, ParseErrorKind>(v as nat),
            Err(e) => header_part(part@, max as nat) == Err::<nat, ParseErrorKind>(e@),
        },
{
    if !is_valid_utf8(part) {
        return Err(MemcachedParseError::new(ParseErrorKind::InvalidUtf8));
    }
    match parse_decimal(part, max) {
        Ok(v) => Ok(v),
        Err(IntErrorKind::Empty) => Err(MemcachedParseError::new(ParseErrorKind::EmptyNumber)),
        Err(IntErrorKind::InvalidDigit) => Err(
            MemcachedParseError::new(ParseErrorKind::InvalidDigit),
        ),
        Err(IntErrorKind::PosOverflow) => Err(
            MemcachedParseError::new(ParseErrorKind::NumberTooLarge),
        ),
    }
}

/// Takes a header line apart.
fn parse_memcached_header(head: &Vec<u8>) -> (r: Result<MemcachedFrameHeader, MemcachedParseError>)
    requires
        header_is_sliceable(head@),
    ensures
        header_result_view(r) == parse_header_spec(head@),
{
    let parts = split_spaces(head.as_slice());
    if parts.len() == 5 {
        proof {
            reveal_strlit("set");
            reveal_strlit("get");
        }
        let command = if bytes_are_text(parts[0].as_slice(), "set") {
            MemcachedCommandName::SetValue
        } else if bytes_are_text(parts[0].as_slice(), "get") {
            MemcachedCommandName::Get
        } else {
            return Err(MemcachedParseError::new(ParseErrorKind::InvalidCommand));
        };
        let key = copy_bytes(parts[1].as_slice());
        let flags = match parse_header_part(parts[2].as_slice(), 4294967295u64) {
            Ok(v) => v,
            Err(e) => return Err(e),
        };
        let exptime = match parse_header_part(parts[3].as_slice(), 4294967295u64) {
            Ok(v) => v,
            Err(e) => return Err(e),
        };
        let last = parts[4].as_slice();
        let byte_count = match parse_header_part(&last[0..last.len() - 2], usize::MAX as u64) {
            Ok(v) => v,
            Err(e) => return Err(e),
        };
        Ok(
            MemcachedFrameHeader {
                command_name: command,
                key: key,
                flags: flags as u32,
                exptime: exptime as u32,
                byte_count: byte_count as usize,
            },
        )
    } else {
        Err(MemcachedParseError::new(ParseErrorKind::InvalidFrame))
    }
}


/// Where the parser stands between lines.
#[derive(Clone, Copy, Debug, PartialEq, Eq)]
pub enum MemcachedParseState {
    /// The next line is a header.
    NewHeader,
    /// A `set` header was read and its data is still arriving.
    AccumulatingSet,
    /// A line was refused; every later line is refused too.
    ErrorState,
}

/// The parser: its state, the data of a `set` gathered so far, and that `set`'s header.
pub struct MemcachedParseStateMachine {
    state: MemcachedParseState,
    buffer: Vec<u8>,
    partial_header: Option<MemcachedFrameHeader>,
}

/// What the parser holds, as plain values.
pub struct ParserView {
    pub state: MemcachedParseState,
    pub buffer: Seq<u8>,
    pub partial: Option<HeaderView>,
}

impl View for MemcachedParseStateMachine {
    type V = ParserView;

    closed spec fn view(&self) -> ParserView {
        ParserView {
            state: self.state,
            buffer: self.buffer@,
            partial: match self.partial_header {
                Some(h) => Some(h@),
                None => None,
            },
        }
    }
}

/// A parser that is gathering the data of a `set` knows that `set`'s header.
pub open spec fn parser_consistent(p: ParserView) -> bool {
    &&& (p.state == MemcachedParseState::AccumulatingSet) == (p.partial is Some)
    &&& p.partial matches Some(h) ==> h.command_name == MemcachedCommandName::SetValue
}

/// Whether `add_bytes` can take `bytes` in state `p`: a header line must be one that
/// can be taken apart.
pub open spec fn accepts_line(p: ParserView, bytes: Seq<u8>) -> bool {
    p.state == MemcachedParseState::NewHeader ==> header_is_sliceable(bytes)
}

/// One call of `add_bytes`: the parser after it, and what it answers.
pub open spec fn add_bytes_spec(p: ParserView, bytes: Seq<u8>) -> (ParserView, Result<
    Option<FrameView>,
    ParseErrorKind,
>) {
    match p.state {
        MemcachedParseState::ErrorState => (p, Err(ParseErrorKind::PreviousCallFailed)),
        MemcachedParseState::NewHeader => match parse_header_spec(bytes) {
            Err(e) => (ParserView { state: MemcachedParseState::ErrorState, ..p }, Err(e)),
            Ok(h) => match h.command_name {
                MemcachedCommandName::Get => (
                    p,
                    Ok(Some(FrameView { header: h, bytes: Seq::empty() })),
                ),
                MemcachedCommandName::SetValue => (
                    ParserView {
                        state: MemcachedParseState::AccumulatingSet,
                        partial: Some(h),
                        ..p
                    },
                    Ok(None),
                ),
            },
        },
        MemcachedParseState::AccumulatingSet => {
            let h = p.partial.unwrap();
            let gathered = p.buffer + bytes;
            if gathered.len() >= h.byte_count {
                (
                    ParserView {
                        state: MemcachedParseState::NewHeader,
                        buffer: Seq::empty(),
                        partial: None,
                    },
                    Ok(Some(FrameView { header: h, bytes: gathered.take(h.byte_count as int) })),
                )
            } else {
                (ParserView { buffer: gathered, ..p }, Ok(None))
            }
        },
    }
}

pub open spec fn frame_result_view(r: Result<Option<MemcachedFrame>, MemcachedParseError>) -> Result<
    Option<FrameView>,
    ParseErrorKind,
> {
    match r {
        Ok(Some(f)) => Ok(Some(f@)),
        Ok(None) => Ok(None),
        Err(e) => Err(e@),
    }
}

impl MemcachedParseStateMachine {
    #[verifier::type_invariant]
    spec fn well_formed(self) -> bool {
        &&& (self.state == MemcachedParseState::AccumulatingSet) == (self.partial_header is Some)
        &&& self.partial_header matches Some(h) ==> h.command_name == MemcachedCommandName::SetValue
    }

    /// A parser waiting for its first header.
    pub fn new() -> (r: Self)
        ensures
            r@ == (ParserView {
                state: MemcachedParseState::NewHeader,
                buffer: Seq::empty(),
                partial: None,
            }),
            parser_consistent(r@),
    {
        MemcachedParseStateMachine {
            state: MemcachedParseState::NewHeader,
            buffer: Vec::new(),
            partial_header: None,
        }
    }

    /// Whether `add_bytes` can take `bytes` now: a header line whose byte-count field
    /// is reached must be long enough for the line end cut off it.
    pub fn accepts(&self, bytes: &Vec<u8>) -> (r: bool)
        ensures
            r == accepts_line(self@, bytes@),
    {
        match self.state {
            MemcachedParseState::NewHeader => {},
            _ => return true,
        }
        let parts = split_spaces(bytes.as_slice());
        if parts.len() != 5 {
            return true;
        }
        proof {
            reveal_strlit("set");
            reveal_strlit("get");
        }
        if !bytes_are_text(parts[0].as_slice(), "set") && !bytes_are_text(parts[0].as_slice(), "get") {
            return true;
        }
        if parse_header_part(parts[2].as_slice(), 4294967295u64).is_err() {
            return true;
        }
        if parse_header_part(parts[3].as_slice(), 4294967295u64).is_err() {
            return true;
        }
        parts[4].len() >= 2
    }

    /// Feeds one CRLF-terminated line: a header, or (part of) the data of a `set`.
    /// Answers a frame once one is complete.
    pub fn add_bytes(&mut self, bytes: &Vec<u8>) -> (r: Result<Option<MemcachedFrame>, MemcachedParseError>)
        requires
            accepts_line(old(self)@, bytes@),
        ensures
            (final(self)@, frame_result_view(r)) == add_bytes_spec(old(self)@, bytes@),
            parser_consistent(old(self)@),
            parser_consistent(final(self)@),
    {
        proof {
            use_type_invariant(&*self);
        }
        let r = match self.state {
            MemcachedParseState::ErrorState => Err(
                MemcachedParseError::new(ParseErrorKind::PreviousCallFailed),
            ),
            MemcachedParseState::NewHeader => self.parse_header(bytes),
            MemcachedParseState::AccumulatingSet => self.accumulate(bytes),
        };
        proof {
            use_type_invariant(&*self);
        }
        r
    }

    fn parse_header(&mut self, bytes: &Vec<u8>) -> (r: Result<Option<MemcachedFrame>, MemcachedParseError>)
        requires
            old(self)@.state == MemcachedParseState::NewHeader,
            header_is_sliceable(bytes@),
        ensures
            (final(self)@, frame_result_view(r)) == add_bytes_spec(old(self)@, bytes@),
    {
        proof {
            use_type_invariant(&*self);
        }
        let header = parse_memcached_header(bytes);
        match header {
            Ok(header) => Ok(self.transition_for(header)),
            Err(e) => {
                self.state = MemcachedParseState::ErrorState;
                Err(MemcachedParseError::from_err(e))
            },
        }
    }

    fn accumulate(&mut self, bytes: &Vec<u8>) -> (r: Result<Option<MemcachedFrame>, MemcachedParseError>)
        requires
            old(self)@.state == MemcachedParseState::AccumulatingSet,
        ensures
            (final(self)@, frame_result_view(r)) == add_bytes_spec(old(self)@, bytes@),
    {
        proof {
            use_type_invariant(&*self);
        }
        let mut buffer: Vec<u8> = Vec::new();
        std::mem::swap(&mut buffer, &mut self.buffer);
        buffer.extend_from_slice(bytes.as_slice());
        assert(buffer@ =~= old(self)@.buffer + bytes@);
        let byte_count = match &self.partial_header {
            Some(h) => h.byte_count,
            None => 0,
        };
        if buffer.len() >= byte_count {
            buffer.truncate(byte_count);
            assert(buffer@ =~= (old(self)@.buffer + bytes@).take(byte_count as int));
            std::mem::swap(&mut buffer, &mut self.buffer);
            let frame = self.produce_frame_and_reset();
            Ok(Some(frame))
        } else {
            std::mem::swap(&mut buffer, &mut self.buffer);
            Ok(None)
        }
    }

    fn produce_frame_and_reset(&mut self) -> (r: MemcachedFrame)
        requires
            old(self)@.state == MemcachedParseState::AccumulatingSet,
        ensures
            final(self)@ == (ParserView {
                state: MemcachedParseState::NewHeader,
                buffer: Seq::empty(),
                partial: None,
            }),
            r@ == (FrameView { header: old(self)@.partial.unwrap(), bytes: old(self)@.buffer }),
    {
        proof {
            use_type_invariant(&*self);
        }
        let mut new_buffer: Vec<u8> = Vec::new();
        std::mem::swap(&mut new_buffer, &mut self.buffer);
        let mut reset = MemcachedParseStateMachine::new();
        std::mem::swap(&mut reset, self);
        let old_state = reset;
        let header = match old_state.partial_header {
            Some(h) => h,
            None => {
                proof {
                    use_type_invariant(&old_state);
                }
                return MemcachedFrame::new(
                    MemcachedFrameHeader {
                        command_name: MemcachedCommandName::Get,
                        key: Vec::new(),
                        flags: 0,
                        exptime: 0,
                        byte_count: 0,
                    },
                    new_buffer,
                );
            },
        };
        MemcachedFrame::new(header, new_buffer)
    }

    fn transition_for(&mut self, header: MemcachedFrameHeader) -> (r: Option<MemcachedFrame>)
        requires
            old(self)@.state == MemcachedParseState::NewHeader,
        ensures
            header@.command_name == MemcachedCommandName::Get ==> final(self)@ == old(self)@ && (r
                matches Some(f) && f@ == (FrameView { header: header@, bytes: Seq::empty() })),
            header@.command_name == MemcachedCommandName::SetValue ==> r is None && final(self)@ == (
            ParserView {
                state: MemcachedParseState::AccumulatingSet,
                partial: Some(header@),
                ..old(self)@
            }),
    {
        proof {
            use_type_invariant(&*self);
        }
        match header.command_name {
            MemcachedCommandName::Get => Some(header.as_dataless_frame()),
            MemcachedCommandName::SetValue => {
                let mut buffer: Vec<u8> = Vec::new();
                std::mem::swap(&mut buffer, &mut self.buffer);
                *self = MemcachedParseStateMachine {
                    state: MemcachedParseState::AccumulatingSet,
                    buffer: buffer,
                    partial_header: Some(header),
                };
                None
            },
        }
    }
}

/// Once a line has been refused, every later line is refused and the parser stays as
/// it is.
pub proof fn law_parser_error_is_final(p: ParserView, bytes: Seq<u8>)
    requires
        p.state == MemcachedParseState::ErrorState,
    ensures
        add_bytes_spec(p, bytes) == (p, Err::<Option<FrameView>, ParseErrorKind>(
            ParseErrorKind::PreviousCallFailed,
        )),
{
}

/// A refused header line puts the parser in the state that refuses everything after.
pub proof fn law_refused_header_sticks(p: ParserView, bytes: Seq<u8>)
    requires
        p.state == MemcachedParseState::NewHeader,
        parse_header_spec(bytes) is Err,
    ensures
        add_bytes_spec(p, bytes).0.state == MemcachedParseState::ErrorState,
        add_bytes_spec(p, bytes).1 is Err,
{
}

/// Every frame carries exactly the data its header announced: a `set` frame the
/// header's byte count of bytes, a `get` frame none.
pub proof fn law_frame_carries_its_byte_count(p: ParserView, bytes: Seq<u8>)
    requires
        parser_consistent(p),
    ensures
        add_bytes_spec(p, bytes).1 matches Ok(Some(f)) ==> match f.header.command_name {
            MemcachedCommandName::SetValue => f.bytes.len() == f.header.byte_count,
            MemcachedCommandName::Get => f.bytes.len() == 0,
        },
        parser_consistent(add_bytes_spec(p, bytes).0),
{
}

/// The data of a `set` that arrives over several lines is gathered in order: until
/// the byte count is reached, each line is added to what was gathered.
pub proof fn law_set_data_is_gathered_in_order(p: ParserView, bytes: Seq<u8>)
    requires
        parser_consistent(p),
        p.state == MemcachedParseState::AccumulatingSet,
    ensures
        (p.buffer + bytes).len() < p.partial.unwrap().byte_count ==> add_bytes_spec(p, bytes)
            == (ParserView { buffer: p.buffer + bytes, ..p }, Ok::<Option<FrameView>, ParseErrorKind>(None)),
        (p.buffer + bytes).len() >= p.partial.unwrap().byte_count ==> add_bytes_spec(p, bytes).1
            == Ok::<Option<FrameView>, ParseErrorKind>(
            Some(FrameView { header: p.partial.unwrap(), bytes: (p.buffer + bytes).take(p.partial.unwrap().byte_count as int) }),
        ),
{
}

/// A header line `<command> <key> <flags> <exptime> <count>\r\n` whose fields read as
/// numbers parses into a header of exactly those values; its key may be any run of
/// bytes without spaces.
pub proof fn law_parse_header_line(
    command: Seq<u8>,
    key: Seq<u8>,
    flags: Seq<u8>,
    exptime: Seq<u8>,
    count: Seq<u8>,
    f: nat,
    e: nat,
    n: nat,
)
    requires
        command_named(command) is Some,
        is_word(key, false),
        is_word(flags, false),
        is_word(exptime, false),
        is_word(count, false),
        header_part(flags, u32::MAX as nat) == Ok::<nat, ParseErrorKind>(f),
        header_part(exptime, u32::MAX as nat) == Ok::<nat, ParseErrorKind>(e),
        header_part(count, usize::MAX as nat) == Ok::<nat, ParseErrorKind>(n),
    ensures
        ({
            let line = command + text(" ") + key + text(" ") + flags + text(" ") + exptime + text(" ")
                + count + crlf();
            &&& header_is_sliceable(line)
            &&& parse_header_spec(line) == Ok::<HeaderView, ParseErrorKind>(
                HeaderView {
                    command_name: command_named(command)->0,
                    key,
                    flags: f as u32,
                    exptime: e as u32,
                    byte_count: n as usize,
                },
            )
        }),
{
    reveal_strlit(" ");
    reveal_strlit("set");
    reveal_strlit("get");
    assert(text(" ") =~= seq![32u8]);
    assert(is_word(command, false)) by {
        assert(command == text("set") || command == text("get"));
    }
    let empty = Seq::<u8>::empty();
    let l1 = empty + command + seq![32u8];
    let l2 = l1 + key + seq![32u8];
    let l3 = l2 + flags + seq![32u8];
    let l4 = l3 + exptime + seq![32u8];
    lemma_tokens_word_then_delim(empty, command, 32u8, false);
    lemma_tokens_word_then_delim(l1, key, 32u8, false);
    lemma_tokens_word_then_delim(l2, flags, 32u8, false);
    lemma_tokens_word_then_delim(l3, exptime, 32u8, false);
    let last = count + crlf();
    assert(is_word(last, false)) by {
        assert forall|j: int| 0 <= j < last.len() implies !crate::bytes::is_delim(#[trigger] last[j], false) by {
            if j < count.len() {
                assert(last[j] == count[j]);
            }
        }
    }
    lemma_tokens_within_word(l4, last, false);
    let line = command + text(" ") + key + text(" ") + flags + text(" ") + exptime + text(" ") + count
        + crlf();
    assert(line =~= l4 + last);
    assert(closed_tokens(empty, false) =~= Seq::<Seq<u8>>::empty());
    assert((l4 + last).subrange(l4.len() as int, (l4 + last).len() as int) =~= last);
    assert(split_on_spaces(line) =~= seq![command, key, flags, exptime, last]);
    assert(count_field(last) =~= count);
}

/// A `set` header line followed by data lines: the header is taken and the data
/// awaited; once the lines gathered reach the byte count, the frame of the header and
/// the first byte-count bytes of the data comes back and the next header is awaited.
pub proof fn law_set_line_then_data(p: ParserView, line: Seq<u8>, data: Seq<u8>)
    requires
        p.state == MemcachedParseState::NewHeader,
        p.buffer == Seq::<u8>::empty(),
        parse_header_spec(line) matches Ok(h) && h.command_name == MemcachedCommandName::SetValue,
        data.len() >= parse_header_spec(line)->Ok_0.byte_count,
    ensures
        ({
            let h = parse_header_spec(line)->Ok_0;
            let first = add_bytes_spec(p, line);
            &&& first.1 == Ok::<Option<FrameView>, ParseErrorKind>(None)
            &&& first.0.state == MemcachedParseState::AccumulatingSet
            &&& add_bytes_spec(first.0, data) == (
                ParserView { state: MemcachedParseState::NewHeader, buffer: Seq::empty(), partial: None },
                Ok::<Option<FrameView>, ParseErrorKind>(
                    Some(FrameView { header: h, bytes: data.take(h.byte_count as int) }),
                ),
            )
        }),
{
    let first = add_bytes_spec(p, line);
    assert(first.0.buffer + data =~= data);
}

/// A `get` header line is answered with the frame of that header and no data, and the
/// parser is left exactly as it was, still awaiting a header: the next line is parsed
/// just as it would have been without the `get` before it.
pub proof fn law_get_line_keeps_parser_ready(p: ParserView, line: Seq<u8>, next: Seq<u8>)
    requires
        p.state == MemcachedParseState::NewHeader,
        parse_header_spec(line) matches Ok(h) && h.command_name == MemcachedCommandName::Get,
    ensures
        add_bytes_spec(p, line).0 == p,
        add_bytes_spec(p, line).0.state == MemcachedParseState::NewHeader,
        add_bytes_spec(p, line).1 == Ok::<Option<FrameView>, ParseErrorKind>(
            Some(FrameView { header: parse_header_spec(line)->Ok_0, bytes: Seq::empty() }),
        ),
        add_bytes_spec(add_bytes_spec(p, line).0, next) == add_bytes_spec(p, next),
{
}

} // verus!
