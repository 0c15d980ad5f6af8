//! Requests, replies and keys, and the wire text of a reply.

use vstd::prelude::*;
use crate::bytes::{text, push_text, push_bytes};
use crate::decimal::{decimal_encoding, push_decimal};

verus! {

/// A key of the store: any run of bytes.
#[derive(PartialEq, Eq, Debug)]
pub struct Key(pub Vec<u8>);

impl View for Key {
    type V = Seq<u8>;

    open spec fn view(&self) -> Seq<u8> {
        self.0@
    }
}

/// The commands a client may send.
#[derive(PartialEq, Eq, Debug, Clone, Copy)]
pub enum Command {
    Get,
    /// `set` (spelled out in full because `Set` names a spec type of the verifier).
    SetValue,
}

/// The kinds of reply the server sends.
#[derive(PartialEq, Eq, Debug, Clone, Copy)]
pub enum ReplyType {
    Error,
    Stored,
    Value,
    NotFound,
}

/// A decoded request: a command on a key, and for a `Set` the data to store.
#[derive(PartialEq, Eq, Debug)]
pub struct Request {
    command: Command,
    key: Key,
    body: Option<Vec<u8>>,
}

/// What a request holds, as plain values.
pub struct RequestView {
    pub command: Command,
    pub key: Seq<u8>,
    pub body: Option<Seq<u8>>,
}

pub open spec fn opt_bytes_view(b: Option<Vec<u8>>) -> Option<Seq<u8>> {
    match b {
        Some(v) => Some(v@),
        None => None,
    }
}

impl View for Request {
    type V = RequestView;

    closed spec fn view(&self) -> RequestView {
        RequestView { command: self.command, key: self.key@, body: opt_bytes_view(self.body) }
    }
}

impl Request {
    /// A request without a body.
    pub fn new(command: Command, key: Key) -> (r: Self)
        ensures
            r@ == (RequestView { command, key: key@, body: None }),
    {
        Request { command: command, key: key, body: None }
    }

    /// Attaches the data of a `Set`.
    pub fn set_body(&mut self, body: Vec<u8>)
        ensures
            final(self)@ == (RequestView { body: Some(body@), ..old(self)@ }),
    {
        self.body = Some(body);
    }

    /// Whether the request holds all it needs: a `Set` carries its data.
    pub fn is_complete(&self) -> (r: bool)
        ensures
            r == (self@.command == Command::SetValue ==> self@.body is Some),
    {
        match self.command {
            Command::Get => true,
            Command::SetValue => self.body.is_some(),
        }
    }

    /// Takes the request apart into its command, key and body.
    pub fn into_parts(self) -> (r: (Command, Key, Option<Vec<u8>>))
        ensures
            r.0 == self@.command,
            r.1@ == self@.key,
            opt_bytes_view(r.2) == self@.body,
    {
        (self.command, self.key, self.body)
    }
}

/// A reply to a request; a `Value` reply always carries its key and length.
pub struct Reply {
    reply_type: ReplyType,
    key: Option<Key>,
    length: Option<u64>,
}

/// What a reply holds, as plain values.
pub struct ReplyView {
    pub reply_type: ReplyType,
    pub key: Option<Seq<u8>>,
    pub length: Option<u64>,
}

impl View for Reply {
    type V = ReplyView;

    closed spec fn view(&self) -> ReplyView {
        ReplyView {
            reply_type: self.reply_type,
            key: match self.key {
                Some(k) => Some(k@),
                None => None,
            },
            length: self.length,
        }
    }
}

/// The text of a reply, without the line end that the codec adds.
pub open spec fn reply_text(r: ReplyView) -> Seq<u8> {
    match r.reply_type {
        ReplyType::Error => text("ERROR"),
        ReplyType::Stored => text("STORED"),
        ReplyType::NotFound => text("END"),
        ReplyType::Value => text("VALUE ") + r.key.unwrap() + text(" 3 ") + decimal_encoding(
            r.length.unwrap() as nat,
        ),
    }
}

impl Reply {
    #[verifier::type_invariant]
    spec fn well_formed(self) -> bool {
        self.reply_type == ReplyType::Value ==> self.key is Some && self.length is Some
    }

    /// The reply to a `Set` that was stored.
    pub fn stored() -> (r: Self)
        ensures
            r@ == (ReplyView { reply_type: ReplyType::Stored, key: None, length: None }),
    {
        Reply { reply_type: ReplyType::Stored, key: None, length: None }
    }

    /// The reply to a `Get` of a key that holds nothing.
    pub fn not_found() -> (r: Self)
        ensures
            r@ == (ReplyView { reply_type: ReplyType::NotFound, key: None, length: None }),
    {
        Reply { reply_type: ReplyType::NotFound, key: None, length: None }
    }

    /// The reply to a `Get` of a key that holds `length` bytes.
    pub fn value(key: Key, length: u64) -> (r: Self)
        ensures
            r@ == (ReplyView {
                reply_type: ReplyType::Value,
                key: Some(key@),
                length: Some(length),
            }),
    {
        Reply { reply_type: ReplyType::Value, key: Some(key), length: Some(length) }
    }

    /// The wire text of the reply.
    pub fn serialize(self) -> (r: Vec<u8>)
        ensures
            r@ == reply_text(self@),
    {
        proof {
            use_type_invariant(&self);
        }
        let mut build: Vec<u8> = Vec::new();
        match self.reply_type {
            ReplyType::Error => {
                proof { reveal_strlit("ERROR"); }
                push_text(&mut build, "ERROR");
            },
            ReplyType::Stored => {
                proof { reveal_strlit("STORED"); }
                push_text(&mut build, "STORED");
            },
            ReplyType::NotFound => {
                proof { reveal_strlit("END"); }
                push_text(&mut build, "END");
            },
            ReplyType::Value => {
                proof {
                    reveal_strlit("VALUE ");
                    reveal_strlit(" 3 ");
                }
                let key = self.key.unwrap();
                let length = self.length.unwrap();
                push_text(&mut build, "VALUE ");
                push_bytes(&mut build, key.0.as_slice());
                push_text(&mut build, " 3 ");
                push_decimal(length, &mut build);
            },
        }
        assert(build@ =~= reply_text(self@));
        build
    }
}


/// The commands of the line-based protocol.
#[derive(PartialEq, Eq, Debug, Clone, Copy)]
pub enum MemcachedCommandName {
    Get,
    /// `set` (spelled out in full because `Set` names a spec type of the verifier).
    SetValue,
}

/// A key as it arrives in a header line.
pub type MemcachedKey = Vec<u8>;

/// The data of a `set`.
pub type MemcachedValue = Vec<u8>;

/// A parsed header line: `<command> <key> <flags> <exptime> <bytes>`.
#[derive(PartialEq, Eq, Debug)]
pub struct MemcachedFrameHeader {
    pub command_name: MemcachedCommandName,
    pub key: MemcachedKey,
    pub flags: u32,
    pub exptime: u32,
    pub byte_count: usize,
}

/// What a header holds, as plain values.
pub struct HeaderView {
    pub command_name: MemcachedCommandName,
    pub key: Seq<u8>,
    pub flags: u32,
    pub exptime: u32,
    pub byte_count: usize,
}

impl View for MemcachedFrameHeader {
    type V = HeaderView;

    open spec fn view(&self) -> HeaderView {
        HeaderView {
            command_name: self.command_name,
            key: self.key@,
            flags: self.flags,
            exptime: self.exptime,
            byte_count: self.byte_count,
        }
    }
}

/// A complete message: its header and, for a `set`, its data.
#[derive(PartialEq, Eq, Debug)]
pub struct MemcachedFrame {
    pub header: MemcachedFrameHeader,
    pub bytes: MemcachedValue,
}

/// What a frame holds, as plain values.
pub struct FrameView {
    pub header: HeaderView,
    pub bytes: Seq<u8>,
}

impl View for MemcachedFrame {
    type V = FrameView;

    open spec fn view(&self) -> FrameView {
        FrameView { header: self.header@, bytes: self.bytes@ }
    }
}

impl MemcachedFrame {
    /// A frame of a header and its data.
    pub fn new(header: MemcachedFrameHeader, bytes: MemcachedValue) -> (r: Self)
        ensures
            r@ == (FrameView { header: header@, bytes: bytes@ }),
    {
        MemcachedFrame { header: header, bytes: bytes }
    }
}

impl MemcachedFrameHeader {
    /// The frame of a command that carries no data.
    pub fn as_dataless_frame(self) -> (r: MemcachedFrame)
        ensures
            r@ == (FrameView { header: self@, bytes: Seq::empty() }),
    {
        MemcachedFrame::new(self, Vec::new())
    }
}

/// A value reply names its key byte for byte: `VALUE `, then exactly the key, then
/// ` 3 `, then the length in decimal, which reads back as the reply's length.
pub proof fn law_value_reply_carries_key_and_length(r: ReplyView)
    requires
        r.reply_type == ReplyType::Value,
        r.key is Some,
        r.length is Some,
    ensures
        ({
            let t = reply_text(r);
            let k = r.key.unwrap();
            &&& t.take(6) == text("VALUE ")
            &&& t.subrange(6, 6 + k.len() as int) == k
            &&& t.subrange(6 + k.len() as int, 9 + k.len() as int) == text(" 3 ")
            &&& crate::decimal::parse_unsigned(t.skip(9 + k.len() as int), u64::MAX as nat) == Ok::<
                nat,
                crate::decimal::IntErrorKind,
            >(r.length.unwrap() as nat)
        }),
{
    reveal_strlit("VALUE ");
    reveal_strlit(" 3 ");
    let t = reply_text(r);
    let k = r.key.unwrap();
    let d = decimal_encoding(r.length.unwrap() as nat);
    assert(t =~= text("VALUE ") + k + text(" 3 ") + d);
    assert(t.take(6) =~= text("VALUE "));
    assert(t.subrange(6, 6 + k.len() as int) =~= k);
    assert(t.subrange(6 + k.len() as int, 9 + k.len() as int) =~= text(" 3 "));
    assert(t.skip(9 + k.len() as int) =~= d);
    crate::decimal::lemma_decimal_round_trip(r.length.unwrap() as nat, u64::MAX as nat);
}

} // verus!
