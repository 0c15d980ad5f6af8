//! Answers complete frames against the store, with the reply bytes of the
//! line-based protocol.

use vstd::prelude::*;
use crate::bytes::{text, push_text, push_bytes, copy_bytes};
use crate::decimal::{decimal_encoding, push_decimal};
use crate::memcached::store::{Store, store_get, store_set};
use crate::memcached::types::{
    FrameView, Key, MemcachedCommandName, MemcachedFrame, MemcachedKey, MemcachedValue,
};

verus! {

/// The answer to a `get` that found `value` under `key`: the value line, the data, and
/// the closing `END`.
pub open spec fn found_response_text(key: Seq<u8>, value: Seq<u8>) -> Seq<u8> {
    text("VALUE ") + key + text(" ") + text("0 ") + decimal_encoding(value.len()) + text(" ")
        + text("\r\n") + value + text("\r\n") + text("END\r\n")
}

/// The answer to a `get` that found nothing.
pub open spec fn not_found_response_text() -> Seq<u8> {
    text("END\r\n")
}

/// The answer to a `set`.
pub open spec fn stored_response_text() -> Seq<u8> {
    text("STORED\r\n")
}

/// Handling one frame against a store holding `m`: the store afterwards and the bytes
/// sent back.
pub open spec fn handle_message_spec(m: Map<Seq<u8>, Seq<u8>>, frame: FrameView) -> (Map<
    Seq<u8>,
    Seq<u8>,
>, Seq<u8>) {
    let key = frame.header.key;
    match frame.header.command_name {
        MemcachedCommandName::Get => (
            m,
            match store_get(m, key) {
                Some(v) => found_response_text(key, v),
                None => not_found_response_text(),
            },
        ),
        MemcachedCommandName::SetValue => (
            store_set(m, key, frame.bytes),
            stored_response_text(),
        ),
    }
}

/// Answers one frame, reading or writing the store.
pub fn handle_message(store: &mut Store, message: MemcachedFrame) -> (r: Vec<u8>)
    ensures
        (final(store)@, r@) == handle_message_spec(old(store)@, message@),
{
    let key = message.header.key;
    let command = message.header.command_name;
    let bytes = message.bytes;
    let response = match command {
        MemcachedCommandName::Get => handle_get(&key, store),
        MemcachedCommandName::SetValue => handle_set(&key, bytes, store),
    };
    response
}

fn handle_get(key: &MemcachedKey, store: &mut Store) -> (r: Vec<u8>)
    ensures
        final(store)@ == old(store)@,
        r@ == match store_get(old(store)@, key@) {
            Some(v) => found_response_text(key@, v),
            None => not_found_response_text(),
        },
{
    let value = store.get(&Key(copy_bytes(key.as_slice())));
    match value {
        Some(x) => found_response(key, &x),
        None => not_found_response(),
    }
}

fn handle_set(key: &MemcachedKey, bytes: MemcachedValue, store: &mut Store) -> (r: Vec<u8>)
    ensures
        final(store)@ == store_set(old(store)@, key@, bytes@),
        r@ == stored_response_text(),
{
    store.set(Key(copy_bytes(key.as_slice())), bytes);
    let mut build: Vec<u8> = Vec::new();
    proof {
        reveal_strlit("STORED\r\n");
    }
    push_text(&mut build, "STORED\r\n");
    assert(build@ =~= stored_response_text());
    build
}

fn found_response(key: &MemcachedKey, value: &MemcachedValue) -> (r: Vec<u8>)
    ensures
        r@ == found_response_text(key@, value@),
{
    proof {
        reveal_strlit("VALUE ");
        reveal_strlit(" ");
        reveal_strlit("0 ");
        reveal_strlit("\r\n");
        reveal_strlit("END\r\n");
    }
    let mut build: Vec<u8> = Vec::new();
    // header
    push_text(&mut build, "VALUE ");
    // key
    push_bytes(&mut build, key.as_slice());
    push_text(&mut build, " ");
    // flags
    push_text(&mut build, "0 ");
    // value length
    push_decimal(value.len() as u64, &mut build);
    push_text(&mut build, " ");
    // end of header
    push_text(&mut build, "\r\n");
    // value
    push_bytes(&mut build, value.as_slice());
    push_text(&mut build, "\r\n");
    // end frame
    push_text(&mut build, "END\r\n");
    assert(build@ =~= found_response_text(key@, value@));
    build
}

fn not_found_response() -> (r: Vec<u8>)
    ensures
        r@ == not_found_response_text(),
{
    let mut build: Vec<u8> = Vec::new();
    proof {
        reveal_strlit("END\r\n");
    }
    push_text(&mut build, "END\r\n");
    assert(build@ =~= not_found_response_text());
    build
}

/// Once a `set` frame for a key has been handled, a `get` frame for it is answered
/// with the stored data, and the store is left as the `set` made it.
pub proof fn law_get_frame_after_set_frame(
    m: Map<Seq<u8>, Seq<u8>>,
    set_frame: FrameView,
    get_frame: FrameView,
)
    requires
        set_frame.header.command_name == MemcachedCommandName::SetValue,
        get_frame.header.command_name == MemcachedCommandName::Get,
        get_frame.header.key == set_frame.header.key,
    ensures
        ({
            let after_set = handle_message_spec(m, set_frame);
            let after_get = handle_message_spec(after_set.0, get_frame);
            &&& after_set.1 == stored_response_text()
            &&& after_get.0 == after_set.0
            &&& after_get.1 == found_response_text(set_frame.header.key, set_frame.bytes)
        }),
{
}

/// A `get` frame of a key that nothing was stored under is answered with `END` alone.
pub proof fn law_get_frame_of_missing_key(m: Map<Seq<u8>, Seq<u8>>, get_frame: FrameView)
    requires
        get_frame.header.command_name == MemcachedCommandName::Get,
        !m.contains_key(get_frame.header.key),
    ensures
        handle_message_spec(m, get_frame) == (m, not_found_response_text()),
{
}

/// Handling a `set` frame makes its key hold the frame's data and leaves every other
/// key holding what it held, with no key added or dropped besides.
pub proof fn law_set_frame_changes_only_its_key(m: Map<Seq<u8>, Seq<u8>>, frame: FrameView, other: Seq<u8>)
    requires
        frame.header.command_name == MemcachedCommandName::SetValue,
    ensures
        handle_message_spec(m, frame).0.contains_key(frame.header.key),
        handle_message_spec(m, frame).0[frame.header.key] == frame.bytes,
        other != frame.header.key ==> (handle_message_spec(m, frame).0.contains_key(other)
            <==> m.contains_key(other)),
        other != frame.header.key && m.contains_key(other) ==> handle_message_spec(m, frame).0[other]
            == m[other],
{
}

/// Handling a `get` frame leaves the store exactly as it was, whether or not it holds
/// the key.
pub proof fn law_get_frame_leaves_store(m: Map<Seq<u8>, Seq<u8>>, frame: FrameView)
    requires
        frame.header.command_name == MemcachedCommandName::Get,
    ensures
        handle_message_spec(m, frame).0 == m,
{
}

/// The answer to a `get` that finds data: `VALUE `, the key byte for byte, ` 0 `, the
/// length of the data in decimal (it reads back as that length), ` \r\n`, the data
/// byte for byte, and `\r\nEND\r\n`.
pub proof fn law_found_response_layout(key: Seq<u8>, value: Seq<u8>)
    requires
        value.len() <= u64::MAX,
    ensures
        exists|digits: Seq<u8>|
            #![trigger crate::decimal::parse_unsigned(digits, u64::MAX as nat)]
            found_response_text(key, value) == text("VALUE ") + key + text(" 0 ") + digits + text(
                " \r\n",
            ) + value + text("\r\nEND\r\n") && crate::decimal::parse_unsigned(digits, u64::MAX as nat)
                == Ok::<nat, crate::decimal::IntErrorKind>(value.len()),
{
    reveal_strlit("VALUE ");
    reveal_strlit(" ");
    reveal_strlit("0 ");
    reveal_strlit(" 0 ");
    reveal_strlit("\r\n");
    reveal_strlit(" \r\n");
    reveal_strlit("END\r\n");
    reveal_strlit("\r\nEND\r\n");
    let digits = decimal_encoding(value.len());
    crate::decimal::lemma_decimal_round_trip(value.len(), u64::MAX as nat);
    assert(found_response_text(key, value) =~= text("VALUE ") + key + text(" 0 ") + digits + text(
        " \r\n",
    ) + value + text("\r\nEND\r\n"));
}

} // verus!
