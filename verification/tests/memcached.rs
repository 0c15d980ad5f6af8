use decachedmem::memcached::handler_stream::handle_message;
use decachedmem::memcached::parser::{MemcachedParseStateMachine, ParseErrorKind};
use decachedmem::memcached::store::Store;
use decachedmem::memcached::types::{
    Command, Key, MemcachedCommandName, MemcachedFrame, MemcachedFrameHeader, Reply, Request,
};

fn header(command_name: MemcachedCommandName, key: &[u8], byte_count: usize) -> MemcachedFrameHeader {
    MemcachedFrameHeader { command_name, key: key.to_vec(), flags: 0, exptime: 0, byte_count }
}

#[test]
fn store_get_after_set() {
    let mut store = Store::new();
    assert_eq!(store.get(&Key(b"a".to_vec())), None);
    store.set(Key(b"a".to_vec()), b"one".to_vec());
    store.set(Key(b"b".to_vec()), b"two".to_vec());
    assert_eq!(store.get(&Key(b"a".to_vec())), Some(b"one".to_vec()));
    store.set(Key(b"a".to_vec()), b"three".to_vec());
    assert_eq!(store.get(&Key(b"a".to_vec())), Some(b"three".to_vec()));
    assert_eq!(store.get(&Key(b"b".to_vec())), Some(b"two".to_vec()));
    assert_eq!(store.get(&Key(b"c".to_vec())), None);
}

#[test]
fn request_parts() {
    let mut req = Request::new(Command::SetValue, Key(b"k".to_vec()));
    req.set_body(b"v".to_vec());
    let (command, key, body) = req.into_parts();
    assert_eq!(command, Command::SetValue);
    assert_eq!(key, Key(b"k".to_vec()));
    assert_eq!(body, Some(b"v".to_vec()));
}

#[test]
fn reply_texts() {
    assert_eq!(Reply::stored().serialize(), b"STORED".to_vec());
    assert_eq!(Reply::not_found().serialize(), b"END".to_vec());
    assert_eq!(Reply::value(Key(b"key".to_vec()), 0).serialize(), b"VALUE key 3 0".to_vec());
    assert_eq!(
        Reply::value(Key(b"k".to_vec()), u64::MAX).serialize(),
        b"VALUE k 3 18446744073709551615".to_vec()
    );
}

#[test]
fn parser_get_line() {
    let mut parser = MemcachedParseStateMachine::new();
    let line = b"get foo 0 0 0\r\n".to_vec();
    assert!(parser.accepts(&line));
    let frame = parser.add_bytes(&line).unwrap().unwrap();
    assert_eq!(frame, MemcachedFrame::new(header(MemcachedCommandName::Get, b"foo", 0), Vec::new()));
}

#[test]
fn parser_set_then_data() {
    let mut parser = MemcachedParseStateMachine::new();
    assert!(parser.add_bytes(&b"set foo 7 9 5\r\n".to_vec()).unwrap().is_none());
    assert!(parser.add_bytes(&b"ab\r\n".to_vec()).unwrap().is_none());
    let frame = parser.add_bytes(&b"cd\r\n".to_vec()).unwrap().unwrap();
    let expected = MemcachedFrame::new(
        MemcachedFrameHeader {
            command_name: MemcachedCommandName::SetValue,
            key: b"foo".to_vec(),
            flags: 7,
            exptime: 9,
            byte_count: 5,
        },
        b"ab\r\nc".to_vec(),
    );
    assert_eq!(frame, expected);
    let frame = parser.add_bytes(&b"get foo 0 0 0\r\n".to_vec()).unwrap().unwrap();
    assert_eq!(frame.header.command_name, MemcachedCommandName::Get);
}

#[test]
fn parser_set_of_zero_bytes() {
    let mut parser = MemcachedParseStateMachine::new();
    assert!(parser.add_bytes(&b"set k 0 0 0\r\n".to_vec()).unwrap().is_none());
    let frame = parser.add_bytes(&b"\r\n".to_vec()).unwrap().unwrap();
    assert_eq!(frame.bytes, Vec::<u8>::new());
}

#[test]
fn parser_refuses_and_stays_refused() {
    let mut parser = MemcachedParseStateMachine::new();
    let err = parser.add_bytes(&b"delete foo 0 0 0\r\n".to_vec()).unwrap_err();
    assert_eq!(err.kind(), ParseErrorKind::InvalidCommand);
    assert_eq!(err.description(), "invalid memcached command sent");
    let err = parser.add_bytes(&b"get foo 0 0 0\r\n".to_vec()).unwrap_err();
    assert_eq!(err.kind(), ParseErrorKind::PreviousCallFailed);
    assert_eq!(err.description(), "In error state from previous call");
}

#[test]
fn parser_error_kinds() {
    let cases: Vec<(&[u8], ParseErrorKind, &str)> = vec![
        (b"get foo\r\n", ParseErrorKind::InvalidFrame, "invalid memcached frame passed to header"),
        (b"GET foo 0 0 0\r\n", ParseErrorKind::InvalidCommand, "invalid memcached command sent"),
        (b"set foo x 0 1\r\n", ParseErrorKind::InvalidDigit, "invalid digit found in string"),
        (b"set foo 0 0 \r\n", ParseErrorKind::EmptyNumber, "cannot parse integer from empty string"),
        (
            b"set foo 4294967296 0 1\r\n",
            ParseErrorKind::NumberTooLarge,
            "number too large to fit in target type",
        ),
        (b"set foo \xff 0 1\r\n", ParseErrorKind::InvalidUtf8, "invalid utf-8"),
        (b"set foo -1 0 1\r\n", ParseErrorKind::InvalidDigit, "invalid digit found in string"),
        (b"set foo + 0 1\r\n", ParseErrorKind::InvalidDigit, "invalid digit found in string"),
    ];
    for (line, kind, text) in cases {
        let mut parser = MemcachedParseStateMachine::new();
        let err = parser.add_bytes(&line.to_vec()).unwrap_err();
        assert_eq!(err.kind(), kind);
        assert_eq!(err.description(), text);
    }
}

#[test]
fn parser_accepts_flags_a_short_count_field() {
    let parser = MemcachedParseStateMachine::new();
    assert!(!parser.accepts(&b"set foo 0 0 1".to_vec()));
    assert!(parser.accepts(&b"set foo 0 0 1\r\n".to_vec()));
    assert!(parser.accepts(&b"bad foo 0 0 1".to_vec()));
}

#[test]
fn handler_answers_set_and_get() {
    let mut store = Store::new();
    let missing = handle_message(&mut store, MemcachedFrame::new(header(MemcachedCommandName::Get, b"foo", 0), Vec::new()));
    assert_eq!(missing, b"END\r\n".to_vec());
    let stored = handle_message(
        &mut store,
        MemcachedFrame::new(header(MemcachedCommandName::SetValue, b"foo", 4), b"abcd".to_vec()),
    );
    assert_eq!(stored, b"STORED\r\n".to_vec());
    let found = handle_message(&mut store, MemcachedFrame::new(header(MemcachedCommandName::Get, b"foo", 0), Vec::new()));
    assert_eq!(found, b"VALUE foo 0 4 \r\nabcd\r\nEND\r\n".to_vec());
}
