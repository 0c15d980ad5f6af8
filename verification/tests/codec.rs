#![allow(deprecated)]

use decachedmem::codec::{CodecError, MemcachedCodec};
use decachedmem::memcached::types::{Command, Key, Reply, Request};
use decachedmem::protocol::MemcachedProto;
use tokio_core::io::EasyBuf;

#[test]
fn decode_get_works() {
    let mut codec = MemcachedCodec::new();
    let mut buf = EasyBuf::from("GET foo\r\n".as_bytes().to_vec());

    let result = codec.decode(&mut buf);

    let frame = result.unwrap().unwrap();
    assert_eq!(frame, Request::new(Command::Get, Key("foo".as_bytes().to_vec())));
}

#[test]
fn decode_get_with_trailing_space_works() {
    let mut codec = MemcachedCodec::new();
    let mut buf = EasyBuf::from("GET foo \r\n".as_bytes().to_vec());

    let result = codec.decode(&mut buf);

    let frame = result.unwrap().unwrap();
    assert_eq!(frame, Request::new(Command::Get, Key("foo".as_bytes().to_vec())))
}

#[test]
fn multiple_decode_works() {
    let mut codec = MemcachedCodec::new();
    let mut buf = EasyBuf::from("GET foo\r\n".as_bytes().to_vec());

    let result = codec.decode(&mut buf);
    let frame = result.unwrap().unwrap();
    assert_eq!(frame, Request::new(Command::Get, Key("foo".as_bytes().to_vec())));

    let mut buf = EasyBuf::from("GET foo2\r\n".as_bytes().to_vec());

    let result = codec.decode(&mut buf);
    let frame = result.unwrap().unwrap();

    assert_eq!(frame, Request::new(Command::Get, Key("foo2".as_bytes().to_vec())));
}

#[test]
fn set_works() {
    let mut codec = MemcachedCodec::new();
    let mut buf = EasyBuf::from("SET foo flag 0 4\r\nabcd\r\n".as_bytes().to_vec());

    let _ = codec.decode(&mut buf);
    let result = codec.decode(&mut buf);
    let frame = result.unwrap().unwrap();

    let mut expected = Request::new(Command::SetValue, Key("foo".as_bytes().to_vec()));
    expected.set_body(b"abcd"[..].to_vec());
    assert_eq!(frame, expected);
}

#[test]
fn set_then_get_works() {
    let mut codec = MemcachedCodec::new();
    let mut buf = EasyBuf::from("SET foo flag 0 4\r\nabcd\r\nGET foo\r\n".as_bytes().to_vec());

    let _ = codec.decode(&mut buf);
    let result = codec.decode(&mut buf);
    let frame = result.unwrap().unwrap();
    let mut expected = Request::new(Command::SetValue, Key("foo".as_bytes().to_vec()));

    expected.set_body(b"abcd"[..].to_vec());

    assert_eq!(frame, expected);

    let result = codec.decode(&mut buf);
    let frame = result.unwrap().unwrap();
    assert_eq!(frame, Request::new(Command::Get, Key("foo".as_bytes().to_vec())));
}

#[test]
fn decode_waits_for_a_whole_line() {
    let mut codec = MemcachedCodec::new();
    let mut buf = EasyBuf::from("GET fo".as_bytes().to_vec());
    assert_eq!(codec.decode(&mut buf).unwrap(), None);
    assert_eq!(buf.as_slice(), b"GET fo");
}

#[test]
fn decode_leaves_the_next_request_in_the_buffer() {
    let mut codec = MemcachedCodec::new();
    let mut buf = EasyBuf::from("GET a\r\nGET b\r\n".as_bytes().to_vec());
    let frame = codec.decode(&mut buf).unwrap().unwrap();
    assert_eq!(frame, Request::new(Command::Get, Key(b"a".to_vec())));
    assert_eq!(buf.as_slice(), b"GET b\r\n");
}

#[test]
fn decode_get_of_empty_key() {
    let mut codec = MemcachedCodec::new();
    let mut buf = EasyBuf::from("GET \r\n".as_bytes().to_vec());
    let frame = codec.decode(&mut buf).unwrap().unwrap();
    assert_eq!(frame, Request::new(Command::Get, Key(Vec::new())));
}

#[test]
fn decode_set_waits_for_its_data() {
    let mut codec = MemcachedCodec::new();
    let mut buf = EasyBuf::from("SET k 0 0 5\r\nab".as_bytes().to_vec());
    assert_eq!(codec.decode(&mut buf).unwrap(), None);
    assert_eq!(codec.decode(&mut buf).unwrap(), None);
    assert_eq!(buf.as_slice(), b"ab");
}

#[test]
fn decode_set_with_a_plus_signed_count() {
    let mut codec = MemcachedCodec::new();
    let mut buf = EasyBuf::from("SET k 0 0 +2\r\nxy\r\n".as_bytes().to_vec());
    assert_eq!(codec.decode(&mut buf).unwrap(), None);
    let frame = codec.decode(&mut buf).unwrap().unwrap();
    let mut expected = Request::new(Command::SetValue, Key(b"k".to_vec()));
    expected.set_body(b"xy".to_vec());
    assert_eq!(frame, expected);
}

#[test]
fn decode_unknown_command_errs_for_good() {
    let mut codec = MemcachedCodec::new();
    let mut buf = EasyBuf::from("DEL foo\r\nGET foo\r\n".as_bytes().to_vec());
    assert_eq!(codec.decode(&mut buf), Err(CodecError::InErrorState));
    assert_eq!(buf.as_slice(), b"GET foo\r\n");
    assert_eq!(codec.decode(&mut buf), Err(CodecError::InErrorState));
    assert_eq!(buf.as_slice(), b"GET foo\r\n");
    assert_eq!(CodecError::InErrorState.description(), "Codec is in error state");
}

#[test]
fn decode_line_without_key_errs() {
    let mut codec = MemcachedCodec::new();
    let mut buf = EasyBuf::from("GET\r\n".as_bytes().to_vec());
    assert_eq!(codec.decode(&mut buf), Err(CodecError::InErrorState));
}

#[test]
fn decode_set_without_count_errs_but_continues() {
    let mut codec = MemcachedCodec::new();
    let mut buf = EasyBuf::from("SET foo 0 0 x\r\nGET foo\r\n".as_bytes().to_vec());
    assert_eq!(codec.decode(&mut buf), Err(CodecError::InvalidByteCount));
    assert_eq!(
        CodecError::InvalidByteCount.description(),
        "didn't get a valid byte count with a set request"
    );
    let frame = codec.decode(&mut buf).unwrap().unwrap();
    assert_eq!(frame, Request::new(Command::Get, Key(b"foo".to_vec())));
}

#[test]
fn decode_accepts_checks_the_data_line_end() {
    let mut codec = MemcachedCodec::new();
    let mut buf = EasyBuf::from("SET k 0 0 2\r\nxy".as_bytes().to_vec());
    assert!(codec.accepts(&buf));
    assert_eq!(codec.decode(&mut buf).unwrap(), None);
    assert!(!codec.accepts(&buf));
    let buf = EasyBuf::from("x".as_bytes().to_vec());
    assert!(codec.accepts(&buf));
}

#[test]
fn encode_writes_a_line() {
    let mut codec = MemcachedCodec::new();
    let mut out = b"x".to_vec();
    codec.encode(Reply::stored(), &mut out);
    assert_eq!(out, b"xSTORED\r\n".to_vec());
    let mut out = Vec::new();
    codec.encode(Reply::value(Key(b"foo".to_vec()), 1234), &mut out);
    assert_eq!(out, b"VALUE foo 3 1234\r\n".to_vec());
    let mut out = Vec::new();
    codec.encode(Reply::not_found(), &mut out);
    assert_eq!(out, b"END\r\n".to_vec());
}

#[test]
fn protocol_codec_starts_fresh() {
    let proto = MemcachedProto::new();
    let mut codec = proto.new_codec();
    let mut buf = EasyBuf::from("GET z\r\n".as_bytes().to_vec());
    let frame = codec.decode(&mut buf).unwrap().unwrap();
    assert_eq!(frame, Request::new(Command::Get, Key(b"z".to_vec())));
}
