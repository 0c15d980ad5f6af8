use decachedmem::memcached::parser::{MemcachedParseStateMachine, ParseErrorKind};
use decachedmem::memcached::stream::{protocol_step, ProtocolAction};
use decachedmem::crlf_delimited_stream::CrlfLineBuilder;
use decachedmem::socket_stream::byte_read;
use decachedmem::unpack::{UnpackBuffer, Unpacked, Upstream};

#[test]
fn lines_are_cut_at_crlf() {
    let mut builder = CrlfLineBuilder::new();
    let mut lines = Vec::new();
    for &b in b"ab\rc\r\nd\n\r\n" {
        if let Some(line) = builder.push_byte(b) {
            lines.push(line);
        }
    }
    assert_eq!(lines, vec![b"ab\rc\r\n".to_vec(), b"d\n\r\n".to_vec()]);
    assert_eq!(builder.push_byte(b'x'), None);
}

#[test]
fn unpack_hands_out_items_in_order() {
    let mut buffer: UnpackBuffer<u8> = UnpackBuffer::new();
    assert!(buffer.needs_input());
    match buffer.on_upstream(Upstream::Item(vec![1, 2, 3])) {
        Unpacked::Item(x) => assert_eq!(x, 1),
        _ => panic!("expected an item"),
    }
    assert!(!buffer.needs_input());
    assert_eq!(buffer.emit_next(), 2);
    assert_eq!(buffer.emit_next(), 3);
    assert!(buffer.needs_input());
    assert!(matches!(buffer.on_upstream(Upstream::NotReady), Unpacked::NotReady));
    assert!(matches!(buffer.on_upstream(Upstream::Finished), Unpacked::Finished));
}

#[test]
fn socket_read_outcome() {
    assert_eq!(byte_read(0, [7]), None);
    assert_eq!(byte_read(1, [7]), Some(7));
}

#[test]
fn protocol_step_decides_per_line() {
    let mut parser = MemcachedParseStateMachine::new();
    assert!(matches!(protocol_step(&mut parser, Upstream::NotReady), ProtocolAction::NotReady));
    assert!(matches!(protocol_step(&mut parser, Upstream::Finished), ProtocolAction::NotReady));
    assert!(matches!(
        protocol_step(&mut parser, Upstream::Item(b"set k 0 0 2\r\n".to_vec())),
        ProtocolAction::ReadNextLine
    ));
    match protocol_step(&mut parser, Upstream::Item(b"ab\r\n".to_vec())) {
        ProtocolAction::Frame(f) => assert_eq!(f.bytes, b"ab".to_vec()),
        _ => panic!("expected a frame"),
    }
    match protocol_step(&mut parser, Upstream::Item(b"oops\r\n".to_vec())) {
        ProtocolAction::Fail(e) => assert_eq!(e.kind(), ParseErrorKind::InvalidFrame),
        _ => panic!("expected a failure"),
    }
}

#[test]
fn unpack_polls_keep_batch_order() {
    let mut buffer: UnpackBuffer<u8> = UnpackBuffer::new();
    let batches = vec![vec![1u8, 2], vec![3u8], vec![4u8, 5, 6]];
    let mut out = Vec::new();
    let mut pending = batches.into_iter();
    for _ in 0..6 {
        if buffer.needs_input() {
            match buffer.on_upstream(Upstream::Item(pending.next().unwrap())) {
                Unpacked::Item(x) => out.push(x),
                _ => panic!("expected an item"),
            }
        } else {
            out.push(buffer.emit_next());
        }
    }
    assert_eq!(out, vec![1, 2, 3, 4, 5, 6]);
}
