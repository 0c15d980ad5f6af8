//! The frames of a stream of CRLF-terminated lines: what each answer of the line stream
//! leads to.

use vstd::prelude::*;
use crate::memcached::parser::{
    MemcachedParseError, MemcachedParseStateMachine, accepts_line, add_bytes_spec,
};
use crate::memcached::types::MemcachedFrame;
use crate::unpack::Upstream;

verus! {

/// What the frame stream does after one answer of the line stream.
pub enum ProtocolAction {
    /// A frame is complete: hand it out.
    Frame(MemcachedFrame),
    /// The line was refused: fail with this error.
    Fail(MemcachedParseError),
    /// The line was taken and no frame is complete yet: read the next line.
    ReadNextLine,
    /// No line is ready (or the line stream has ended): report that nothing is ready.
    NotReady,
}

/// Feeds one answer of the line stream to the parser. A line goes to `add_bytes`, and
/// its answer decides: a frame is handed out, an error fails the stream, otherwise the
/// next line is read. A line stream that is not ready, or has ended, leaves the parser
/// as it is and is reported as not ready.
pub fn protocol_step(parser: &mut MemcachedParseStateMachine, event: Upstream<Vec<u8>>) -> (r: ProtocolAction)
    requires
        event matches Upstream::Item(line) ==> accepts_line(old(parser)@, line@),
    ensures
        match event {
            Upstream::Item(line) => {
                let (next, result) = add_bytes_spec(old(parser)@, line@);
                &&& final(parser)@ == next
                &&& match result {
                    Ok(Some(f)) => r matches ProtocolAction::Frame(x) && x@ == f,
                    Ok(None) => r is ReadNextLine,
                    Err(e) => r matches ProtocolAction::Fail(x) && x@ == e,
                }
            },
            _ => final(parser)@ == old(parser)@ && r is NotReady,
        },
{
    match event {
        Upstream::Item(line) => match parser.add_bytes(&line) {
            Ok(Some(frame)) => ProtocolAction::Frame(frame),
            Ok(None) => ProtocolAction::ReadNextLine,
            Err(e) => ProtocolAction::Fail(e),
        },
        Upstream::Finished => ProtocolAction::NotReady,
        Upstream::NotReady => ProtocolAction::NotReady,
    }
}

} // verus!
