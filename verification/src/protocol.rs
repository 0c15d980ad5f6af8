//! The server protocol: every connection is framed by a fresh codec.

use vstd::prelude::*;
use crate::codec::{CodecState, CodecView, MemcachedCodec};

verus! {

/// The memcached protocol of the server.
pub struct MemcachedProto {}

impl MemcachedProto {
    pub fn new() -> Self {
        MemcachedProto {}
    }

    /// The codec that frames a newly bound connection: one awaiting its first request
    /// line.
    pub fn new_codec(&self) -> (r: MemcachedCodec)
        ensures
            r@ == (CodecView { state: CodecState::AwaitingHeader, partial: None, bytes_to_read: None }),
    {
        MemcachedCodec::new()
    }
}

} // verus!
