//! A small memcached server core: request framing, header parsing, the key-value
//! store, and the wire encoding of replies.

pub mod bytes;
pub mod codec;
pub mod decimal;
pub mod easybuf;
pub mod memcached;
pub mod protocol;
pub mod service;
pub mod crlf_delimited_stream;
pub mod socket_stream;
pub mod unpack;
