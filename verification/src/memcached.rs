//! The memcached side of the server: requests and replies, the store, the
//! line-based header parser and the handler that answers parsed frames.

pub mod types;
pub mod store;
pub mod parser;
pub mod handler_stream;
pub mod stream;
