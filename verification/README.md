# decachedmem

A small memcached server core, verified with Verus.

- `src/codec.rs`: the request codec of the framed transport (`GET`/`SET` lines, the
  data of a `SET`, reply lines), with its decoding laws.
- `src/memcached/`: requests and replies (`types`), the key-value store (`store`), the
  line-based header parser (`parser`) and the handler that answers parsed frames
  (`handler_stream`).
- `src/service.rs`, `src/protocol.rs`: answering requests against the store, and the
  codec each connection starts with.
- `src/crlf_delimited_stream.rs`, `src/unpack.rs`, `src/socket_stream.rs`: the state and
  decisions of the byte and line streams.
- `src/decimal.rs`, `src/bytes.rs`: decimal numbers and byte helpers.
- `app/main.rs`: the tokio and futures plumbing around the library.
