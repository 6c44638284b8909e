# libhttp3

The logic of an HTTP/3 client and server, verified with Verus.

- `src/frame.rs` reads length-prefixed binary frames: `[4-byte big-endian length][payload]`,
  at most 16 MiB each.
- `src/sse.rs` reads server-sent events. `src/event_laws.rs` states what holds of a whole
  stream, however it is cut into chunks; `src/event_lines.rs` states how its lines may end,
  and `src/event_wire.rs` how what a server writes is read back.
- `src/request.rs` and `src/client.rs` make the requests of a client; `src/exchange.rs`
  is the course of one request, and `src/response.rs` what becomes of its response.
- `src/connect.rs` is the set-up of a connection, from the CA certificates to the client.
- `src/identity.rs` and `src/server.rs` hold the certificate and key of a server, its
  settings, its close signal and the course of a connection; `src/server_laws.rs` states
  what a signal does to all of its connections.
- `src/stream.rs` and `src/text.rs` are shared by the others.
- `src/outside.rs` holds what is taken on trust: the contracts of the functions of other
  crates that the library calls.

The library performs no I/O. Where the transport is needed, a function takes in what the
transport has done and says what it is to do next. `app/` is the crate around it that
drives QUIC, TLS and HTTP/3.
