# vnc

The client side of the remote framebuffer (VNC) protocol, with its decisions and
its decoders verified by [Verus](https://github.com/verus-lang/verus).

The library does no I/O. It is handed the bytes that have arrived and says what
to do next.

- `src/config.rs`, `src/error.rs`, `src/event.rs`: versions, encodings, pixel
  formats, errors, and what passes between a client and its user.
- `src/input.rs`: the bytes that have arrived from the server.
- `src/codec/`: the decoders for raw and for tiled run-length encoded (TRLE)
  image data. `trle_format.rs` says what the format is, `trle_laws.rs` what
  holds of all image data in it.
- `src/client/connector.rs`: how a client is configured and let in;
  `connector_laws.rs` states what holds of every handshake.
- `src/client/init.rs`: how a client that has been let in gets started.
- `src/client/update.rs`: how messages of the server become events;
  `message_laws.rs` states what holds of all messages together.
- `src/client/connection.rs`: a client that runs, on the channels of `tokio`;
  `connection_laws.rs` states what holds of all its calls together, and of the
  task that serves it.
- `app/`: the client on a real connection, in ordinary Rust. The wire format of
  the other messages, and the decoders for other encodings, are handed in through
  the trait `Protocol`.

Names that begin with `law_` are theorems about the library as a whole.
