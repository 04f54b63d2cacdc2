# grpc_http3

A bridge that carries gRPC traffic over HTTP/3 on multipath QUIC, with its
decision logic verified by Verus.

## Layout

- `src/` — the verified library:
  - `token` — stateless retry tokens and their validation;
  - `conn` — how a server answers the first packet of an unknown connection,
    connection IDs derived with HMAC-SHA256, reactions to path events, fresh
    connection IDs;
  - `conn_ids` — the server's table from connection IDs to connections, and
    the numbering and clean-up of its connections;
  - `sched`, `order` — the multipath schedulers (`lrtt`, `lrtt2`, `normal`,
    `last`, random) and their per-connection memory;
  - `streams` — bodies that could not be written at once, on both ends;
  - `grpc` — gRPC frame boundaries seen in the bridged bytes;
  - `h3` — HTTP/3 headers and responses, decimal and hex rendering;
  - `io_plan` — socket address choices, datagram segmentation, ack-eliciting
    timers, duplicate sends;
  - `services` — the protocols, and the greeter, echo and file services as
    computations on plain messages;
  - `net`, `tcp` — socket addresses and TCP round-trip statistics.
- `tests/` — tests of the library on concrete values.
- `app/` — the program around the library: command line, sockets, the QUIC
  event loops (multipath bridge server and client, stream server,
  connector) and the gRPC byte streams.
