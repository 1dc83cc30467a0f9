# Pasque

Proxying IP and UDP over HTTP/3
([RFC 9484](https://datatracker.ietf.org/doc/html/rfc9484),
[RFC 9298](https://datatracker.ietf.org/doc/html/rfc9298)), with the decisions
of the server and of its tunnels verified by
[Verus](https://github.com/verus-lang/verus).

- `src/` is the verified library.
  - `stream/`: IP tunnels and the capsules on their streams, the endpoint that
    assigns addresses and advertises routes, its address pools, and how it serves
    a request step by step.
  - `server/`: what the server does with a packet, retry tokens and connection
    IDs, responses, endpoints and their configuration.
  - `net.rs`, `buffer.rs`, `bigendian.rs`, `table.rs`, `text.rs`, `error.rs`,
    `qlog.rs`: addresses and networks, reading and writing of network data,
    tables, texts and errors.
- `app/` is ordinary Rust around the library: sockets, TUN interfaces, QUIC
  connections and the JSON configuration.
- `tests/` runs the library with the crates that it depends on.

Functions whose names begin with `law_` state what holds of the library as a
whole, such as that a client reads out of an answer exactly the addresses and
routes that the server put into it. Functions marked `external_body` call other
crates; their comments say what is taken for granted of those.
