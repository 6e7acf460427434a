# scuffle (verified core)

The protocol and tooling logic of the scuffle crates, written in Verus and
proved against its contracts.

- `src/` — the verified library:
  - `error`, `headers`, `proto`, `text`, `bytes_util`: the error type, the
    header list model of an HTTP header map, and the HTTP/1 wire format.
  - `h1`, `h1_body`, `h1_send`: HTTP/1 request heads, the request body
    decoder and the response body encoder.
  - `h2_body`: the states of HTTP/2 request and response bodies.
  - `tcp_util`, `tcp_config`, `server`: TLS sniffing, protocol sniffing with
    replay, connection settings, ALPN and backend choice.
  - `rtmp`: the parser of RTMP messages, with AMF0 command decoding.
  - `body`, `bootstrap`, `profile_picture`, `postcompile`: smaller
    pieces of the other crates.
  - `powerset`, `combinations`, `package_features`: the feature power set of
    the workspace tool.
- `tests/` — tests on concrete values.
- `app/` — the I/O around the library: request-head and body readers,
  response writers, TLS and protocol sniffing over sockets, `http_body` and
  `tokio` trait impls, process spawning, and the serde form of the power-set
  metadata. The accept loops and the per-connection serve loops of the
  servers are not part of it.
