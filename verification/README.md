# attohttpc

A lightweight HTTP/1.1 client whose logic is written in Verus and proved against its
contracts.

## Layout

- `src/` — the verified library. Requests are built (`request`, `session`, `body`,
  `multipart`, `lazy`), written out byte for byte (`PreparedRequest::write_request`),
  routed through proxies (`proxy`, `streams`), and responses are parsed from the bytes
  of the stream (`response`, `response_reader`, `body_reader`, `chunked_reader`,
  `length_reader`) and decoded to text (`charset`, `text_reader`). `legacy` keeps the
  simpler response parser of the first versions. `laws` states and proves properties
  that span several functions, such as that a chunked body written by the library is
  read back unchanged.
- `app/` — the command-line client around the library: sockets, TLS (native-tls), the
  happy-eyeballs connection race, timeouts, the environment, and serde.
- `tests/` — tests run against the compiled library.

Calls into outside crates (`http`, `url`, `encoding_rs`, `encoding_rs_io`, `flate2`,
`libflate`, `mime`, `openssl`) go through small trusted wrappers in `src/` whose doc
comments say what their contracts claim.
