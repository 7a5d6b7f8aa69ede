# tinyweb

A minimal, synchronous HTTP/1.1 server library, with Server-Sent Events and
WebSockets (RFC 6455).

The crate is split in two:

- `src/` is the library proper, written and proved with Verus: request
  parsing (request line, headers, URL-encoded forms, percent-decoding), the
  incremental request reader, response building and serialisation, access
  log formatting, Server-Sent Events text, WebSocket framing, reassembly and
  handshake, SHA-1, Base64 and HTTP dates. Every public function states what
  it returns in its contract, and the laws that tie functions together
  (a response head ends at its first blank line, a client frame reads back
  to its payload, fragmented messages are reassembled, an SSE data text
  survives the trip through `data:` lines, ...) are proof functions.
- `app/` is the unverified shell around it: sockets, timeouts, the thread
  pool, graceful shutdown and logging. It reads bytes, hands them to the
  library, and writes the bytes the library builds.

Durations in `Config` are in milliseconds.
