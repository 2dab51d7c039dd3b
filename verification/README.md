# Roxy

A minimal terminal HTTP intercepting proxy, written as a Verus-verified
library (`src/`) and a thin program around it (`app/`).

The proxy listens on `127.0.0.1:8080`. With interception on, requests are
held and shown in the terminal, where they can be forwarded, edited in
`$EDITOR` (with `Content-Length` recalculated) or copied to repeater tabs
and sent again.

## Layout

- `src/text.rs` — searching, splitting, trimming, case folding and decimal
  numbers over `Seq<char>`.
- `src/bridge.rs` — the calls into `httparse`, `url` and std's lossy UTF-8
  decoding, each behind one trusted wrapper.
- `src/http.rs` — requests: reading them from bytes, writing them out,
  rebuilding them from edited text, and deciding when a message is complete.
- `src/editing.rs` — the proof that a request's text edits back to the
  same request.
- `src/app.rs`, `src/popups.rs`, `src/repeater.rs`, `src/events.rs` — the
  interface's state and its answer to every key and proxy event.
- `src/proxy.rs` — the proxy's decisions for connections and interface
  messages.
- `app/` — sockets, the terminal, the editor and the event loops.
- `tests/` — tests on concrete values.
