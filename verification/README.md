# ketu

A gateway that routes prompts to several local model backends. The library
(`src/`) holds the decisions, each with a contract checked by Verus:

- `analyzer`: prompt complexity score and class.
- `backend`: weighted round-robin selection over the backends, passing over an
  excluded address and slow backends; token counts per backend.
- `rate`: per-client request counts in one-minute windows.
- `health`: which backends are marked slow.
- `routing`: what happens to one request: admission, attempts, failover to the
  peer router, final status.
- `cluster`: starting role and heartbeat bookkeeping for the peer router.
- `headers`: the forwarding flag and the client address read from headers.
- `benchmark`, `ollama`: the benchmark prompt set and scoring; backend and peer
  addresses.
- `text`, `keyed`: character and small-map helpers.

The tables keyed by text (token counts, request counts, slow marks) are lists
of pairs without repeated keys, viewed as maps. vstd's specification of
`std::collections::HashMap` holds only for key types that obey its key model,
which vstd establishes for integer and boolean keys and not for `String`;
for a `String` key it would have to be assumed, which this crate does not do.

`app/` is the HTTP server (axum), the backend client (reqwest), configuration
loading and the benchmark client (`--benchmark`); it performs the I/O and follows the library's
decisions.
