# inertia-relayer

A relayer that stands between one validator, its block engine and a mirroring
server. Packets and bundles on their way to the validator are shown to the
mirroring server at once, held back for a tenth of a second, and passed on
without those that the server has blocked in the meantime.

The library under `src/` holds what the program decides and computes. It is
written in Verus: a function states what it does, and the statement is proved. What
rests with a clock, with chance or with the reader of a queue is left open, and a
function that takes it as an argument says what is done with it.

- `proxy` – what happens to packets and bundles on their way through: the pinned
  certificate (`cert_pin`), the signatures that are blocked (`filter_set`), the
  datagrams (`frame`, `packets`), the link to the mirroring server (`mirror`,
  `session`, `bundle_stream`, `stats`) and the delay (`delay`).
- `relayer` – forwarding to the validator: which packets go and in which batches
  (`batching`), the queue of the subscriber (`subscription`), the service itself
  (`forwarder`), keys, stakes and threads.
- `blockengine` – the local stand-in for a block engine.
- `rpc` – the feed of slots.
- `protos` – the messages as plain values.
- `table`, `text`, `clock`, `identity` – what the others build on.

Functions named `law_...` state what holds of several functions together.

The program under `app/` does the rest: sockets, threads, timers, gRPC, files and
logging. It uses `inertia_relayer` for every decision.

Functions that call other crates are marked `external_body`. Each has a comment
that says which function it calls and what is taken for granted of it.
