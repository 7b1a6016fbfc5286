# tick_compare

TickScope compares the FX ticks that several MetaTrader 5 terminals stream
to it over loopback TCP, one broker per terminal: it merges the feeds by
receive time, keeps candles per broker, watches for sequence gaps, detects
moves that several brokers make together and measures which broker moves
first.

The library under `src/` is written in Verus and verified:

- `contracts/` — identifiers, frames, records, health, configuration and its
  validation, CRC-32C and little-endian helpers.
- `protocol/` — the wire format: headers, tick records, frame encoding and
  the streaming frame decoder.
- `transport/` — connection framing: the route handshake, batch
  acknowledgements and received-frame stamping.
- `storage/` — the binary tick log: record encoding, file headers, the
  per-broker daily router and the reader.
- `tick/` — UTC normalisation, the sequence ledger, broker channels and the
  watermark merge, per-feed frame processing, candles, the one-to-one move
  matcher, the ingress pipeline that ties them together, and the time
  windows of the live view (quote freshness, pair skew).
- `metrics/` — quote geometry classes, multi-broker move clusters and
  breadth, repricing persistence, hypothesis categories and latency
  percentiles.
- `ui/`, `cli.rs`, `logging.rs`, `runtime/` — the selections of the
  dashboard, the command line, log line formatting, the run clock and the
  text of the files deployed to the MT5 terminals and when they are
  deployed.

`app/` is the program around it: threads, sockets, files, the egui window
and the floating-point analytics of quotes, all driving the library.
