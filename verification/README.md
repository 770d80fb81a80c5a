# f_boom

A load generator for HTTP, WebSocket, gRPC and command-line benchmarks, with
its core written in Verus.

- `src/` is the verified library: request samples and how they are gathered
  into a result (`sample`, `collect`), the figures reported about a result
  (`stats`: mean, median, percentiles, modes, latency distribution), the
  statistics of command-line runs (`cli`), the configuration types (`config`,
  and `config_reader` for the layout where every list is optional), and the decisions that turn a
  configuration into benchmarks (`http`, `ws`, `grpc`, `process`, `raw`,
  `features`), on top of text helpers (`text`) and sequence facts (`seqs`).
- `app/` is the program: argument handling, reading the configuration file,
  the async benchmark loops over tokio, reqwest, tonic and tungstenite,
  process spawning, printing, and the floating-point parts of the
  statistics (rates, z-scores, Freedman-Diaconis bins).
- `tests/` exercises the library on concrete values.
