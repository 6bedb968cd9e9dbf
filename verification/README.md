# mdfwob

Market-data analysis over FWOB files of trade ticks and OHLCV bars: resampling, indicators,
corporate-action adjustment, listings and summaries, and the decisions behind downloading and
serving them.

- `src/` is the library. Every function in it is verified by Verus against its contract. Prices are
  whole units of 1/10,000; text is modelled as the sequence of its characters.
- `tests/` exercises the library on concrete values, with the outside crates it calls.
- `app/` is the `mdfwob` program: files, the terminal, the network, and floating-point arithmetic.

The contracts of outside crates that the library relies on stand in `civil.rs` (calendar and time
zones), `render.rs` and `output.rs` (the frame formatter), `fwob_options.rs` (writer defaults),
`json.rs` (JSON strings) and `mcp/server.rs` (base64). What relates several functions is stated by
public proof functions, most of them in `resample_laws.rs`, `calendar_laws.rs`, `stat_laws.rs`,
`feed_laws.rs`, `fill_laws.rs`, `sidecar.rs`, `adjust.rs` and `frames.rs`.
