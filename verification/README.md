# zone_sniper

Market-structure analysis for Binance spot pairs: candle series, the
price-horizon slices that matter for the current price, gap detection,
forward replay of trade opportunities, the analysis engine's job queue and
the bookkeeping around live prices.

Layout:

- `src/` is the library, written in Verus. Every function carries a
  contract and is proved against it. Prices and scores enter as order keys
  (integers that sort as the numbers do), so the library holds no floating
  point; the few calls into other crates sit behind small trusted wrappers
  whose doc comments say what is assumed of them.
- `tests/` runs the library on concrete inputs.
- `app/` is the command-line program around the library: exchange and
  websocket I/O, SQLite storage, the float formulas that turn prices into
  keys, and the main loop that feeds the engine.
