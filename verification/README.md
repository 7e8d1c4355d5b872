# n_ohlcv

A candlestick chart of exchange minute data (OHLCV), with a verified integer core.

* `src/` is the library, verified with Verus: decimal price parsing and the
  request address of the exchange, storage keys and the big-endian encoding of
  stored timestamps, storage blocks and chunk checks, grouping of minute records
  into bars and into hours, stable ordering, the windows fetched while
  synchronising, the grid spacing and label style of the time axis, zoom and pan of
  the visible range, the bounded list of status messages, frame-time statistics,
  the UTC hour and minute of a timestamp and the text of time labels through
  `chrono`, and LZMA2 compression through `xz2`.
* `app/` is the program around it: HTTP requests (`reqwest`), the `sled` store,
  `bincode` records, the local time zone (`chrono`), and the `eframe`/`egui`
  window, whose geometry, prices and volumes are floating point.
* `tests/` runs the library on concrete values.
