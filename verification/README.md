# mado_stats

A dashboard plugin for the Mado pixel protocol. It runs `tasku stats`,
reads the report, draws the figures as RGBA pixels and sends them to the
host as frames; resize events from the host redraw at the new size, and the
figures are fetched again every minute.

The library (`src/`) is verified with Verus:

- `chars`: whitespace, trimming, prefix and substring tests, decimal
  formatting and parsing of `u32`.
- `report`: removing ANSI escape sequences, and reading the report into a
  `Stats` record, line by line.
- `font`: the 5x7 bitmap font.
- `fill`: the filled width of a bar, stated on integers exactly as
  single-precision arithmetic rounds it.
- `canvas`: the RGBA canvas; every drawing operation is specified as painting
  a region of the plane in one colour.
- `layout`: the dashboard, specified as the list of drawing steps that
  `render` applies to a blank canvas.
- `regions`: what those steps can change: a bar row only its own rows, a
  summary cell only pixels right of and below its corner, the dashboard only
  pixels below its top margin and only in its palette.
- `protocol`: frame bytes, host events and the refresh interval.

`app/main.rs` is the process: threads, stdin, stdout, the shell command and
JSON decoding of events.
