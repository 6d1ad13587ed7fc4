# cycbox

The verified core of an IoT debugging toolkit: the stream codecs (COBS, SLIP, line, timeout,
pass-through), the CBRT sample-frame decoder and its per-session state, the CSV and JSON
transformers, the hexdump and terminal formatters, the engine's scheduling, outbox, log and
control decisions, and the request checks of the scripting helpers (Discord, InfluxDB,
TimescaleDB, SMTP, ntfy, HTTP).

- `src/` is the library, written and proved with Verus. Each public function states its
  result in its `ensures`; the laws that relate several calls are public proof functions
  (`codec::cobs`, `codec::slip`, `codec::line`, `cbrt::laws`).
- `tests/` runs the library on concrete inputs.
- `app/` is the unverified layer around it: float parsing and float timing, clocks, and the
  threads that send delayed and repeating messages.

JSON text is parsed with `serde_json` behind a trusted wrapper that hands back the library's
own tree (`JsonValue`, numbers as integers or IEEE bits). The transformer flattens that tree
into `FlatMap`, a `Vec` kept sorted by key, in place of a `serde_json::Map`: that map only
holds `serde_json::Value`s, whose contents verified code cannot read, so the flattened map is
the library's own, with its order and unique keys proved.
