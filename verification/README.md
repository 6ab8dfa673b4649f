# bmpwatch

BMP (RFC 7854) stream monitoring and diagnostics: the `bmpwatch` library,
verified with Verus, and the `bmpwatch` program around it.

## Layout

- `src/` — the library, verified by Verus. Public functions state what
  they return in `ensures` contracts (a few small helpers only carry the
  facts their callers need); the few calls into outside crates sit behind
  small trusted wrappers whose doc comments say what they claim.
  - framing and decoding: `raw_bmp` (RFC 7854 frames, per-peer headers,
    TLVs, statistics), `obmp_reader` / `obmp_writer` (the `.bmpd`
    container and OpenBMP headers), `bgp` (UPDATE contents via
    `bgpkit-parser`), `prefix` (IPv4/IPv6 prefix text);
  - diagnostics: `doctor` (a run over a capture: counters, peer sessions,
    findings with a cap), `lint`, `state`, `event` (JSONL records),
    `report` (buckets, lifecycle, health, peer ranking, the JSON summary),
    `inspect` (the text of the `inspect` report, line by line), `rolling`
    (the rolling window of replay mode);
  - the live dashboard's model: `dashboard` (what each Kafka message, key
    and tick does), `flaps` (the Prefix Flaps panel), `browser` (the
    stream browser: search, selection, keys, mouse), `names` and
    `asnames` (AS names), `rpki` (ROA validation, RTR sessions, the cache
    file), `panels` (the text of the message log with its RPKI hints, the
    Prefix Flaps panel and the browser's lists, as coloured pieces),
    `peering`, `kafka`, `topics`;
  - `cli` (what a command line asks for), `input`, `error`, `text`,
    `textparse`.
- `app/` — the program: argument parsing, files, terminal (ratatui),
  Kafka, HTTP and TCP. It hands plain values to the library and prints or
  sends what comes back. Linked as `record_openbmp_kafka`, it records a
  Kafka stream to a `.bmpd` file.
- `tests/` — tests of the library through its public interface.

Laws of the library (for example: a `.bmpd` container decodes back to the
records written, the RPKI cache file reads back the table saved, the
dashboard's log stays within its bound, sorted listings are ordered
permutations) are public proof functions named `law_*`.
