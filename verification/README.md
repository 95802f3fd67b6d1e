# y4p

A Wayland clipboard manager for `ext-data-control-v1`: a daemon that records
every selection into a SQLite history (large images in a cache directory,
deduplicated by SHA3-256 fingerprint), serves old records back to the
clipboard, and a strict command line to list, search, pin and restore them.

## Layout

- `src/` — the library, verified with Verus: the program's rules, each with
  its contract, except what is written in SQL (see `app/`):
  - `base/` — constants, the configuration file parser, MIME and payload
    utilities (markup stripping, image sniffing and repair, file-list
    normalisation), and the locations derived from the environment;
  - `cli/` — argument parsing, per-command argument checks, range and
    target resolution, search keywords, and the text of listings;
  - `storage/` — what is recorded and how, retention (pinned records are
    exempt from the cap and do not count against it), fingerprints, schema
    versions;
  - `daemon/` — the control socket's wire format, counters, and the MIME
    names a restored record is offered under;
  - `wayland/` — the monitor's state machine, format choice and ingestion
    jobs, egress decisions, and the scanners for compositor IPC replies;
  - `text.rs`, `num.rs`, `bytes.rs` — the character, number and byte
    helpers the rest is built on.
- `app/` — the program around the library: `main`, the SQLite store (its
  queries carry the keyword AND search, the promotion of a re-copied record
  to most recent, and the migration statements that the verified plan
  selects), the daemon's event loop, the Wayland protocol handlers and all
  other I/O.
- `tests/` — tests of the library's public functions.
