# dd3

A live 3D view of the Docker daemon's containers in the terminal. This
crate is its verified core, written in Verus: every function in `src/`
carries a contract, and the library's laws are stated and proved as
proof functions beside the code they are about.

## Layout

- `src/action.rs` — key events to actions, per-frame coalescing of queued
  actions, the dispatch shared by both backends, and the held-key set of
  terminals that report key releases.
- `src/app.rs` — the empty-world banner gate (startup grace and debounce)
  and the palette cycle.
- `src/config.rs` — configuration values, defaults and the loader's
  decisions.
- `src/docker/` — the daemon-independent domain (snapshots, ports, status
  mapping), error classification, stats counters, inspect enrichment, image
  records, the rows of the Docker CLI's container listing, and the reactions
  to daemon events.
- `src/kitty.rs` — the kitty backend's frame decisions, the terminal
  geometry stability gate, the wire format (zlib, base64, chunked escape
  sequences) and the detail-popup text.
- `src/render3d/` — the braille framebuffer, the unit cube's topology and
  the sizing rules of derived primitives.
- `src/term/` — terminal capability tiers and cell geometry.
- `src/text.rs` — verified string helpers (decimal printing and parsing,
  joining, splitting, trimming, lines, prefixes).
- `app/` — the binary around the library: configuration files, environment
  and terminal queries, Docker I/O, and the floating-point parts
  (normalized stats percentages, byte-size formatting, popup placement).
  It reports the live container set as text: the 3D scene (world layout,
  camera, rasterizers and the kitty/braille frame loops that draw it) is
  not part of this crate, so no 3D view is drawn.
- `tests/` — the test suite, run against the compiled library.
