# vgplay

A fast, minimal sound player for Windows: double-click a WAV, MP3, FLAC or OGG
file and a small window plays it, with a waveform, a playback cursor, a
play/pause and a repeat button, and a status line, all drawn by hand on the CPU.

The decisions and the exact computations live in a library verified with Verus
(`src/`); the program around it (`app/`) does the windowing, audio, decoding,
registry and pipe I/O, and the floating-point drawing.

## Layout

- `src/ascii.rs` — ASCII case mapping and character helpers.
- `src/raster.rs` — clipped rectangle fills, color layout conversion, and the
  envelope buckets each pixel column covers.
- `src/font.rs` — the 5×7 bitmap font and text drawing, width and fitting.
- `src/files.rs` — which files are sounds, and stepping to the previous/next
  sound of a folder in the file list's order.
- `src/order.rs` — the natural, digit-aware, case-insensitive name order.
- `src/status.rs` — the status line and the source bit depth.
- `src/settings.rs` — the remembered window size.
- `src/assoc.rs` — the registry writes that register and unregister the player.
- `src/launch.rs` — command-line dispatch and the single-instance handoff:
  the pipe name, the bytes sent and read back, and the arbitration between
  launches (retrying a busy pipe, what creating the pipe came to, when to
  retry, serve, play standalone or exit).
- `src/envelope.rs` — the bounded per-channel waveform envelope: its bucket
  bookkeeping and the lanes it fills, halves and flushes.
- `src/player.rs` — the player's state machine: event in, next state and
  actions out.
- `src/icon.rs` — the window icon from an encoded image.
- `tests/` — tests of the library on concrete values.
- `app/main.rs` — the executable.
