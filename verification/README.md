# pic_core

The verified core of `pic`, an explicit image-processing tool for agents: versioned JSON
results, PNG/JPEG input gates, geometry on pixel grids, layer stacks with groups and clips,
self-contained `.pic` projects with immutable history and undo/redo, and the checks that
text and its explicit font pass before layout. The cache rules (which checkpoint a replay
may start from, memory-cache admission and eviction) are verified here; the command-line
program does not keep a cache and replays every revision from its source.

- `src/` is the library. Its functions are verified by Verus against their
  `requires`/`ensures` contracts, except a few small marked wrappers around calls into
  std, `sha2`, `image`, `rustybuzz` and `unicode-script`, whose contracts are trusted; the public proof functions state the laws that hold across
  calls (undo and redo are inverse, a recorded commit reads back as the new tip, loaded
  commits are numbered in order, the normal form of a validated operation validates back to
  it, a flat snapshot decodes to what was encoded, a removed
  layer ID is never reused, and so on).
- `tests/` runs the library on concrete values.
- `app/` is the command-line program around the library: argument parsing, file and
  directory I/O, image encoding, floating-point samples, resampling and photo
  adjustments, and JSON envelopes.

Layout of `src/`:

| module | contents |
|---|---|
| `error`, `limits`, `text` | error codes, resource limits and admission, text helpers, font and text checks before layout |
| `codec` | format sniffing, PNG/JPEG metadata gates, EXIF orientation, decoding admission and orientation, encoder options |
| `operation` | operation wire format and strict parameter reading, exact JSON number ranges, the operation dispatcher and the normal form of an operation, geometry parameters, grid remapping, layer IDs, channels |
| `document` | target and revision IDs, layer hierarchy checks, stack order, structural edits and validation, render targets |
| `composite`, `capabilities`, `result`, `command` | blend modes, capability levels and the operation table, result schema, CLI requests |
| `pipeline` | pipeline admission, executed steps, resource path resolution |
| `project` | history, content-addressed storage names, snapshots, caches, templates, previews |
