# cottdaw

The project model and engine logic of CottDAW, a digital audio workstation,
written as a Verus library: every function in `src/` carries a contract that
Verus proves.

- `src/` — the library: routing graph (`graph`, `dag`, `plan`, `routing`,
  `layout`, `migrate`), project and edits (`project`, `clips`, `notes`,
  `commands`, `session`, `shortcuts`), archives (`archive`), plugin catalog and
  IPC (`catalog`, `ipc`), transport and MIDI (`engine`, `time`, `schedule`,
  `import`), music helpers
  (`scale`, `piano`, `editor`), and shared model code (`keyed`, `vecs`, `text`,
  `ids`).
- `tests/` — tests run against the compiled library.
- `app/` — a command-line program around the library: reading and writing
  project archives (JSON manifests through serde, ZIP files), the built-in
  plugin search on disk, the bincode message layer, the floating-point parts
  (timing, node layout, automation curves, loop and bar arithmetic), and a
  headless engine loop.

Beat positions, gains and other real numbers are carried in the library as
the bit patterns of their `f64`/`f32` values; the library moves and compares
them but does no floating-point arithmetic, which is left to `app/`.
