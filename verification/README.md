# fds_tbx

Readers and helpers for the output of the Fire Dynamics Simulator (FDS), written in Verus:
every function of the library states its behaviour in `requires` / `ensures` and is proved
against it, but for a few small trusted wrappers around calls into other code, whose contracts
are taken as given: the `csv` reader (`formats/csv_records.rs`), `byteorder`'s little-endian
reads and `String::from_utf8` (`formats/read_ext.rs`), and the conversions between `str` and
characters (`text.rs`).

## Layout

- `src/` — the verified library.
  - `formats/smv/` — the `.smv` simulation description: a lexer over characters, the grammar of
    every section as spec functions (`sections.rs`, `mesh.rs`, `values.rs`), the readers proved
    to follow it (`reader.rs`), and the model they fill (`model.rs`).
  - `formats/devc.rs` — device files (`_devc.csv`), read through the `csv` crate; joining the
    device lists of several files.
  - `formats/slice.rs`, `formats/read_ext.rs` — binary slice files and the Fortran record
    reader under them (byte order through `byteorder`); `formats/s3d.rs` for 3D smoke headers.
  - `common/` — ranges, array statistics, and arrays and time series of values; `geom.rs` —
    axes, vectors and boxes.
  - `cached.rs` — the decisions of a fetch-once cache.
  - `series_label.rs` — the layout of a chart legend.
  - The public proof functions named `law_*` state properties that hold across calls.
- `tests/` — tests of the library, run against the compiled crate.
- `app/` — the command-line program: argument handling, file reading, time units (`uom`), and
  drawing with `plotters`.
