# pkgmk

A small builder for packages described by a PKGBUILD manifest, with its
manifest reader and its build bookkeeping verified with Verus.

- `src/` is the verified library:
  - `reader.rs`: a byte cursor and the byte classes it scans runs of;
  - `grammar.rs`: the grammar of a manifest as spec functions over its bytes;
  - `pkgbuild.rs`: `PkgBuild::parse`, which reads a manifest exactly as the
    grammar says and then expands `$pkgname`-style references;
  - `expand.rs`: reference expansion (through `aho-corasick`) and its laws;
  - `locality.rs`, `writing.rs`: laws about reading (what precedes a position
    does not matter; a manifest written from values reads back as them);
  - `state.rs`: when recorded build stages must be redone, and their order;
  - `error.rs`, `text.rs`, `sending.rs`, `progress.rs`, `args.rs`: errors,
    UTF-8 decoding, the record of counts sent,
    download progress counting and the command-line record.
- `app/` is the program: command line, files, downloads, running the scripts
  and storing the build record.
- `tests/` runs the library on concrete manifests and records.
