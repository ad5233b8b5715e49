# freemkv

The command-line logic of the freemkv disc backup tool as a verified library.

- `src/` — the library, verified with Verus: argument parsing and command
  selection (`cli`, `pipe`, `disc_info`, `info`), rip planning and the
  decisions of the copy and mux loops (`pipe`), the disc title list
  (`disc_info`), drive reports, `drive.toml`, issue text and the profile
  archive (`info`, `toml`, `base64`, `archive`), the read-check report
  (`verify`), the English message catalog (`strings`), the verbosity filter
  (`output`), and string helpers (`text`, `lang`).
- `tests/` — tests of the library.
- `app/` — the `freemkv` program around the library: drive, disc, file,
  network and terminal I/O through `libfreemkv`, logging, the signal handler
  and the floating-point progress display.
