# rescueforge

A disk-recovery toolkit whose logic is written in Verus and proved against its
contracts.

- `src/` — the verified library: parsers for MBR, GPT, NTFS (boot sector, MFT
  records, attributes, data runs, attribute lists), FAT, exFAT and ext volume
  probes, the Windows recycle bin metadata, RAW carving, and the decisions of
  the path scan (a state machine, `path_scan_step`, that decides which path or
  drive is searched next, what is reported and when the results are saved),
  the deleted-file scan, partition repair, disk imaging, privilege and
  single-instance logic, and the default settings. Public functions state in
  `ensures` what they return, except where the value comes from outside the
  program's own inputs: the cancel and pause flags, which other threads set,
  and whether the process runs as root. Laws that span several functions are
  public proof functions (`lemma_*`).
- `tests/` — tests that run the library on concrete values.
- `app/` — the program around the library: raw device and file-system I/O,
  the Windows API, the helper-process protocol (JSON over stdin/stdout), the
  settings database and the run log. It hands the library plain values and
  performs the actions the library decides on; progress inside a directory
  walk or a drive scan is reported from `app/` (it is floating point).

Outside crates: `nix` (the effective user id, behind one trusted wrapper in
`src/privilege.rs`), `serde`/`serde_json`, `rusqlite` and `tokio` (used by
`app/` only).
