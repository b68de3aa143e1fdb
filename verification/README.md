# skyd

Verified core pieces of the Skytable database server, written in Verus.

- `src/checksum.rs`, `src/scanner.rs`: CRC-64/XZ and a byte cursor.
- `src/data.rs`, `src/persist.rs`, `src/map.rs`, `src/field.rs`: the on-disk format of
  data cells, generic dictionaries and field maps, with encoders, decoders and proofs
  that decoding what was encoded gives it back.
- `src/fs.rs`, `src/rw.rs`: the file-system interface of the storage engine (with a
  record of the operations made on each open file), an in-memory file, storage files and
  a reader that tracks its position, the bytes it has read and a checksum of them.
- `src/ql.rs`, `src/select.rs`: query-language tokens, the token cursor, and the
  `select` statement parser.
- `src/config.rs`, `src/text.rs`: command-line and environment configuration and its
  validation.
- `src/actions.rs`: what the `HEYA` and `MPOP` actions answer.
- `src/harness.rs`: the test harness's run of a task against the servers and its waits
  for server startup, shutdown and exit, as state machines.
- `app/`: the program around the library: reading the command line, environment and
  TLS files, and running the harness (processes, sockets, sleeps).
- `tests/`: tests of the library.
