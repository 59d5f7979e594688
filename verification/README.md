# lazarus

The core of a backup tool, written and verified in Verus: encrypted, compressed and deduplicated
chunks, a catalog of snapshots, file and block-device backups and restores, retention and pruning,
and system fingerprints for bare-metal recovery.

- `src/` is the verified library. `primitives` holds the calls into other crates, with what is
  trusted of each; `catalog`, `snapshot`, `encryption` and `storage` hold the data and its rules;
  `chunking`, `compression` and `integrity` work on bytes; `capture` reads the facts of a host;
  `commands` and `agent` hold the decisions of the programs. `commands/round_trip` states that what
  a backup stores comes back, `commands/recording` how its rows build up, `commands/block_restore`
  that a block restore checks its target before it writes, `commands/journal` what each command
  leaves in the log, and `catalog/removal` what goes with a snapshot and what stays.
- `tests/` runs the library on concrete values.
- `app/` is the program around it: the command line, SQLite, files, tools and network.

Everything that a repository remembers is a table in memory in the library. The program reads the
tables when it opens a repository, and writes each change down once the library has accepted it.
