# rust_db_engine

A small database engine with a query language, tables that are only ever
appended to, a log of changes, recovery from that log, and replication between
nodes.

- `src/` is the engine as a library, verified with Verus: the parser, the
  schema and its rules, the rows of tables and the changes to them, queries and
  their replies, the log, recovery, replication, and authentication. Every
  function carries its contract. `src/outside.rs` holds the calls into other
  crates, whose contracts are taken on trust.
- `tests/` runs the library on concrete values.
- `app/` is the server: files, HTTP, the clock and the configuration, around the
  library.
