# pgdog

The core of PgDog's resharding: moving a Postgres database from one set of shards
to another while it is in use. The library decides what is copied, streamed,
rewritten and switched over; its behaviour is stated in contracts and proved with
Verus.

- `src/schema/` rewrites a schema dump for a sharded destination: which statement
  runs in which phase, and which integer columns become `bigint`.
- `src/replication/` applies a logical replication stream, copies tables, validates
  publications, and moves traffic once the destination has caught up.
- `src/sharded_tables.rs`, `src/cluster.rs` and `src/config.rs` hold the sharding
  configuration that the rest reads.
- `src/text.rs` and `src/assoc.rs` are the building blocks: SQL text and maps with
  keys compared by contents.

Work that waits for something (a connection, an answer, a point in time) is written
as a state machine: it takes what happened and tells what is to be done. The code
that does it is in `app/`. The laws that hold across functions are the public proof
functions whose names start with `law_`.
