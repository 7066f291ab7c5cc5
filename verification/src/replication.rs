//! Logical replication from one cluster to another.

pub mod add_shard;
pub mod change_laws;
pub mod codec;
pub mod context;
pub mod copy;
pub mod copy_statement;
pub mod cutover;
pub mod data_sync;
pub mod dependencies;
pub mod error;
pub mod hybrid;
pub mod layout_laws;
pub mod messages;
pub mod missed_rows;
pub mod move_keys;
pub mod orchestrator;
pub mod parallel_sync;
pub mod parameter_laws;
pub mod plan_laws;
pub mod presence;
pub mod publication;
pub mod publisher;
pub mod publisher_laws;
pub mod publishing_laws;
pub mod routing;
pub mod schema_sync;
pub mod sql_laws;
pub mod statements;
pub mod stream;
pub mod stream_laws;
pub mod stream_loop;
pub mod stream_runs;
pub mod subscriber_laws;
pub mod table;
pub mod tuple;
pub mod turn_laws;
pub mod value_laws;
pub mod wire;
pub mod write_laws;
