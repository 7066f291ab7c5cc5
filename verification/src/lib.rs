pub mod assoc;
pub mod cluster;
pub mod config;
pub mod replication;
pub mod rule_laws;
pub mod schema;
pub mod sharded_tables;
pub mod text;
pub mod text_laws;
