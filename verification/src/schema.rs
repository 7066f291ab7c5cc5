//! The schema of a source database, and how it is restored on the shards of a
//! destination.

pub mod ast;
pub mod clean;
pub mod collapse;
pub mod columns;
pub mod dump;
pub mod dump_laws;
pub mod error;
pub mod laws;
pub mod partitions;
pub mod pg_dump;
pub mod phase_laws;
pub mod widening_laws;
