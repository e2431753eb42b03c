pub mod actor;
pub mod buffer;
pub mod calendar;
pub mod cluster;
pub mod cluster_tools;
pub mod crdt;
pub mod fix;
pub mod money;
pub mod ordmap;
pub mod patterns;
pub mod persistence;
pub mod scan;
pub mod seqs;
pub mod sql;
pub mod streams;
pub mod telemetry;
pub mod text;
pub mod time;
