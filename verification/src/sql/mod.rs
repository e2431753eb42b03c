//! SQL journal: dialects, schema, the statements it runs, the rows it writes
//! and the hash chain that makes tampering evident.

pub mod dialect;
pub mod journal;
pub mod schema;
pub mod statement;
pub mod worm;
pub mod writer;

pub use dialect::{detect_dialect, SqlDialect};
pub use worm::{ChainHead, ChainProof, ChainRow, WormConfig};
