//! The records that an index is stored as, and the SQL statements that store
//! them.

pub mod models;
pub mod queries;
