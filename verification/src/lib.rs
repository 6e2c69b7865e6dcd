//! A small full-text search engine: a lexer that splits text into upper-cased
//! alphanumeric terms, per-document term counting, the SQL statements that
//! persist an index, and the request and argument decisions of the server.

pub mod commons;
pub mod index;
pub mod database;
pub mod serve;
pub mod cli;
