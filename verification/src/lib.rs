//! The verified core of a portable data movement tool. A load definition names
//! a source file and a destination; a load reads the source, decides a schema,
//! holds the rejected records to a threshold, writes the surviving records in
//! chunks through one destination session, and reports what happened.
//!
//! Nothing here reads, writes or waits by itself: what does is handed in by the
//! caller, as functions, iterators and implementations of the two destination
//! traits. What is called more than once stands behind an adapter that remembers
//! the calls, so that contracts can say which were made, and in which order. The
//! modules, from the bottom up:
//!
//! - `text`, `count`, `json`, `token`: texts, numbers, JSON values and names.
//! - `failure`, `destination`, `definition`: what loads are about.
//! - `lines`, `source`, `rejection`, `local_file`, `stream`, `first_read`:
//!   reading a source twice, and the records it rejects.
//! - `alignment`, `parquet`, `duckdb`, `sqlserver`, `connector`: destinations.
//! - `retry`, `session`, `dispatch`, `window`: the write phase.
//! - `schema`, `report`, `load`: a load as a whole.
pub mod alignment;
pub mod connector;
pub mod count;
pub mod definition;
pub mod destination;
pub mod dispatch;
pub mod duckdb;
pub mod failure;
pub mod first_read;
pub mod json;
pub mod lines;
pub mod load;
pub mod local_file;
pub mod parquet;
pub mod rejection;
pub mod report;
pub mod retry;
pub mod schema;
pub mod session;
pub mod source;
pub mod sqlserver;
pub mod stream;
pub mod text;
pub mod token;
pub mod window;
