//! A store of short texts, such as command lines, that are kept under keys in
//! one flat file.
//!
//! The store is read from its file when it is opened, works in memory, and is
//! written back as a whole when it is closed. This crate holds what the store
//! decides and computes, and proves it; reading and writing the file,
//! reading the command line, printing and running programs are left to the
//! program around it.
//!
//! - `format` and `round_trip`: the file format, and what is read back from
//!   a file that was written.
//! - `mapping`: the mapping from key to value in memory.
//! - `operations`: what adding, getting, removing and clearing do.
//! - `file_db`: the store that is kept in a file.
//! - `record`, `repository`, `queries`, `services`: records, and the
//!   repository of records with the services that run queries against it.
//! - `cli`: the commands of the command line.
//! - `error`: the failures.
//! - `text`: searching, cutting and joining text.

pub mod cli;
pub mod error;
pub mod file_db;
pub mod format;
pub mod mapping;
pub mod operations;
pub mod queries;
pub mod record;
pub mod repository;
pub mod round_trip;
pub mod services;
pub mod text;
