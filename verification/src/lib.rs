//! A minimal single-process table storage engine.
//!
//! Tables hold fixed-width rows in a custom binary file format: a header
//! (name, column definitions, row count) followed by page-aligned row
//! storage. The engine itself is pure: every operation either decodes
//! bytes handed to it or produces the positioned writes (`DiskWrite`)
//! that a thin I/O shell applies to the table file. This keeps the
//! byte-exact offset arithmetic, page bookkeeping and codecs fully
//! verified, while file handles and memory maps stay outside.

pub mod column;
pub mod database;
pub mod disk;
pub mod errors;
pub mod laws;
pub mod layout;
pub mod query;
pub mod table;
