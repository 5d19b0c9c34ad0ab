//! Incremental code indexing and hybrid retrieval.
//!
//! The library splits source files into overlapping, stably identified line
//! chunks, detects changes between indexing runs through content hashes,
//! resolves hierarchical ignore rules, and fuses lexical and vector search
//! results into one ranked list. File and database access stay outside the
//! library: callers hand in file contents, stored chunks and search results
//! as plain values and receive plain values back.

pub mod config;
pub mod embedding;
pub mod hashing;
pub mod indexing;
pub mod manifest;
pub mod pathfilter;
pub mod search;
pub mod splitter;
pub mod strutil;
