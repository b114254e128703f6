//! An append-oriented single-file block store.
//!
//! A store file is a fixed preamble followed by blocks. A block is a header
//! (payload length, state flags, a reserved forward address and a content
//! digest) immediately followed by its payload. This crate holds the format
//! and every decision of the store engine; it never touches a file itself.
//! The caller performs the reads, writes and seeks that the engine asks for
//! and hands back what came of them.

pub mod endian;
pub mod crypto;
pub mod error;
pub mod data_block;
pub mod data_header;
pub mod store;
pub mod image;
