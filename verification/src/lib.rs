//! Reader library for BED-family genomic interval files.
//!
//! The library parses plain or block-compressed (BGZF) BED text into typed
//! records, loads Tabix (`.tbi`) indices, and answers region queries by
//! translating coordinate ranges into virtual-offset chunks. All I/O is left
//! to the caller: the functions here work on in-memory bytes and text.

pub mod bed;
pub mod codec;
pub mod error;
pub mod meta;
pub mod parser;
pub mod reader;
pub mod record;
pub mod store;
pub mod tabix;
pub mod voffset;
