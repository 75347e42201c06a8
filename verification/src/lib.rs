//! Decoding, reconstruction and indexing of memory-allocator captures.
pub mod allocation;
pub mod command;
pub mod database;
pub mod load;
pub mod memsnap;
pub mod messages;
pub mod ranking;
pub mod reader;
pub mod repl;
pub mod report;
pub mod snapshot;
pub mod sorting;
pub mod text;
pub mod utils;
pub mod wire;
pub mod words;
