//! Verified core of an artifact collector: resource selection, path and
//! text handling, listings, snapshot filtering and copy records.

pub mod text;
pub mod parser;
pub mod listing;
pub mod helper;
pub mod writer;
pub mod vss;
pub mod ntfs;
pub mod sector;
pub mod digest;
pub mod csv;
pub mod collect;
pub mod args;
