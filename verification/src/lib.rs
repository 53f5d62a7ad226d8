//! A small directory-listing library: entry descriptors, human-readable
//! size formatting, permission decoding, and verified filter/sort/render
//! assembly of one directory's entries.

pub mod cli;
pub mod list_item;
pub mod listing;
pub mod style;
pub mod text;
