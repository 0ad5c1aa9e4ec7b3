//! Metadata engine of a language server that links HTML documents to the
//! stylesheets they reference.
//!
//! The crate parses CSS text into a style model, merges several stylesheets
//! into one deterministic projection in which every line knows its owner,
//! and keeps the records and the index of the tracked HTML documents and
//! stylesheets of a workspace consistent with the files on disk.
//!
//! The engine reads and writes no files: texts and what was found on disk
//! are handed to it, and it says what is to be written.

pub mod error;
pub mod file;
pub mod html;
pub mod keyed;
pub mod lexer;
pub mod memory;
pub mod metadata;
pub mod path;
pub mod ranked;
pub mod sorting;
pub mod text;
pub mod timestamp;
pub mod workspace;
