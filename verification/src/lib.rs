//! Backup, restore and deletion of single files inside one working
//! directory, with no way out of it.
//!
//! The library decides and the caller acts. `sanitizer` turns a filename that
//! a user typed into a path inside the working directory, or refuses it;
//! `operations` says which copy or removal an operation comes to, and what
//! its result is once the filesystem has answered; `journal` writes the line
//! that records it. `path` and `text` hold the grammar of paths and the
//! handling of characters that the others are built on, `error` the ways to
//! fail, and `store` the laws of the operations on a model of the filesystem.
//!
//! No function here reads or writes a file, and none panics.

pub mod error;
pub mod journal;
pub mod operations;
pub mod path;
pub mod sanitizer;
pub mod store;
pub mod text;
