//! Flattens a directory tree, given as a list of visited entries, into one
//! textual document: a tree listing followed by the numbered contents of every
//! non-excluded file, together with a token count of the result.

pub mod text;
pub mod ignore;
pub mod walk;
pub mod render;
pub mod progress;
pub mod file_tree;
pub mod summary;
