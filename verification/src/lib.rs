//! Game asset loading library: a recursive directory walker with a pluggable
//! recognizer registry, a parser and slicer for the RSI sprite-sheet
//! interchange format (a versioned JSON manifest bundled with atlas images),
//! and a shared, atomically swapped asset store.
//!
//! Filesystem access is kept outside this crate: callers hand the walker an
//! in-memory snapshot of a directory tree as plain values, and the library
//! classifies, parses and stores the assets it finds there.

pub mod assets;
pub mod entities;
pub mod helpers;
pub mod rsi;
pub mod tree;
