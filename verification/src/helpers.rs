//! Small string helpers shared across the library.

pub mod string;
