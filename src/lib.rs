//! An interpreter for a small tape-memory language: single-character opcodes
//! act on a sparse byte tape, a control stack drives the bracketed loop and
//! conditional constructs, and a value stack saves and restores cells.
pub mod tape;
pub mod semantics;
pub mod vm;
pub mod laws;
