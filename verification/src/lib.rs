//! Duplicate-file detection engine.
//!
//! The engine finds files in a target directory tree that are byte-for-byte
//! copies of same-named files in a reference directory tree. It works on an
//! in-memory picture of the two trees: scanning, name indexing, content
//! comparison and the final deletion plan are all verified here, while the
//! surrounding command-line program walks the real filesystem, feeds the
//! engine, and carries out the plan.

pub mod compare;
pub mod dedup;
pub mod reference;
pub mod scan;
pub mod tree;
