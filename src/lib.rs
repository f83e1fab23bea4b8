//! A span-based rich-text formatting engine.
//!
//! A text buffer is partitioned into contiguous runs ("spans"), each carrying
//! a fully resolved style. The table supports querying the common style of a
//! range, applying a sparse style to a range, and splicing text, restoring
//! its invariants after every mutation.
pub mod format;
pub mod span;
pub mod model;
pub mod spans;
pub mod parse;
pub mod markup;
pub mod avm1;
pub mod property;
pub mod tag;
