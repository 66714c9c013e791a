//! Repair engine for indentation-significant key/value markup.
//!
//! The library takes a block of text that was meant to be strict
//! block-style markup (mappings and sequences nested by whitespace
//! width) and repairs two common classes of defects: inconsistent
//! indentation and duplicated mapping keys.  A strict external parser
//! is used only as a pass/fail oracle on the candidate text.

pub mod dedupe;
pub mod extract;
pub mod models;
pub mod normalize;
pub mod prompt;
pub mod repair;
pub mod text;
