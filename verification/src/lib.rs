//! A verified core for a `cat`-like text concatenation utility.
//!
//! The crate resolves raw command-line tokens into a canonical, deduplicated,
//! priority-ordered option sequence, and applies the resolved options to a
//! buffered text. File reading, argument capture and printing are left to the
//! surrounding program.

pub mod lines;
pub mod numeral;
pub mod options;
pub mod resolve;
pub mod text;
pub mod transform;
