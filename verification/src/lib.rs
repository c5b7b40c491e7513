//! Streaming replacement of escape-sequence tokens in a byte stream.
//!
//! Given a table mapping escape tokens to replacement strings, the library
//! scans an input stream block by block, recognizes token occurrences that
//! may straddle block boundaries, and emits an ordered, lossless partition
//! of the stream into literal runs and matched runs, the latter replaced by
//! their mapped value.

pub mod error;
pub mod scan;
pub mod table;
pub mod conversion;
pub mod paths;
pub mod config;

use vstd::prelude::*;

verus! {

/// The reserved byte that introduces every recognized escape sequence.
pub const ESCAPE_MARKER: u8 = 92;

} // verus!
