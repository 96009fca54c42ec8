//! Verified core of a directory scanner for statistical-analysis scripts.
//!
//! The library analyses file contents handed to it as plain bytes: it counts
//! lines, detects and extracts embedded SQL blocks, flags credential-looking
//! lines and ISO-date tokens, and encodes the resulting findings as
//! delimited report rows that round-trip through the matching parser.
//! All file discovery and report writing stays outside the library.

use vstd::prelude::*;

pub mod finding;
pub mod record;
pub mod report;
pub mod runner;
pub mod scanners;
pub mod sql;
pub mod text;

verus! {

} // verus!
