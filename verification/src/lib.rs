//! Verified core of a small suite of POSIX-style text utilities.
//!
//! The crate holds the streaming classification and stateful
//! transformation logic shared by the word-counting and line-numbering
//! tools: byte/character/word counting with aggregation, the
//! section-aware line-numbering state machine, delimiter-run splitting,
//! leading-portion extraction, and little-endian 16-bit word assembly.
//! Argument parsing and all file and stream I/O live outside the crate
//! and hand these functions plain values.

pub mod chars;
pub mod counter;
pub mod dump;
pub mod errors;
pub mod head;
pub mod lines;
pub mod numberer;
pub mod numeral;
pub mod render;
pub mod strutil;
