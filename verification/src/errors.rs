//! The error kinds of the suite. Every one of them is fatal for the
//! whole run: the caller reports a message and terminates, no input is
//! skipped and nothing is retried.

use vstd::prelude::*;

verus! {

/// The failure kinds: a named input that cannot be opened, a read
/// failure mid-stream, invalid character data where character-level
/// counting is required, and an invalid configuration value.
#[derive(PartialEq, Eq, Structural, Clone, Copy, Debug)]
pub enum CoreError {
    InputNotFound,
    IoError,
    DecodeError,
    ConfigError,
}

} // verus!
