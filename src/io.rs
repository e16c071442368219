//! Errors of decoding and of the byte source.

use vstd::prelude::*;

verus! {

/// Why an item of the event sequence is not an event.
#[derive(Clone, Copy, Debug, PartialEq, Eq, Structural)]
pub enum Error {
    /// The byte source failed.
    Unknown,
    /// The buffered bytes are not valid UTF-8.
    InvalidText,
    /// A known escape sequence broke the rules of its form.
    Malformed,
    /// An unfinished sequence filled the input buffer.
    Overflow,
}

} // verus!
