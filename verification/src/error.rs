//! What can go wrong while the panel is driven.

use vstd::prelude::*;

verus! {

/// The two ways in which an operation on the panel fails.
#[derive(Clone, Copy, Debug, PartialEq, Eq)]
pub enum Error {
    /// The busy line did not report idle within the longest wait allowed.
    Timeout,
    /// The serial bus or a control line reported a fault; the value is the
    /// platform's error code, handed on unchanged.
    SpiError(i32),
}

} // verus!
