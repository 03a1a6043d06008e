use vstd::prelude::*;

verus! {

/// The recoverable failures of the buffer and its cursor.
#[derive(Debug, Clone, Copy, PartialEq, Eq)]
pub enum XdError {
    /// A coordinate, offset, or computed target lies outside the valid
    /// bounds, or an intermediate computation would exceed the addressable
    /// range of `usize`.
    OutOfRange,
    /// A supplied flat sequence's length disagrees with the total size
    /// computed from an extent vector.
    ShapeMismatch,
    /// A scan reached the end of the buffer without any element satisfying
    /// the predicate.
    NoMatch,
}

} // verus!
