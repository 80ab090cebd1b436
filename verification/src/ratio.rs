//! Exact non-negative fractions of machine integers.

use vstd::prelude::*;

verus! {

/// A fraction `num / den` of two unsigned integers.
///
/// Derived statistics are handed out in this form so that no rounding
/// happens inside the library; a caller divides in whatever number type it
/// likes.
#[derive(Clone, Copy, Debug, PartialEq, Eq, Structural)]
pub struct Ratio {
    pub num: u128,
    pub den: u128,
}

} // verus!
