//! What the library relies on of the `String` functions it calls and that
//! come without a specification.

use vstd::prelude::*;

verus! {

/// `String::with_capacity` is an empty string. It panics if the capacity
/// is more than `isize::MAX` bytes.
pub assume_specification[ String::with_capacity ](capacity: usize) -> (s: String)
    requires
        capacity <= isize::MAX,
    ensures
        s@ == Seq::<char>::empty(),
;

/// `String::push` appends one character.
pub assume_specification[ String::push ](s: &mut String, ch: char)
    ensures
        final(s)@ == old(s)@.push(ch),
;

} // verus!
