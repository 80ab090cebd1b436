//! What it means to find the first occurrence of a value.

use vstd::prelude::*;

verus! {

/// `pos` is the first position of `needle` in `haystack`, or `None` where the
/// needle does not occur.
pub open spec fn is_first_position<T>(haystack: Seq<T>, needle: T, pos: Option<usize>) -> bool {
    match pos {
        Some(p) => {
            &&& p < haystack.len()
            &&& haystack[p as int] == needle
            &&& forall|j: int| 0 <= j < p ==> haystack[j] != needle
        },
        None => forall|j: int| 0 <= j < haystack.len() ==> haystack[j] != needle,
    }
}

/// A haystack has one first position only: two answers that both are the
/// first position are the same answer.
pub proof fn lemma_first_position_unique<T>(
    haystack: Seq<T>,
    needle: T,
    a: Option<usize>,
    b: Option<usize>,
)
    requires
        is_first_position(haystack, needle, a),
        is_first_position(haystack, needle, b),
    ensures
        a == b,
{
}

} // verus!
