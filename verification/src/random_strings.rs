//! Random lower-case strings as input for string benchmarks.

use vstd::prelude::*;
use rand::rngs::ThreadRng;
use crate::rng::gen_range_inclusive_u8;

verus! {

/// Every character is one of `a` to `z`.
pub open spec fn is_lowercase(s: Seq<char>) -> bool {
    forall|i: int| 0 <= i < s.len() ==> 'a' <= #[trigger] s[i] <= 'z'
}

/// Appends `len` random characters from `a` to `z` to `s`.
pub(crate) fn push_random_lowercase(s: &mut String, rng: &mut ThreadRng, len: usize)
    ensures
        final(s)@.len() == old(s)@.len() + len,
        final(s)@.subrange(0, old(s)@.len() as int) == old(s)@,
        is_lowercase(final(s)@.subrange(old(s)@.len() as int, final(s)@.len() as int)),
{
    let mut i: usize = 0;
    while i < len
        invariant
            i <= len,
            s@.len() == old(s)@.len() + i,
            s@.subrange(0, old(s)@.len() as int) == old(s)@,
            is_lowercase(s@.subrange(old(s)@.len() as int, s@.len() as int)),
        decreases len - i,
    {
        let ghost before = s@;
        let letter: u8 = gen_range_inclusive_u8(rng, 'a' as u8, 'z' as u8);
        s.push(letter as char);
        i += 1;
        proof {
            let start = old(s)@.len() as int;
            assert(s@.subrange(0, start) =~= before.subrange(0, start));
            assert forall|j: int| 0 <= j < s@.len() - start implies 'a' <= #[trigger] s@.subrange(
                start,
                s@.len() as int,
            )[j] <= 'z' by {
                if j < before.len() - start {
                    assert(s@[start + j] == before.subrange(start, before.len() as int)[j]);
                }
            }
        }
    }
}

/// A random string of `len` characters, each one of `a` to `z`.
pub fn random_string(len: usize) -> (s: String)
    requires
        len <= isize::MAX,
    ensures
        s@.len() == len,
        is_lowercase(s@),
{
    let mut rng: ThreadRng = rand::thread_rng();
    let mut s: String = String::with_capacity(len);
    push_random_lowercase(&mut s, &mut rng, len);
    assert(s@.subrange(0, s@.len() as int) =~= s@);
    s
}

} // verus!
