//! Finding a value in a slice of `u32`: element by element, and chunk by
//! chunk with a lane mask per chunk.
//!
//! All finders return the same: the first position of the needle.

use vstd::prelude::*;
use vstd::slice::slice_subrange;
use rand::rngs::ThreadRng;
use crate::position::is_first_position;
use crate::rng::{gen_bool, gen_range_inclusive_u32, gen_range_u32};
use crate::lanes::{first_lane, lane_set, no_lanes, with_lane, MAX_LANES};

verus! {

/// Compares the `LANES` values from `start` on with `needle`: lane `k` of
/// the mask is set exactly when `haystack[start + k]` is the needle.
fn equal_lanes<const LANES: usize>(haystack: &[u32], start: usize, needle: u32) -> (mask: u8)
    requires
        LANES <= MAX_LANES,
        start + LANES <= haystack@.len(),
    ensures
        forall|k: int| lane_set(mask, k) <==> (0 <= k < LANES && haystack@[start + k] == needle),
{
    let len: usize = haystack.len();
    let mut mask: u8 = no_lanes();
    let mut lane: usize = 0;
    while lane < LANES
        invariant
            LANES <= MAX_LANES,
            start + LANES <= haystack@.len(),
            len == haystack@.len(),
            lane <= LANES,
            forall|k: int| lane_set(mask, k) <==> (0 <= k < lane && haystack@[start + k] == needle),
        decreases LANES - lane,
    {
        if haystack[start + lane] == needle {
            mask = with_lane(mask, lane);
        }
        lane += 1;
    }
    mask
}

/// The first position of `needle`, looking at one element after the other.
pub fn find_position(haystack: &[u32], needle: u32) -> (pos: Option<usize>)
    ensures
        is_first_position(haystack@, needle, pos),
{
    let mut i: usize = 0;
    while i < haystack.len()
        invariant
            i <= haystack@.len(),
            forall|j: int| 0 <= j < i ==> haystack@[j] != needle,
        decreases haystack.len() - i,
    {
        if haystack[i] == needle {
            return Some(i);
        }
        i += 1;
    }
    None
}

/// The first position of `needle`, looking at `LANES` elements at a time
/// while that many are left, and at the rest one by one.
pub fn find_position_simd<const LANES: usize>(haystack: &[u32], needle: u32) -> (pos: Option<usize>)
    requires
        1 <= LANES <= MAX_LANES,
    ensures
        is_first_position(haystack@, needle, pos),
{
    let len: usize = haystack.len();
    let mut i: usize = 0;
    while LANES <= len - i
        invariant
            1 <= LANES <= MAX_LANES,
            len == haystack@.len(),
            i <= len,
            forall|j: int| 0 <= j < i ==> haystack@[j] != needle,
        decreases len - i,
    {
        let eq: u8 = equal_lanes::<LANES>(haystack, i, needle);
        match first_lane(eq) {
            Some(lane) => {
                assert(lane_set(eq, lane as int));
                assert forall|j: int| 0 <= j < i + lane implies haystack@[j] != needle by {
                    if j >= i {
                        assert(!lane_set(eq, j - i));
                    }
                }
                return Some(i + lane);
            },
            None => {},
        }
        assert forall|j: int| 0 <= j < i + LANES implies haystack@[j] != needle by {
            if j >= i {
                assert(!lane_set(eq, j - i));
            }
        }
        i += LANES;
    }
    let rest: &[u32] = slice_subrange(haystack, i, len);
    match find_position(rest, needle) {
        Some(pos) => {
            assert(rest@[pos as int] == haystack@[pos + i]);
            assert forall|j: int| 0 <= j < pos + i implies haystack@[j] != needle by {
                if j >= i {
                    assert(rest@[j - i] == haystack@[j]);
                }
            }
            Some(pos + i)
        },
        None => {
            assert forall|j: int| 0 <= j < len implies haystack@[j] != needle by {
                if j >= i {
                    assert(rest@[j - i] == haystack@[j]);
                }
            }
            None
        },
    }
}

/// [`find_position_simd`] with chunks of four lanes, 128 bits.
pub fn find_position_simd_128_generic(haystack: &[u32], needle: u32) -> (pos: Option<usize>)
    ensures
        is_first_position(haystack@, needle, pos),
{
    find_position_simd::<4>(haystack, needle)
}

/// [`find_position_simd`] with chunks of eight lanes, 256 bits.
pub fn find_position_simd_256_generic(haystack: &[u32], needle: u32) -> (pos: Option<usize>)
    ensures
        is_first_position(haystack@, needle, pos),
{
    find_position_simd::<8>(haystack, needle)
}

/// [`find_position_simd`] with chunks of eight lanes, as an entry of its own
/// for builds that turn on wider vector instructions for it.
pub fn find_position_simd_256_with_target_feature(haystack: &[u32], needle: u32) -> (pos: Option<
    usize,
>)
    ensures
        is_first_position(haystack@, needle, pos),
{
    find_position_simd::<8>(haystack, needle)
}

/// The first position of `needle`, with chunks of four lanes, written out
/// without the lane count as a parameter.
pub fn find_position_simd_128(haystack: &[u32], needle: u32) -> (pos: Option<usize>)
    ensures
        is_first_position(haystack@, needle, pos),
{
    let len: usize = haystack.len();
    let mut i: usize = 0;
    while 4 <= len - i
        invariant
            len == haystack@.len(),
            i <= len,
            forall|j: int| 0 <= j < i ==> haystack@[j] != needle,
        decreases len - i,
    {
        let eq: u8 = equal_lanes::<4>(haystack, i, needle);
        match first_lane(eq) {
            Some(lane) => {
                assert(lane_set(eq, lane as int));
                assert forall|j: int| 0 <= j < i + lane implies haystack@[j] != needle by {
                    if j >= i {
                        assert(!lane_set(eq, j - i));
                    }
                }
                return Some(i + lane);
            },
            None => {},
        }
        assert forall|j: int| 0 <= j < i + 4 implies haystack@[j] != needle by {
            if j >= i {
                assert(!lane_set(eq, j - i));
            }
        }
        i += 4;
    }
    let rest: &[u32] = slice_subrange(haystack, i, len);
    match find_position(rest, needle) {
        Some(pos) => {
            assert(rest@[pos as int] == haystack@[pos + i]);
            assert forall|j: int| 0 <= j < pos + i implies haystack@[j] != needle by {
                if j >= i {
                    assert(rest@[j - i] == haystack@[j]);
                }
            }
            Some(pos + i)
        },
        None => {
            assert forall|j: int| 0 <= j < len implies haystack@[j] != needle by {
                if j >= i {
                    assert(rest@[j - i] == haystack@[j]);
                }
            }
            None
        },
    }
}

/// Looks at the first eight elements only: the first position of `needle`
/// among them.
pub fn test_256_do_something(haystack: &[u32], needle: u32) -> (pos: Option<usize>)
    requires
        haystack@.len() >= 8,
    ensures
        is_first_position(haystack@.take(8), needle, pos),
{
    let mask: u8 = equal_lanes::<8>(haystack, 0, needle);
    let pos: Option<usize> = first_lane(mask);
    proof {
        match pos {
            Some(p) => {
                assert(lane_set(mask, p as int));
                assert forall|j: int| 0 <= j < p implies haystack@.take(8)[j] != needle by {
                    assert(!lane_set(mask, j));
                }
            },
            None => {
                assert forall|j: int| 0 <= j < 8 implies haystack@.take(8)[j] != needle by {
                    assert(!lane_set(mask, j));
                }
            },
        }
    }
    pos
}

/// The number of inputs that [`gen_inputs`] makes.
pub const INPUTS: usize = 1000;

/// The longest haystack that [`gen_inputs`] makes.
pub const MAX_HAYSTACK_LEN: u32 = 12;

/// The needle that occurs in no haystack of [`gen_inputs`].
pub const ABSENT_NEEDLE: u32 = 22;

/// `input` is a haystack `0, 1, .., len - 1` of at most
/// [`MAX_HAYSTACK_LEN`] values with a needle that is one of them or is
/// [`ABSENT_NEEDLE`].
pub open spec fn is_input(input: (Vec<u32>, u32)) -> bool {
    &&& input.0@.len() <= MAX_HAYSTACK_LEN
    &&& forall|j: int| 0 <= j < input.0@.len() ==> input.0@[j] == j
    &&& input.1 < input.0@.len() || input.1 == ABSENT_NEEDLE
}

/// A thousand random inputs for the finders: ascending haystacks of random
/// length, each with a needle that is, by the toss of a coin, one of its
/// values or a value that is not there.
pub fn gen_inputs() -> (inputs: Vec<(Vec<u32>, u32)>)
    ensures
        inputs@.len() == INPUTS,
        forall|k: int| 0 <= k < inputs@.len() ==> is_input(#[trigger] inputs@[k]),
{
    let mut rng: ThreadRng = rand::thread_rng();
    let mut inputs: Vec<(Vec<u32>, u32)> = Vec::new();
    let mut n: usize = 0;
    while n < INPUTS
        invariant
            n <= INPUTS,
            inputs@.len() == n,
            forall|k: int| 0 <= k < inputs@.len() ==> is_input(#[trigger] inputs@[k]),
        decreases INPUTS - n,
    {
        let mut haystack: Vec<u32> = Vec::new();
        let len: u32 = gen_range_inclusive_u32(&mut rng, 0, MAX_HAYSTACK_LEN);
        let mut i: u32 = 0;
        while i < len
            invariant
                i <= len,
                haystack@.len() == i,
                forall|j: int| 0 <= j < i ==> haystack@[j] == j,
            decreases len - i,
        {
            haystack.push(i);
            i += 1;
        }
        let needle: u32 = if len != 0 && gen_bool(&mut rng) {
            gen_range_u32(&mut rng, 0, len)
        } else {
            ABSENT_NEEDLE
        };
        inputs.push((haystack, needle));
        n += 1;
    }
    inputs
}

/// Two answers of a finder are the same.
fn same_position(a: Option<usize>, b: Option<usize>) -> (same: bool)
    ensures
        same == (a == b),
{
    match (a, b) {
        (Some(x), Some(y)) => x == y,
        (None, None) => true,
        _ => false,
    }
}

/// Runs all finders on fresh random inputs and says whether the chunked
/// ones agree with the plain one everywhere. They always do.
pub fn test() -> (agree: bool)
    ensures
        agree,
{
    let inputs: Vec<(Vec<u32>, u32)> = gen_inputs();
    let mut agree: bool = true;
    let mut k: usize = 0;
    while k < inputs.len()
        invariant
            k <= inputs@.len(),
            agree,
        decreases inputs.len() - k,
    {
        let haystack: &[u32] = inputs[k].0.as_slice();
        let needle: u32 = inputs[k].1;
        let pos: Option<usize> = find_position(haystack, needle);
        agree = agree && same_position(pos, find_position_simd_128_generic(haystack, needle));
        agree = agree && same_position(pos, find_position_simd_256_generic(haystack, needle));
        agree = agree && same_position(pos, find_position_simd_128(haystack, needle));
        k += 1;
    }
    agree
}

} // verus!
