//! Finding an entry by its hash in a slice of entries, where the hashes lie
//! apart in memory and a chunk of them has to be gathered first.

use vstd::prelude::*;
use vstd::slice::slice_subrange;
use rand::rngs::ThreadRng;
use crate::position::is_first_position;
use crate::rng::{gen_bool, gen_range_inclusive_u32, gen_range_u32};
use crate::lanes::{first_lane, lane_set, no_lanes, with_lane, MAX_LANES};

verus! {

/// An entry of a small map: a key, its value and the hash of the key.
#[derive(Clone, Copy, Debug, PartialEq, Eq, Structural)]
pub struct Entry {
    pub hash: u32,
    pub key: usize,
    pub value: usize,
}

/// The hashes of the entries, in order.
pub open spec fn hashes(entries: Seq<Entry>) -> Seq<u32> {
    Seq::new(entries.len(), |i: int| entries[i].hash)
}

/// Gathers the hashes of the `LANES` entries from `start` on and compares
/// them with `needle`: lane `k` of the mask is set exactly when the hash of
/// `haystack[start + k]` is the needle.
fn equal_hash_lanes<const LANES: usize>(haystack: &[Entry], start: usize, needle: u32) -> (mask:
    u8)
    requires
        LANES <= MAX_LANES,
        start + LANES <= haystack@.len(),
    ensures
        forall|k: int|
            lane_set(mask, k) <==> (0 <= k < LANES && haystack@[start + k].hash == needle),
{
    let len: usize = haystack.len();
    let mut mask: u8 = no_lanes();
    let mut lane: usize = 0;
    while lane < LANES
        invariant
            LANES <= MAX_LANES,
            start + LANES <= haystack@.len(),
            len == haystack@.len(),
            lane <= LANES,
            forall|k: int|
                lane_set(mask, k) <==> (0 <= k < lane && haystack@[start + k].hash == needle),
        decreases LANES - lane,
    {
        if haystack[start + lane].hash == needle {
            mask = with_lane(mask, lane);
        }
        lane += 1;
    }
    mask
}

/// The first position of an entry with hash `needle`, looking at one entry
/// after the other.
pub fn find_position(haystack: &[Entry], needle: u32) -> (pos: Option<usize>)
    ensures
        is_first_position(hashes(haystack@), needle, pos),
{
    let mut i: usize = 0;
    while i < haystack.len()
        invariant
            i <= haystack@.len(),
            forall|j: int| 0 <= j < i ==> hashes(haystack@)[j] != needle,
        decreases haystack.len() - i,
    {
        if haystack[i].hash == needle {
            return Some(i);
        }
        i += 1;
    }
    None
}

/// The first position of an entry with hash `needle`, gathering four hashes
/// at a time while that many entries are left, and looking at the rest one
/// by one.
pub fn find_position_simd_128(haystack: &[Entry], needle: u32) -> (pos: Option<usize>)
    ensures
        is_first_position(hashes(haystack@), needle, pos),
{
    let len: usize = haystack.len();
    let mut i: usize = 0;
    while 4 <= len - i
        invariant
            len == haystack@.len(),
            i <= len,
            forall|j: int| 0 <= j < i ==> hashes(haystack@)[j] != needle,
        decreases len - i,
    {
        let eq: u8 = equal_hash_lanes::<4>(haystack, i, needle);
        match first_lane(eq) {
            Some(lane) => {
                assert(lane_set(eq, lane as int));
                assert forall|j: int| 0 <= j < i + lane implies hashes(haystack@)[j] != needle by {
                    if j >= i {
                        assert(!lane_set(eq, j - i));
                    }
                }
                return Some(i + lane);
            },
            None => {},
        }
        assert forall|j: int| 0 <= j < i + 4 implies hashes(haystack@)[j] != needle by {
            if j >= i {
                assert(!lane_set(eq, j - i));
            }
        }
        i += 4;
    }
    let rest: &[Entry] = slice_subrange(haystack, i, len);
    match find_position(rest, needle) {
        Some(pos) => {
            assert(hashes(rest@)[pos as int] == hashes(haystack@)[pos + i]);
            assert forall|j: int| 0 <= j < pos + i implies hashes(haystack@)[j] != needle by {
                if j >= i {
                    assert(hashes(rest@)[j - i] == hashes(haystack@)[j]);
                }
            }
            Some(pos + i)
        },
        None => {
            assert forall|j: int| 0 <= j < len implies hashes(haystack@)[j] != needle by {
                if j >= i {
                    assert(hashes(rest@)[j - i] == hashes(haystack@)[j]);
                }
            }
            None
        },
    }
}

/// Looks at the first eight entries only: the first position among them of
/// an entry with hash `needle`.
pub fn test_256_do_something(haystack: &[Entry], needle: u32) -> (pos: Option<usize>)
    requires
        haystack@.len() >= 8,
    ensures
        is_first_position(hashes(haystack@).take(8), needle, pos),
{
    let mask: u8 = equal_hash_lanes::<8>(haystack, 0, needle);
    let pos: Option<usize> = first_lane(mask);
    proof {
        match pos {
            Some(p) => {
                assert(lane_set(mask, p as int));
                assert forall|j: int| 0 <= j < p implies hashes(haystack@).take(8)[j]
                    != needle by {
                    assert(!lane_set(mask, j));
                }
            },
            None => {
                assert forall|j: int| 0 <= j < 8 implies hashes(haystack@).take(8)[j]
                    != needle by {
                    assert(!lane_set(mask, j));
                }
            },
        }
    }
    pos
}

/// The number of inputs that [`gen_inputs`] makes.
pub const INPUTS: usize = 10000;

/// The longest haystack that [`gen_inputs`] makes.
pub const MAX_HAYSTACK_LEN: u32 = 12;

/// The hash that occurs in no haystack of [`gen_inputs`].
pub const ABSENT_NEEDLE: u32 = 22;

/// The key of every entry that [`gen_inputs`] makes.
pub const INPUT_KEY: usize = 100;

/// The value of every entry that [`gen_inputs`] makes.
pub const INPUT_VALUE: usize = 1000;

/// `input` is a haystack of at most [`MAX_HAYSTACK_LEN`] entries with the
/// hashes `0, 1, .., len - 1` and a needle that is one of these hashes or is
/// [`ABSENT_NEEDLE`].
pub open spec fn is_input(input: (Vec<Entry>, u32)) -> bool {
    &&& input.0@.len() <= MAX_HAYSTACK_LEN
    &&& forall|j: int|
        0 <= j < input.0@.len() ==> input.0@[j] == (Entry {
            hash: j as u32,
            key: INPUT_KEY,
            value: INPUT_VALUE,
        })
    &&& input.1 < input.0@.len() || input.1 == ABSENT_NEEDLE
}

/// Ten thousand random inputs for the finders: haystacks of random length
/// with ascending hashes, each with a needle that is, by the toss of a coin,
/// one of the hashes or one that is not there.
pub fn gen_inputs() -> (inputs: Vec<(Vec<Entry>, u32)>)
    ensures
        inputs@.len() == INPUTS,
        forall|k: int| 0 <= k < inputs@.len() ==> is_input(#[trigger] inputs@[k]),
{
    let mut rng: ThreadRng = rand::thread_rng();
    let mut inputs: Vec<(Vec<Entry>, u32)> = Vec::new();
    let mut n: usize = 0;
    while n < INPUTS
        invariant
            n <= INPUTS,
            inputs@.len() == n,
            forall|k: int| 0 <= k < inputs@.len() ==> is_input(#[trigger] inputs@[k]),
        decreases INPUTS - n,
    {
        let mut haystack: Vec<Entry> = Vec::new();
        let len: u32 = gen_range_inclusive_u32(&mut rng, 0, MAX_HAYSTACK_LEN);
        let mut i: u32 = 0;
        while i < len
            invariant
                i <= len,
                haystack@.len() == i,
                forall|j: int|
                    0 <= j < i ==> haystack@[j] == (Entry {
                        hash: j as u32,
                        key: INPUT_KEY,
                        value: INPUT_VALUE,
                    }),
            decreases len - i,
        {
            haystack.push(Entry { hash: i, key: INPUT_KEY, value: INPUT_VALUE });
            i += 1;
        }
        let needle: u32 = if len != 0 && gen_bool(&mut rng) {
            gen_range_u32(&mut rng, 0, len)
        } else {
            ABSENT_NEEDLE
        };
        inputs.push((haystack, needle));
        n += 1;
    }
    inputs
}

/// Runs both finders on fresh random inputs and says whether they agree
/// everywhere. They always do.
pub fn test() -> (agree: bool)
    ensures
        agree,
{
    let inputs: Vec<(Vec<Entry>, u32)> = gen_inputs();
    let mut agree: bool = true;
    let mut k: usize = 0;
    while k < inputs.len()
        invariant
            k <= inputs@.len(),
            agree,
        decreases inputs.len() - k,
    {
        let haystack: &[Entry] = inputs[k].0.as_slice();
        let needle: u32 = inputs[k].1;
        let same: bool = match (find_position(haystack, needle), find_position_simd_128(
            haystack,
            needle,
        )) {
            (Some(x), Some(y)) => x == y,
            (None, None) => true,
            _ => false,
        };
        agree = agree && same;
        k += 1;
    }
    agree
}

} // verus!
