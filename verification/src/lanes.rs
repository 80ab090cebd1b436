//! Lane masks: the result of comparing up to eight lanes at once, one bit per
//! lane, lowest lane in the lowest bit.

use vstd::prelude::*;
use vstd::std_specs::bits::{axiom_u8_trailing_zeros, u8_trailing_zeros};

verus! {

/// The widest chunk that a mask can describe.
pub const MAX_LANES: usize = 8;

/// Bit `lane` of `mask` is set.
pub open spec fn lane_set(mask: u8, lane: int) -> bool {
    0 <= lane < 8 && (mask >> (lane as u8)) & 1u8 == 1u8
}

/// The mask with no lane set.
pub fn no_lanes() -> (mask: u8)
    ensures
        forall|k: int| !lane_set(mask, k),
{
    let mask: u8 = 0;
    assert forall|k: int| !lane_set(mask, k) by {
        if 0 <= k < 8 {
            let kb = k as u8;
            assert((0u8 >> kb) & 1u8 == 0u8) by (bit_vector);
        }
    }
    mask
}

/// `mask` with bit `lane` set as well.
pub fn with_lane(mask: u8, lane: usize) -> (wider: u8)
    requires
        lane < MAX_LANES,
    ensures
        forall|k: int| lane_set(wider, k) <==> (k == lane || lane_set(mask, k)),
{
    let bit: u8 = 1u8 << (lane as u8);
    let wider: u8 = mask | bit;
    assert forall|k: int| lane_set(wider, k) <==> (k == lane || lane_set(mask, k)) by {
        if 0 <= k < 8 {
            let kb = k as u8;
            let lb = lane as u8;
            assert(((mask | (1u8 << lb)) >> kb) & 1u8 == 1u8 <==> (kb == lb || (mask >> kb) & 1u8
                == 1u8)) by (bit_vector)
                requires
                    kb < 8,
                    lb < 8,
            ;
        }
    }
    wider
}

/// The lowest lane that is set in `mask`, if any: the number of trailing
/// zeros of a mask that is not zero.
pub fn first_lane(mask: u8) -> (lane: Option<usize>)
    ensures
        match lane {
            Some(l) => lane_set(mask, l as int) && forall|k: int| 0 <= k < l ==> !lane_set(mask, k),
            None => forall|k: int| !lane_set(mask, k),
        },
{
    if mask != 0 {
        let zeros: u32 = mask.trailing_zeros();
        proof {
            axiom_u8_trailing_zeros(mask);
            assert forall|k: int| 0 <= k < zeros implies !lane_set(mask, k) by {
                let kb = k as u8;
                assert((mask >> kb) & 1u8 == 0u8);
            }
        }
        Some(zeros as usize)
    } else {
        assert forall|k: int| !lane_set(mask, k) by {
            if 0 <= k < 8 {
                let kb = k as u8;
                assert((0u8 >> kb) & 1u8 == 0u8) by (bit_vector);
            }
        }
        None
    }
}

} // verus!
