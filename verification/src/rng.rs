//! Random numbers from the thread-local generator of `rand`.
//!
//! What comes out of a generator is not a function of the arguments, so the
//! contracts here say only in which range a value lies.

use vstd::prelude::*;
use rand::rngs::ThreadRng;
use rand::seq::SliceRandom;
use rand::Rng;

verus! {

/// `rand::rngs::ThreadRng`, a handle to the generator of the current
/// thread. Nothing inside it is visible to proofs.
#[verifier::external_type_specification]
#[verifier::external_body]
pub struct ExThreadRng(ThreadRng);

/// `rand::thread_rng` hands out the generator of the current thread.
/// Nothing is claimed of it.
pub assume_specification[ rand::thread_rng ]() -> (rng: ThreadRng)
;

/// `Rng::gen_range` on `low..=high` of `u8`: some value of the range. The
/// call panics on an empty range, which `low <= high` rules out.
#[verifier::external_body]
pub(crate) fn gen_range_inclusive_u8(rng: &mut ThreadRng, low: u8, high: u8) -> (value: u8)
    requires
        low <= high,
    ensures
        low <= value <= high,
{
    rng.gen_range(low..=high)
}

/// `Rng::gen_range` on `low..=high` of `u32`: some value of the range. The
/// call panics on an empty range, which `low <= high` rules out.
#[verifier::external_body]
pub(crate) fn gen_range_inclusive_u32(rng: &mut ThreadRng, low: u32, high: u32) -> (value: u32)
    requires
        low <= high,
    ensures
        low <= value <= high,
{
    rng.gen_range(low..=high)
}

/// `Rng::gen_range` on `low..high` of `u32`: some value of the range. The
/// call panics on an empty range, which `low < high` rules out.
#[verifier::external_body]
pub(crate) fn gen_range_u32(rng: &mut ThreadRng, low: u32, high: u32) -> (value: u32)
    requires
        low < high,
    ensures
        low <= value < high,
{
    rng.gen_range(low..high)
}

/// `Rng::gen` for `bool`: either value.
#[verifier::external_body]
pub(crate) fn gen_bool(rng: &mut ThreadRng) -> (value: bool) {
    rng.gen()
}

/// `Rng::gen_range` on `low..high` of `usize`: some value of the range. The
/// call panics on an empty range, which `low < high` rules out.
#[verifier::external_body]
pub(crate) fn gen_range_usize(rng: &mut ThreadRng, low: usize, high: usize) -> (value: usize)
    requires
        low < high,
    ensures
        low <= value < high,
{
    rng.gen_range(low..high)
}

/// `Rng::gen` for `usize`: any value.
#[verifier::external_body]
pub(crate) fn gen_usize(rng: &mut ThreadRng) -> (value: usize) {
    rng.gen()
}

/// `SliceRandom::shuffle` rearranges the items in place, by exchanging
/// pairs of them: the same items are there afterwards, each as often as
/// before.
#[verifier::external_body]
pub(crate) fn shuffle_five(order: &mut [usize; 5], rng: &mut ThreadRng)
    ensures
        final(order)@.to_multiset() == old(order)@.to_multiset(),
{
    order.shuffle(rng)
}

} // verus!
