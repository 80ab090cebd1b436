//! The integer square root.

use vstd::prelude::*;
use vstd::arithmetic::overflow::CheckedU128;

verus! {

/// `root` is the square root of `value`, rounded down.
pub open spec fn is_floor_sqrt(value: nat, root: nat) -> bool {
    root * root <= value < (root + 1) * (root + 1)
}

/// The square root of `value`, rounded down, by bisection.
pub fn isqrt(value: u128) -> (root: u128)
    ensures
        is_floor_sqrt(value as nat, root as nat),
{
    let mut low: u128 = 0;
    let mut high: u128 = 0x1_0000_0000_0000_0000;
    assert(0x1_0000_0000_0000_0000int * 0x1_0000_0000_0000_0000int > u128::MAX);
    while high - low > 1
        invariant
            low < high <= 0x1_0000_0000_0000_0000,
            low * low <= value,
            value < high * high,
        decreases high - low,
    {
        let mid: u128 = low + (high - low) / 2;
        assert(mid * mid <= 0xffff_ffff_ffff_ffff * 0xffff_ffff_ffff_ffff) by (nonlinear_arith)
            requires
                mid <= 0xffff_ffff_ffff_ffff,
        ;
        if mid * mid <= value {
            low = mid;
        } else {
            high = mid;
        }
    }
    low
}

/// `root` is the whole number nearest to the square root of `num / den`:
/// `root - 1/2 <= sqrt(num / den) < root + 1/2`, squared and without
/// fractions.
pub open spec fn is_nearest_sqrt(num: nat, den: nat, root: nat) -> bool {
    &&& root == 0 || (2 * root - 1) * (2 * root - 1) * den <= 4 * num
    &&& 4 * num < (2 * root + 1) * (2 * root + 1) * den
}

/// A fraction has one nearest whole number to its square root only.
pub proof fn lemma_nearest_sqrt_unique(num: nat, den: nat, a: nat, b: nat)
    requires
        den > 0,
        is_nearest_sqrt(num, den, a),
        is_nearest_sqrt(num, den, b),
    ensures
        a == b,
{
    if a < b {
        assert((2 * a + 1) * (2 * a + 1) * den <= (2 * b - 1) * (2 * b - 1) * den)
            by (nonlinear_arith)
            requires
                a + 1 <= b,
                den > 0,
        ;
    }
    if b < a {
        assert((2 * b + 1) * (2 * b + 1) * den <= (2 * a - 1) * (2 * a - 1) * den)
            by (nonlinear_arith)
            requires
                b + 1 <= a,
                den > 0,
        ;
    }
}

/// The whole number nearest to the square root of `num / den`, from four
/// times the numerator. A denominator beyond 128 bits is welcome: the root
/// is then zero.
pub fn nearest_sqrt_of_ratio(num_times_4: u128, den: &CheckedU128) -> (root: u128)
    requires
        den@ > 0,
    ensures
        root == 0 || (2 * root - 1) * (2 * root - 1) * den@ <= num_times_4,
        num_times_4 < (2 * root + 1) * (2 * root + 1) * den@,
{
    if den.is_overflowed() {
        assert((2 * 0 + 1) * (2 * 0 + 1) * den@ == den@) by (nonlinear_arith);
        return 0;
    }
    let d: u128 = den.unwrap();
    let whole: u128 = num_times_4 / d;
    let t: u128 = isqrt(whole);
    assert(t <= 0xffff_ffff_ffff_ffff_ffff_ffff_ffff_fffe) by {
        if t > 1 {
            assert(t * t >= 2 * t) by (nonlinear_arith)
                requires
                    t >= 2,
            ;
        }
    }
    let root: u128 = (t + 1) / 2;
    proof {
        let rest = num_times_4 % d;
        assert(num_times_4 == d * whole + rest && 0 <= rest < d) by {
            vstd::arithmetic::div_mod::lemma_fundamental_div_mod(num_times_4 as int, d as int);
        }
        assert(d * whole == whole * d) by (nonlinear_arith);
        assert(t * t * d <= whole * d) by (nonlinear_arith)
            requires
                t * t <= whole,
                d >= 0,
        ;
        assert((whole + 1) * d <= (t + 1) * (t + 1) * d) by (nonlinear_arith)
            requires
                whole + 1 <= (t + 1) * (t + 1),
                d >= 0,
        ;
        assert((whole + 1) * d == whole * d + d) by (nonlinear_arith);
        // t^2 * d <= num_times_4 < (t + 1)^2 * d
        if t % 2 == 0 {
            assert(2 * root == t);
            if root != 0 {
                assert((2 * root - 1) * (2 * root - 1) * d <= t * t * d) by (nonlinear_arith)
                    requires
                        2 * root == t,
                        t >= 1,
                        d >= 0,
                ;
            }
            assert((2 * root + 1) * (2 * root + 1) * d == (t + 1) * (t + 1) * d)
                by (nonlinear_arith)
                requires
                    2 * root == t,
            ;
        } else {
            assert(2 * root - 1 == t);
            assert((2 * root - 1) * (2 * root - 1) * d == t * t * d) by (nonlinear_arith)
                requires
                    2 * root - 1 == t,
            ;
            assert((t + 1) * (t + 1) * d <= (2 * root + 1) * (2 * root + 1) * d)
                by (nonlinear_arith)
                requires
                    2 * root - 1 == t,
                    t >= 0,
                    d >= 0,
            ;
        }
    }
    root
}

} // verus!
