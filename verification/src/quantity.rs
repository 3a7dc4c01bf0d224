//! The whole-number quantities the library computes with, and the reading of
//! a price out of the bit pattern of an IEEE-754 double.

use vstd::arithmetic::div_mod::{lemma_basic_div, lemma_fundamental_div_mod};
use vstd::arithmetic::power2::{
    lemma2_to64, lemma2_to64_rest, lemma_pow2_adds, lemma_pow2_pos,
    lemma_pow2_strictly_increases, lemma_pow2_unfold, pow2,
};
use vstd::prelude::*;

verus! {

/// One whole, in the billionths in which weights, growth factors and returns
/// are counted.
pub const UNIT: u64 = 1_000_000_000;

/// The number of price units in one unit of the quoted currency.
pub const PRICE_SCALE: u64 = 1_000_000;

/// The largest growth factor, in billionths, that the library computes with.
pub const MAX_GROWTH: u64 = 0x7fff_ffff_ffff_ffff;

/// Whether the sign bit of the double is set.
pub open spec fn double_negative(bits: u64) -> bool {
    bits >= 0x8000_0000_0000_0000u64
}

/// The biased exponent field of the double.
pub open spec fn double_exponent(bits: u64) -> int {
    ((bits / 0x10_0000_0000_0000u64) % 2048) as int
}

/// The fraction field of the double.
pub open spec fn double_fraction(bits: u64) -> int {
    (bits % 0x10_0000_0000_0000u64) as int
}

/// Neither an infinity nor a NaN.
pub open spec fn double_finite(bits: u64) -> bool {
    double_exponent(bits) != 2047
}

/// The significand as a whole number: the fraction field, with the hidden
/// bit in front unless the double is subnormal.
pub open spec fn double_significand(bits: u64) -> int {
    if double_exponent(bits) == 0 {
        double_fraction(bits)
    } else {
        0x10_0000_0000_0000 + double_fraction(bits)
    }
}

/// The power of two by which the significand is divided: the magnitude of a
/// finite double is `double_significand / 2^double_shift`.
pub open spec fn double_shift(bits: u64) -> int {
    if double_exponent(bits) == 0 {
        1074
    } else {
        1075 - double_exponent(bits)
    }
}

/// The whole number nearest to `numerator / 2^shift`, a half going upward.
/// With a negative shift this is the exact product `numerator * 2^-shift`.
pub open spec fn nearest_quotient(numerator: int, shift: int) -> int {
    if shift > 0 {
        (numerator + pow2((shift - 1) as nat)) / (pow2(shift as nat) as int)
    } else {
        numerator * pow2((-shift) as nat)
    }
}

/// The magnitude of the double in price units, rounded to the nearest unit.
pub open spec fn double_in_price_units(bits: u64) -> int {
    nearest_quotient(double_significand(bits) * PRICE_SCALE, double_shift(bits))
}

/// The price that a double stands for: its value in price units, where the
/// double is finite, not negative, and that value is at least one unit and
/// fits 64 bits.
pub open spec fn price_of_double(bits: u64) -> Option<u64> {
    let units = double_in_price_units(bits);
    if !double_negative(bits) && double_finite(bits) && 1 <= units <= u64::MAX {
        Some(units as u64)
    } else {
        None
    }
}

/// The nearest quotient is within half of the exact one: `numerator / 2^shift`
/// lies from half below it to less than half above it.
pub proof fn law_nearest_quotient_is_nearest(numerator: int, shift: int)
    requires
        0 <= numerator,
        0 < shift,
    ensures
        (2 * nearest_quotient(numerator, shift) - 1) * pow2(shift as nat) <= 2 * numerator < (2
            * nearest_quotient(numerator, shift) + 1) * pow2(shift as nat),
{
    let half = pow2((shift - 1) as nat) as int;
    let whole = pow2(shift as nat) as int;
    let nearest = nearest_quotient(numerator, shift);
    lemma_pow2_unfold(shift as nat);
    lemma_pow2_pos(shift as nat);
    lemma_fundamental_div_mod(numerator + half, whole);
    assert((2 * nearest - 1) * whole == 2 * (whole * nearest) - whole) by (nonlinear_arith);
    assert((2 * nearest + 1) * whole == 2 * (whole * nearest) + whole) by (nonlinear_arith);
}

/// Two to the power `e`.
fn power_of_two(e: u64) -> (r: u128)
    requires
        e <= 126,
    ensures
        r == pow2(e as nat),
{
    let mut r: u128 = 1;
    let mut i: u64 = 0;
    proof {
        lemma2_to64();
        lemma2_to64_rest();
        lemma_pow2_adds(64, 63);
    }
    while i < e
        invariant
            i <= e <= 126,
            r == pow2(i as nat),
            pow2(127) == 0x8000_0000_0000_0000_0000_0000_0000_0000,
        decreases e - i,
    {
        proof {
            lemma_pow2_unfold((i + 1) as nat);
            lemma_pow2_strictly_increases((i + 1) as nat, 127);
        }
        r = r * 2;
        i = i + 1;
    }
    r
}

/// Reads a price out of the bit pattern of a double.
pub fn price_from_double(bits: u64) -> (r: Option<u64>)
    ensures
        r == price_of_double(bits),
{
    if bits >= 0x8000_0000_0000_0000 {
        return None;
    }
    let exponent: u64 = (bits / 0x10_0000_0000_0000) % 2048;
    let fraction: u64 = bits % 0x10_0000_0000_0000;
    if exponent == 2047 {
        return None;
    }
    let significand: u64 = if exponent == 0 {
        fraction
    } else {
        0x10_0000_0000_0000 + fraction
    };
    if exponent >= 1075 {
        proof {
            let up = (exponent - 1075) as nat;
            let numerator = significand * PRICE_SCALE;
            lemma_pow2_pos(up);
            assert(numerator * pow2(up) >= numerator) by (nonlinear_arith)
                requires
                    numerator >= 0,
                    pow2(up) >= 1,
            ;
            assert(double_in_price_units(bits) == numerator * pow2(up));
        }
        return None;
    }
    let shift: u64 = if exponent == 0 {
        1074
    } else {
        1075 - exponent
    };
    let scaled: u128 = significand as u128 * PRICE_SCALE as u128;
    proof {
        lemma2_to64();
        lemma_pow2_adds(64, 10);
        lemma_pow2_unfold(shift as nat);
    }
    if shift > 74 {
        proof {
            if shift > 75 {
                lemma_pow2_strictly_increases(74, (shift - 1) as nat);
            }
            lemma_basic_div(scaled + pow2((shift - 1) as nat), pow2(shift as nat) as int);
        }
        return None;
    }
    let divisor: u128 = power_of_two(shift);
    proof {
        lemma_pow2_pos(shift as nat);
        if shift < 74 {
            lemma_pow2_strictly_increases(shift as nat, 74);
        }
    }
    let units: u128 = (scaled + divisor / 2) / divisor;
    if units == 0 || units > 0xffff_ffff_ffff_ffff {
        None
    } else {
        Some(units as u64)
    }
}

} // verus!
