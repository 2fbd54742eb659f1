//! Bit patterns of IEEE 754 binary64 numbers.
//!
//! Coordinates and colour channels are carried as the 64-bit patterns of
//! binary64 numbers: one sign bit, eleven exponent bits, fifty-two fraction
//! bits. What this module decides about such a pattern (its class, whether two
//! patterns denote the same number, its negation, its eight-bit sample) is
//! exact integer arithmetic on those three fields.

use vstd::arithmetic::power2::{lemma2_to64, lemma2_to64_rest, lemma_pow2_strictly_increases, pow2};
use vstd::bits::lemma_u64_shr_is_div;
use vstd::prelude::*;

verus! {

/// The sign bit alone: the pattern of negative zero.
pub const SIGN: u64 = 0x8000_0000_0000_0000;

/// The pattern of positive infinity; every larger magnitude is a NaN.
pub const INFINITY: u64 = 0x7ff0_0000_0000_0000;

/// The pattern of the number one.
pub const ONE: u64 = 0x3ff0_0000_0000_0000;

/// Two to the fifty-second: the weight of the lowest exponent bit, and the
/// implicit leading bit of a normal number's significand.
pub const HIDDEN_BIT: u64 = 0x0010_0000_0000_0000;

/// From this exponent field on, 256 times the value is a whole number.
pub const SAMPLE_EXPONENT: u64 = 1067;

/// The sign bit is set. This holds of negative zero and of half of the NaNs too.
pub open spec fn is_negative(bits: u64) -> bool {
    bits >= SIGN
}

/// The pattern without its sign bit.
pub open spec fn magnitude(bits: u64) -> u64 {
    if bits >= SIGN {
        (bits - SIGN) as u64
    } else {
        bits
    }
}

/// The pattern denotes no number.
pub open spec fn is_nan(bits: u64) -> bool {
    magnitude(bits) > INFINITY
}

/// The pattern is positive or negative zero.
pub open spec fn is_zero(bits: u64) -> bool {
    magnitude(bits) == 0
}

/// The biased exponent field, from 0 to 2047.
pub open spec fn exponent(bits: u64) -> nat {
    (magnitude(bits) / HIDDEN_BIT) as nat
}

/// The fraction field, below two to the fifty-second.
pub open spec fn fraction(bits: u64) -> nat {
    (magnitude(bits) % HIDDEN_BIT) as nat
}

/// The integer `m` in `|value| = m * 2^scale`: the fraction, with the implicit
/// leading bit unless the number is subnormal.
pub open spec fn significand(bits: u64) -> nat {
    if exponent(bits) == 0 {
        fraction(bits)
    } else {
        HIDDEN_BIT as nat + fraction(bits)
    }
}

/// The power of two in `|value| = significand * 2^scale`.
pub open spec fn scale(bits: u64) -> int {
    if exponent(bits) == 0 {
        -1074
    } else {
        exponent(bits) - 1075
    }
}

/// The whole part of `|value| * 2^k`, for a pattern that is not a NaN.
pub open spec fn floor_scaled(bits: u64, k: nat) -> nat {
    let shift = scale(bits) + k;
    if shift >= 0 {
        significand(bits) * pow2(shift as nat)
    } else {
        significand(bits) / pow2((-shift) as nat)
    }
}

/// The two patterns denote the same number. A NaN equals nothing, itself
/// included; the two zeros are equal.
pub open spec fn same_number(a: u64, b: u64) -> bool {
    &&& !is_nan(a)
    &&& !is_nan(b)
    &&& (a == b || (is_zero(a) && is_zero(b)))
}

/// The pattern with its sign bit flipped.
pub open spec fn negated(bits: u64) -> u64 {
    if bits >= SIGN {
        (bits - SIGN) as u64
    } else {
        (bits + SIGN) as u64
    }
}

/// The number is one or more, positive infinity included.
pub open spec fn at_least_one(bits: u64) -> bool {
    ONE <= bits <= INFINITY
}

/// The number is zero or less, negative infinity included.
pub open spec fn at_most_zero(bits: u64) -> bool {
    !is_nan(bits) && (is_negative(bits) || bits == 0)
}

/// The eight-bit sample of a channel: 256 times the value, cut to a whole
/// number and held within 0 and 255. A NaN gives 0.
pub open spec fn sample(bits: u64) -> nat {
    if is_nan(bits) || is_negative(bits) {
        0
    } else if floor_scaled(bits, 8) >= 255 {
        255
    } else {
        floor_scaled(bits, 8)
    }
}

/// Whether two patterns denote the same number.
pub fn equal(a: u64, b: u64) -> (r: bool)
    ensures
        r == same_number(a, b),
{
    let ma: u64 = if a >= SIGN { a - SIGN } else { a };
    let mb: u64 = if b >= SIGN { b - SIGN } else { b };
    ma <= INFINITY && mb <= INFINITY && (a == b || (ma == 0 && mb == 0))
}

/// Flips the sign bit.
pub fn negate(bits: u64) -> (r: u64)
    ensures
        r == negated(bits),
{
    if bits >= SIGN {
        bits - SIGN
    } else {
        bits + SIGN
    }
}

/// Computes the eight-bit sample of a channel.
pub fn to_sample(bits: u64) -> (r: u8)
    ensures
        r == sample(bits),
{
    if bits > INFINITY {
        // negative, or a positive NaN
        return 0;
    }
    let e: u64 = bits / HIDDEN_BIT;
    let f: u64 = bits % HIDDEN_BIT;
    proof {
        lemma2_to64();
        lemma2_to64_rest();
    }
    if e >= 1023 {
        proof {
            lemma_sample_of_large(bits);
        }
        255
    } else if e < 1015 {
        proof {
            lemma_sample_of_small(bits);
        }
        0
    } else {
        let shift: u64 = SAMPLE_EXPONENT - e;
        let m: u64 = HIDDEN_BIT + f;
        let q: u64 = m >> shift;
        proof {
            lemma_u64_shr_is_div(m, shift);
            assert(pow2(45) <= pow2(shift as nat)) by {
                if shift > 45 {
                    lemma_pow2_strictly_increases(45, shift as nat);
                }
            }
            assert(q <= m / 0x2000_0000_0000) by {
                vstd::arithmetic::div_mod::lemma_div_is_ordered_by_denominator(
                    m as int,
                    pow2(45) as int,
                    pow2(shift as nat) as int,
                );
            }
        }
        q as u8
    }
}

/// A channel of one or more has the largest sample.
pub proof fn lemma_sample_at_least_one(bits: u64)
    requires
        at_least_one(bits),
    ensures
        sample(bits) == 255,
{
    lemma_sample_of_large(bits);
}

/// A channel of zero or less has the sample 0. So has any pattern with the
/// sign bit set, and any NaN.
pub proof fn lemma_sample_at_most_zero(bits: u64)
    requires
        at_most_zero(bits) || is_negative(bits) || is_nan(bits),
    ensures
        sample(bits) == 0,
{
    if bits == 0 {
        lemma_sample_of_small(bits);
    }
}

/// A number of one or more has the sample 255.
proof fn lemma_sample_of_large(bits: u64)
    requires
        bits <= INFINITY,
        bits / HIDDEN_BIT >= 1023,
    ensures
        sample(bits) == 255,
{
    lemma2_to64();
    lemma2_to64_rest();
    let e = exponent(bits);
    let m = significand(bits);
    assert(m >= HIDDEN_BIT);
    if e >= 1067 {
        let p = pow2((e - 1067) as nat);
        vstd::arithmetic::power2::lemma_pow2_pos((e - 1067) as nat);
        assert(m * p >= m) by (nonlinear_arith)
            requires
                p >= 1,
                m >= 0,
        ;
    } else {
        let s = (1067 - e) as nat;
        assert(pow2(s) <= pow2(44)) by {
            if s < 44 {
                lemma_pow2_strictly_increases(s, 44);
            }
        }
        vstd::arithmetic::power2::lemma_pow2_pos(s);
        vstd::arithmetic::div_mod::lemma_div_is_ordered_by_denominator(
            m as int,
            pow2(s) as int,
            pow2(44) as int,
        );
        vstd::arithmetic::div_mod::lemma_div_is_ordered(
            HIDDEN_BIT as int,
            m as int,
            pow2(44) as int,
        );
    }
}

/// A number below 1/256 has the sample 0.
proof fn lemma_sample_of_small(bits: u64)
    requires
        bits <= INFINITY,
        bits / HIDDEN_BIT < 1015,
    ensures
        sample(bits) == 0,
{
    lemma2_to64();
    lemma2_to64_rest();
    let e = exponent(bits);
    let m = significand(bits);
    let s = (-(scale(bits) + 8)) as nat;
    assert(s >= 53);
    assert(m < pow2(53));
    assert(pow2(53) <= pow2(s)) by {
        if s > 53 {
            lemma_pow2_strictly_increases(53, s);
        }
    }
    vstd::arithmetic::div_mod::lemma_basic_div(m as int, pow2(s) as int);
}

} // verus!
