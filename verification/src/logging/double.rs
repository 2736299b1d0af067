//! Doubles by their bit patterns.
//!
//! A fraction such as a sampling rate is an IEEE 754 double. Here it is held as its
//! bit pattern, and its value is read off the pattern as a whole number of
//! 2^-1074ths, the smallest step between doubles.

use vstd::arithmetic::power2;
use vstd::prelude::*;

verus! {

/// The bit pattern of 1.0.
pub const ONE: u64 = 0x3FF0_0000_0000_0000;

/// The bit pattern of positive infinity.
pub const INFINITY: u64 = 0x7FF0_0000_0000_0000;

/// The bit pattern of -0.0: the sign bit alone.
pub const SIGN: u64 = 0x8000_0000_0000_0000;

/// The pattern without its sign bit.
pub open spec fn unsigned(bits: u64) -> u64 {
    if bits >= SIGN {
        (bits - SIGN) as u64
    } else {
        bits
    }
}

/// Whether the pattern is no number.
pub open spec fn is_nan(bits: u64) -> bool {
    unsigned(bits) > INFINITY
}

/// Whether the pattern is that of a number other than an infinity.
pub open spec fn is_finite(bits: u64) -> bool {
    unsigned(bits) < INFINITY
}

/// The exponent field of an unsigned pattern.
pub open spec fn exponent(bits: u64) -> int {
    bits as int / 0x10_0000_0000_0000
}

/// The fraction field of an unsigned pattern.
pub open spec fn fraction(bits: u64) -> int {
    bits as int % 0x10_0000_0000_0000
}

/// The significand of an unsigned finite pattern: a normal number has an implicit
/// leading one.
pub open spec fn significand(bits: u64) -> int {
    if exponent(bits) == 0 {
        fraction(bits)
    } else {
        0x10_0000_0000_0000 + fraction(bits)
    }
}

/// By how many powers of two the significand is scaled.
pub open spec fn scale(bits: u64) -> nat {
    if exponent(bits) == 0 {
        0
    } else {
        (exponent(bits) - 1) as nat
    }
}

/// The value of an unsigned finite pattern, in units of 2^-1074.
pub open spec fn magnitude(bits: u64) -> int {
    significand(bits) * power2::pow2(scale(bits))
}

/// The patterns of unsigned finite numbers order as their values do.
pub proof fn lemma_order(a: u64, b: u64)
    requires
        a < b < INFINITY,
    ensures
        magnitude(a) < magnitude(b),
{
    let ea = exponent(a);
    let eb = exponent(b);
    assert(ea <= eb < 2047);
    power2::lemma_pow2_pos(scale(a));
    power2::lemma_pow2_pos(scale(b));
    if ea == eb || (ea == 0 && eb == 1) {
        assert(scale(a) == scale(b));
        assert(significand(a) < significand(b));
        let p = power2::pow2(scale(a)) as int;
        assert(significand(a) * p < significand(b) * p) by (nonlinear_arith)
            requires
                significand(a) < significand(b),
                p > 0,
        ;
    } else {
        assert(scale(a) + 1 <= scale(b));
        power2::lemma_pow2_unfold(scale(a) + 1);
        let p = power2::pow2(scale(a)) as int;
        let q = power2::pow2(scale(b)) as int;
        assert(2 * p <= q) by {
            if scale(a) + 1 < scale(b) {
                power2::lemma_pow2_strictly_increases(scale(a) + 1, scale(b));
            }
        }
        let sa = significand(a);
        let sb = significand(b);
        assert(sa < 0x20_0000_0000_0000);
        assert(sb >= 0x10_0000_0000_0000);
        assert(sa * p < sb * q) by (nonlinear_arith)
            requires
                sa < 0x20_0000_0000_0000,
                sb >= 0x10_0000_0000_0000,
                p > 0,
                2 * p <= q,
        ;
    }
}

/// One is 2^1074 steps.
pub proof fn lemma_one()
    ensures
        magnitude(ONE) == power2::pow2(1074),
{
    assert(exponent(ONE) == 1023);
    assert(fraction(ONE) == 0);
    power2::lemma_pow2_adds(52, 1022);
    assert(power2::pow2(52) == 0x10_0000_0000_0000) by {
        power2::lemma2_to64_rest();
    }
}

/// Whether the number is at least one. No number is not.
pub open spec fn at_least_one(bits: u64) -> bool {
    bits < SIGN && !is_nan(bits) && (bits == INFINITY || magnitude(bits) >= power2::pow2(1074))
}

/// Whether the number is zero or less, either zero included. No number is not.
pub open spec fn at_most_zero(bits: u64) -> bool {
    !is_nan(bits) && (bits >= SIGN || magnitude(bits) == 0)
}

/// Whether the number is at least one.
pub fn is_at_least_one(bits: u64) -> (r: bool)
    ensures
        r == at_least_one(bits),
{
    proof {
        lemma_one();
        if bits < ONE {
            lemma_order(bits, ONE);
        } else if ONE < bits < INFINITY {
            lemma_order(ONE, bits);
        }
    }
    ONE <= bits && bits <= INFINITY
}

/// Whether the number is zero or less.
pub fn is_at_most_zero(bits: u64) -> (r: bool)
    ensures
        r == at_most_zero(bits),
{
    proof {
        assert(magnitude(0) == 0) by (nonlinear_arith)
            requires
                magnitude(0) == significand(0) * power2::pow2(scale(0)),
                significand(0) == 0,
        ;
        if 0 < bits < INFINITY {
            lemma_order(0, bits);
        }
        if bits == INFINITY {
            power2::lemma_pow2_pos(scale(bits));
            assert(magnitude(bits) > 0) by (nonlinear_arith)
                requires
                    magnitude(bits) == significand(bits) * power2::pow2(scale(bits)),
                    significand(bits) > 0,
                    power2::pow2(scale(bits)) > 0,
            ;
        }
    }
    bits == 0 || (SIGN <= bits && bits <= SIGN + INFINITY)
}

/// The number brought into the range from zero to one: what is below zero becomes
/// zero, what is above one becomes one. A zero keeps its sign, and no number stays no
/// number.
pub open spec fn clamped(bits: u64) -> u64 {
    if is_nan(bits) {
        bits
    } else if bits > SIGN {
        0
    } else if bits < SIGN && at_least_one(bits) {
        ONE
    } else {
        bits
    }
}

/// Bring a number into the range from zero to one.
pub fn clamp(bits: u64) -> (r: u64)
    ensures
        r == clamped(bits),
{
    if bits > SIGN {
        if bits - SIGN > INFINITY {
            bits
        } else {
            0
        }
    } else if is_at_least_one(bits) {
        ONE
    } else {
        bits
    }
}

/// A number brought into the range lies in it.
pub proof fn law_clamped(bits: u64)
    requires
        !is_nan(bits),
    ensures
        ({
            let r = clamped(bits);
            r == SIGN || (r < SIGN && is_finite(r) && 0 <= magnitude(r) <= power2::pow2(1074))
        }),
        clamped(clamped(bits)) == clamped(bits),
{
    lemma_one();
    let r = clamped(bits);
    if r < SIGN && r != ONE {
        assert(r < INFINITY);
        if r > ONE {
            lemma_order(ONE, r);
        } else {
            lemma_order(r, ONE);
        }
        power2::lemma_pow2_pos(scale(r));
        assert(magnitude(r) >= 0) by (nonlinear_arith)
            requires
                magnitude(r) == significand(r) * power2::pow2(scale(r)),
                significand(r) >= 0,
                power2::pow2(scale(r)) > 0,
        ;
    }
}

/// Whether `draw / 2^32` is below the number: in units of 2^-1074, whether
/// `draw * 2^1042` is.
pub open spec fn exceeds_draw(bits: u64, draw: u32) -> bool {
    draw * power2::pow2(1042) < magnitude(bits)
}

/// Whether `draw / 2^32` is below a number between zero and one.
pub fn is_above_draw(bits: u64, draw: u32) -> (r: bool)
    requires
        0 < bits < ONE,
    ensures
        r == exceeds_draw(bits, draw),
{
    let exp: u64 = bits / 0x10_0000_0000_0000;
    let frac: u64 = bits % 0x10_0000_0000_0000;
    let sig: u64 = if exp == 0 {
        frac
    } else {
        0x10_0000_0000_0000 + frac
    };
    let shift: u64 = if exp == 0 {
        1042
    } else {
        1043 - exp
    };
    let ghost s = scale(bits);
    proof {
        assert(exponent(bits) == exp);
        assert(significand(bits) == sig);
        assert(sig > 0);
        assert(s + shift == 1042);
        power2::lemma_pow2_adds(shift as nat, s);
        power2::lemma_pow2_pos(s);
        power2::lemma_pow2_pos(shift as nat);
        let p = power2::pow2(s) as int;
        let q = power2::pow2(shift as nat) as int;
        let d = draw as int;
        let m = sig as int;
        assert((d * (q * p) < m * p) == (d * q < m)) by (nonlinear_arith)
            requires
                p > 0,
        ;
        assert(exceeds_draw(bits, draw) == (d * q < m));
    }
    if shift >= 64 {
        proof {
            power2::lemma2_to64();
            if shift > 64 {
                power2::lemma_pow2_strictly_increases(64, shift as nat);
            }
            let q = power2::pow2(shift as nat) as int;
            assert(q >= 0x1_0000_0000_0000_0000);
            if draw > 0 {
                assert(draw * q >= q) by (nonlinear_arith)
                    requires
                        draw > 0,
                        q > 0,
                ;
            } else {
                assert(draw * q == 0) by (nonlinear_arith)
                    requires
                        draw == 0,
                ;
            }
        }
        draw == 0
    } else {
        let factor: u128 = power_of_two(shift);
        proof {
            let q = power2::pow2(shift as nat) as int;
            assert(draw * q <= 0xFFFF_FFFF * 0x1_0000_0000_0000_0000) by (nonlinear_arith)
                requires
                    0 <= draw <= 0xFFFF_FFFF,
                    0 < q <= 0x1_0000_0000_0000_0000,
            ;
        }
        (draw as u128) * factor < sig as u128
    }
}

/// A power of two below 2^64.
fn power_of_two(n: u64) -> (p: u128)
    requires
        n < 64,
    ensures
        p == power2::pow2(n as nat),
        p <= 0x1_0000_0000_0000_0000,
{
    let mut p: u128 = 1;
    let mut i: u64 = 0;
    proof {
        power2::lemma2_to64();
    }
    while i < n
        invariant
            i <= n < 64,
            p == power2::pow2(i as nat),
        decreases n - i,
    {
        proof {
            power2::lemma2_to64();
            power2::lemma_pow2_unfold((i + 1) as nat);
            power2::lemma_pow2_strictly_increases(i as nat, 64);
        }
        p = p * 2;
        i = i + 1;
    }
    proof {
        power2::lemma2_to64();
        power2::lemma_pow2_strictly_increases(n as nat, 64);
    }
    p
}

/// The sign bit does not tell a number from an infinity or from no number: a pattern and
/// the pattern with the other sign are alike, and what decides is whether the eleven bits
/// behind the sign are all ones.
pub proof fn law_sign_is_apart(bits: u64)
    ensures
        is_finite(bits) <==> bits & 0x7FF0_0000_0000_0000 != 0x7FF0_0000_0000_0000,
        is_finite(bits ^ 0x8000_0000_0000_0000) == is_finite(bits),
        is_nan(bits ^ 0x8000_0000_0000_0000) == is_nan(bits),
        is_nan(bits) <==> !is_finite(bits) && bits & 0x000F_FFFF_FFFF_FFFF != 0,
{
    lemma_fields(bits);
    lemma_fields(bits ^ 0x8000_0000_0000_0000);
    assert((bits ^ 0x8000_0000_0000_0000) & 0x7FFF_FFFF_FFFF_FFFF == bits
        & 0x7FFF_FFFF_FFFF_FFFF) by (bit_vector);
    assert(bits & 0x7FFF_FFFF_FFFF_FFFF < 0x7FF0_0000_0000_0000 <==> bits & 0x7FF0_0000_0000_0000
        != 0x7FF0_0000_0000_0000) by (bit_vector);
    assert(bits & 0x7FFF_FFFF_FFFF_FFFF > 0x7FF0_0000_0000_0000 <==> (bits & 0x7FF0_0000_0000_0000
        == 0x7FF0_0000_0000_0000 && bits & 0x000F_FFFF_FFFF_FFFF != 0)) by (bit_vector);
}

/// Taking the sign off is masking the top bit.
proof fn lemma_fields(bits: u64)
    ensures
        unsigned(bits) == bits & 0x7FFF_FFFF_FFFF_FFFF,
{
    assert(bits >= 0x8000_0000_0000_0000 ==> bits & 0x7FFF_FFFF_FFFF_FFFF == (bits
        - 0x8000_0000_0000_0000)) by (bit_vector);
    assert(bits < 0x8000_0000_0000_0000 ==> bits & 0x7FFF_FFFF_FFFF_FFFF == bits) by (bit_vector);
}

/// The value of a pattern, by how neighbouring patterns relate: zero is zero, one is one,
/// adding one to the exponent of a normal number doubles the value, and within one
/// exponent equal steps of the pattern are equal steps of the value.
pub proof fn law_magnitude(bits: u64)
    requires
        bits < INFINITY,
    ensures
        magnitude(0) == 0,
        magnitude(0x3FF0_0000_0000_0000) == power2::pow2(1074),
        0x10_0000_0000_0000 <= bits < INFINITY - 0x10_0000_0000_0000 ==> magnitude(
            (bits + 0x10_0000_0000_0000) as u64,
        ) == 2 * magnitude(bits),
        bits < 0x20_0000_0000_0000 ==> magnitude(bits) == bits,
        exponent((bits + 2) as u64) == exponent(bits) ==> magnitude((bits + 2) as u64) - magnitude(
            (bits + 1) as u64,
        ) == magnitude((bits + 1) as u64) - magnitude(bits),
{
    lemma_one();
    assert(0 * power2::pow2(0) == 0);
    if 0x10_0000_0000_0000 <= bits < INFINITY - 0x10_0000_0000_0000 {
        let next = (bits + 0x10_0000_0000_0000) as u64;
        assert(exponent(next) == exponent(bits) + 1);
        assert(fraction(next) == fraction(bits));
        assert(scale(next) == scale(bits) + 1);
        power2::lemma_pow2_unfold(scale(next));
        let p = power2::pow2(scale(bits)) as int;
        assert(significand(bits) * (2 * p) == 2 * (significand(bits) * p)) by (nonlinear_arith);
    }
    if bits < 0x20_0000_0000_0000 {
        assert(scale(bits) == 0);
        assert(significand(bits) == bits);
        power2::lemma2_to64();
        assert(magnitude(bits) == bits) by (nonlinear_arith)
            requires
                magnitude(bits) == significand(bits) * power2::pow2(scale(bits)),
                power2::pow2(scale(bits)) == 1,
                significand(bits) == bits,
        ;
    }
    if exponent((bits + 2) as u64) == exponent(bits) {
        let p = power2::pow2(scale(bits)) as int;
        let s = significand(bits);
        assert(exponent((bits + 1) as u64) == exponent(bits));
        assert(fraction((bits + 1) as u64) == fraction(bits) + 1);
        assert(fraction((bits + 2) as u64) == fraction(bits) + 2);
        assert((s + 2) * p - (s + 1) * p == (s + 1) * p - s * p) by (nonlinear_arith);
    }
}

/// Bringing a number into the range: a number from zero to one stays, a greater one
/// becomes one, a smaller one zero, and no number stays as it is.
pub proof fn law_clamp_keeps(bits: u64)
    ensures
        bits <= 0x3FF0_0000_0000_0000 ==> clamped(bits) == bits,
        0x3FF0_0000_0000_0000 < bits <= 0x7FF0_0000_0000_0000 ==> clamped(bits)
            == 0x3FF0_0000_0000_0000,
        0x8000_0000_0000_0000 < bits <= 0xFFF0_0000_0000_0000 ==> clamped(bits) == 0,
        bits == 0x8000_0000_0000_0000 ==> clamped(bits) == bits,
        is_nan(bits) ==> clamped(bits) == bits,
{
    lemma_one();
    if bits < ONE {
        lemma_order(bits, ONE);
    }
    if ONE < bits < INFINITY {
        lemma_order(ONE, bits);
    }
}

} // verus!
