//! Exact integer interpretation of IEEE-754 single-precision bit patterns.
//!
//! The control core never computes with machine floats: every real-valued
//! quantity travels as its raw 32-bit pattern (`F32Bits`).  Wherever the
//! system must *interpret* such a value — comparing an IF power reading
//! against the host-set threshold, quantizing a requested attenuation to
//! half-dB steps, validating a request at the host boundary — it is done
//! here as pure integer logic over the sign, exponent and mantissa fields,
//! with the meaning of a pattern pinned down by the specification functions
//! below.
//!
//! A finite pattern with fields `(s, e, m)` denotes the value
//! `(-1)^s * M * 2^(E - 149)` where `M = m` and `E = 1` for subnormals
//! (`e = 0`), and `M = 2^23 + m`, `E = e` otherwise.  `f32_mag149` is that
//! magnitude scaled by `2^149`, an exact integer for every finite pattern, so
//! ordering and rounding can be stated over the integers.
use vstd::prelude::*;

use vstd::arithmetic::div_mod::{
    lemma_basic_div,
    lemma_div_is_ordered,
    lemma_fundamental_div_mod,
    lemma_fundamental_div_mod_converse,
    lemma_small_mod,
};
use vstd::arithmetic::mul::{lemma_mul_inequality, lemma_mul_strict_inequality};
use vstd::arithmetic::power2::{
    lemma2_to64,
    lemma2_to64_rest,
    lemma_pow2_adds,
    lemma_pow2_pos,
    lemma_pow2_strictly_increases,
    pow2,
};
use vstd::bits::lemma_u32_shl_is_mul;

verus! {

pub open spec fn f32_sign(bits: u32) -> u32 {
    bits >> 31
}

pub open spec fn f32_exp(bits: u32) -> u32 {
    (bits >> 23) & 0xff
}

pub open spec fn f32_man(bits: u32) -> u32 {
    bits & 0x7fffff
}

/// An all-ones exponent with a nonzero mantissa is not a number.
pub open spec fn f32_is_nan(bits: u32) -> bool {
    f32_exp(bits) == 255 && f32_man(bits) != 0
}

/// The magnitude of the denoted value, scaled by 2^149 so it is an integer.
/// An infinity (exponent 255, mantissa 0) maps above every finite magnitude,
/// which is the ordering the comparisons need.
pub open spec fn f32_mag149(bits: u32) -> int {
    if f32_exp(bits) == 0 {
        f32_man(bits) as int
    } else {
        (0x800000 + f32_man(bits)) * pow2((f32_exp(bits) - 1) as nat)
    }
}

/// The signed value, scaled by 2^149: both zero patterns denote 0.
pub open spec fn f32_num149(bits: u32) -> int {
    if f32_sign(bits) == 1 {
        -f32_mag149(bits)
    } else {
        f32_mag149(bits)
    }
}

/// The ordering `a >= b` on denoted values; false whenever either side is
/// not a number.
pub open spec fn spec_f32_ge(a: u32, b: u32) -> bool {
    !f32_is_nan(a) && !f32_is_nan(b) && f32_num149(a) >= f32_num149(b)
}

proof fn lemma_f32_fields(bits: u32)
    ensures
        f32_sign(bits) <= 1,
        f32_exp(bits) <= 255,
        f32_man(bits) < 0x800000,
{
    assert((bits >> 31) <= 1 && ((bits >> 23) & 0xff) <= 255 && (bits & 0x7fffff) < 0x800000)
        by (bit_vector);
}

proof fn lemma_mag_zero(bits: u32)
    ensures
        (f32_mag149(bits) == 0) <==> (f32_exp(bits) == 0 && f32_man(bits) == 0),
        f32_mag149(bits) >= 0,
{
    lemma_f32_fields(bits);
    if f32_exp(bits) != 0 {
        lemma_pow2_pos((f32_exp(bits) - 1) as nat);
        lemma_mul_strict_inequality(0, 0x800000 + f32_man(bits), pow2(
            (f32_exp(bits) - 1) as nat,
        ) as int);
    }
}

/// Strictly larger (exponent, mantissa) fields denote a strictly larger
/// magnitude.
proof fn lemma_mag_lt(a: u32, b: u32)
    requires
        f32_exp(a) < f32_exp(b) || (f32_exp(a) == f32_exp(b) && f32_man(a) < f32_man(b)),
    ensures
        f32_mag149(a) < f32_mag149(b),
{
    lemma_f32_fields(a);
    lemma_f32_fields(b);
    let ea = f32_exp(a);
    let ma = f32_man(a);
    let eb = f32_exp(b);
    let mb = f32_man(b);
    if ea == eb {
        if ea == 0 {
        } else {
            lemma_pow2_pos((ea - 1) as nat);
            lemma_mul_strict_inequality(
                0x800000 + ma as int,
                0x800000 + mb as int,
                pow2((ea - 1) as nat) as int,
            );
        }
    } else {
        // ea < eb, so eb >= 1 and mag(b) >= 0x800000 * pow2(eb - 1).
        lemma_pow2_pos((eb - 1) as nat);
        let pb = pow2((eb - 1) as nat) as int;
        lemma_mul_inequality(0x800000, 0x800000 + mb as int, pb);
        if ea == 0 {
            // mag(a) = ma < 0x800000 <= 0x800000 * pb.
            lemma_mul_inequality(1, pb, 0x800000);
            assert(0x800000 * 1int == 0x800000);
            assert(1 * 0x800000 <= pb * 0x800000);
            assert(pb * 0x800000 == 0x800000 * pb) by (nonlinear_arith);
        } else {
            // mag(a) < 0x1000000 * pow2(ea - 1) = 0x800000 * pow2(ea)
            //        <= 0x800000 * pow2(eb - 1).
            let pa = pow2((ea - 1) as nat) as int;
            lemma_pow2_pos((ea - 1) as nat);
            lemma_mul_strict_inequality(0x800000 + ma as int, 0x1000000, pa);
            lemma_pow2_adds((ea - 1) as nat, 1);
            lemma2_to64();
            assert(0x1000000 * pa == 0x800000 * (pa * 2)) by (nonlinear_arith);
            assert(pa * 2 == pow2(ea as nat));
            if ea < eb - 1 {
                lemma_pow2_strictly_increases(ea as nat, (eb - 1) as nat);
            }
            lemma_mul_inequality(pow2(ea as nat) as int, pb, 0x800000);
            assert(pow2(ea as nat) as int * 0x800000 <= pb * 0x800000);
            assert(pow2(ea as nat) as int * 0x800000 == 0x800000 * pow2(ea as nat))
                by (nonlinear_arith);
            assert(pb * 0x800000 == 0x800000 * pb) by (nonlinear_arith);
        }
    }
}

/// Magnitudes order exactly as the (exponent, mantissa) fields order.
proof fn lemma_mag_cmp(a: u32, b: u32)
    ensures
        (f32_mag149(a) >= f32_mag149(b)) <==> (f32_exp(a) > f32_exp(b) || (f32_exp(a) == f32_exp(
            b,
        ) && f32_man(a) >= f32_man(b))),
{
    if f32_exp(a) < f32_exp(b) || (f32_exp(a) == f32_exp(b) && f32_man(a) < f32_man(b)) {
        lemma_mag_lt(a, b);
    } else if f32_exp(b) < f32_exp(a) || (f32_exp(b) == f32_exp(a) && f32_man(b) < f32_man(a)) {
        lemma_mag_lt(b, a);
    }
}

/// Decide `a >= b` on the denoted values, false when either is not a number.
/// This is how the background loop compares an IF power sample against the
/// host-set threshold.
pub fn f32_ge(a: u32, b: u32) -> (r: bool)
    ensures
        r == spec_f32_ge(a, b),
{
    let sa = a >> 31;
    let ea = (a >> 23) & 0xff;
    let ma = a & 0x7fffff;
    let sb = b >> 31;
    let eb = (b >> 23) & 0xff;
    let mb = b & 0x7fffff;
    if (ea == 255 && ma != 0) || (eb == 255 && mb != 0) {
        return false;
    }
    let za = ea == 0 && ma == 0;
    let zb = eb == 0 && mb == 0;
    proof {
        lemma_mag_zero(a);
        lemma_mag_zero(b);
        lemma_mag_cmp(a, b);
        lemma_mag_cmp(b, a);
    }
    let na = sa == 1 && !za;
    let nb = sb == 1 && !zb;
    if na && !nb {
        false
    } else if !na && nb {
        true
    } else if !na && !nb {
        if ea != eb {
            ea > eb
        } else {
            ma >= mb
        }
    } else {
        if ea != eb {
            eb > ea
        } else {
            mb >= ma
        }
    }
}

// ---------------------------------------------------------------------------
// Quantization of a requested attenuation to half-dB steps.
// ---------------------------------------------------------------------------

/// `n / d` rounded to the nearest integer, ties to the even neighbour.
pub open spec fn spec_round_even(n: int, d: int) -> int
    recommends
        d >= 1,
{
    let q = n / d;
    let r = n % d;
    if 2 * r < d {
        q
    } else if 2 * r > d {
        q + 1
    } else if q % 2 == 0 {
        q
    } else {
        q + 1
    }
}

/// Twice the denoted magnitude, rounded to the nearest whole half-step.
pub open spec fn spec_twice_round(bits: u32) -> int {
    spec_round_even(f32_mag149(bits), pow2(148) as int)
}

/// The half-step count the device realizes for a requested level: negative
/// and invalid requests floor at zero, oversize requests saturate at the
/// widest count a byte can carry, and everything else is the nearest
/// half-step of twice the request.
pub open spec fn spec_half_steps(bits: u32) -> int {
    if f32_is_nan(bits) {
        0
    } else if f32_sign(bits) == 1 {
        0
    } else if spec_twice_round(bits) > 255 {
        255
    } else {
        spec_twice_round(bits)
    }
}

/// Rounding with both terms scaled by a common factor is unchanged.
proof fn lemma_round_even_scale(n: int, d: int, k: int)
    requires
        n >= 0,
        d >= 1,
        k >= 1,
    ensures
        spec_round_even(n * k, d * k) == spec_round_even(n, d),
{
    let q = n / d;
    let r = n % d;
    lemma_fundamental_div_mod(n, d);
    assert(n * k == q * (d * k) + r * k) by (nonlinear_arith)
        requires
            n == q * d + r,
    ;
    assert(0 <= r * k < d * k) by (nonlinear_arith)
        requires
            0 <= r < d && k >= 1,
    ;
    lemma_fundamental_div_mod_converse(n * k, d * k, q, r * k);
    assert((2 * (r * k) < d * k) <==> (2 * r < d)) by (nonlinear_arith)
        requires
            k >= 1,
    ;
    assert((2 * (r * k) > d * k) <==> (2 * r > d)) by (nonlinear_arith)
        requires
            k >= 1,
    ;
}

/// Quantize a requested attenuation, given as a single-precision bit pattern
/// in dB, to its half-dB step count.
pub fn half_steps_from_db(bits: u32) -> (h: u8)
    ensures
        h == spec_half_steps(bits),
{
    let s = bits >> 31;
    let e = (bits >> 23) & 0xff;
    let m = bits & 0x7fffff;
    proof {
        lemma_f32_fields(bits);
    }
    if e == 255 && m != 0 {
        return 0;
    }
    if s == 1 {
        return 0;
    }
    let big: u32 = if e == 0 {
        m
    } else {
        m + 0x800000
    };
    let ep: u32 = if e == 0 {
        1
    } else {
        e
    };
    proof {
        // mag = big * 2^(ep - 1), and 2^148 = 2^shift * 2^(ep - 1).
        lemma_pow2_pos((ep - 1) as nat);
        if e == 0 {
            assert(pow2(0) == 1) by {
                lemma2_to64();
            }
            assert(f32_mag149(bits) == big);
            assert((ep - 1) as nat == 0);
            assert(big * pow2((ep - 1) as nat) == big * 1);
            assert(big as int * 1 == big);
            assert(f32_mag149(bits) == big * pow2((ep - 1) as nat));
        }
    }
    if ep >= 149 {
        // The magnitude is at least 2^23 * 2^148, far past saturation.
        proof {
            let d = pow2(148) as int;
            lemma_pow2_pos(148);
            lemma_pow2_adds(23, 148);
            lemma_pow2_adds((ep - 149) as nat, 171);
            lemma_pow2_pos((ep - 149) as nat);
            lemma2_to64();
            assert(big >= 0x800000);
            assert(pow2((ep - 1) as nat) == pow2((ep - 149) as nat) * pow2(148)) by {
                lemma_pow2_adds((ep - 149) as nat, 148);
            }
            assert(f32_mag149(bits) >= 0x800000 * (pow2((ep - 149) as nat) * pow2(148)) as int)
                by (nonlinear_arith)
                requires
                    f32_mag149(bits) == big * (pow2((ep - 149) as nat) * pow2(148)) as int && big
                        >= 0x800000 && pow2((ep - 149) as nat) * pow2(148) >= 1,
            ;
            assert(0x800000 * (pow2((ep - 149) as nat) * pow2(148)) as int >= 0x800000 * pow2(
                148,
            ) as int) by (nonlinear_arith)
                requires
                    pow2((ep - 149) as nat) >= 1 && pow2(148) >= 1,
            ;
            let q = f32_mag149(bits) / d;
            lemma_div_is_ordered(0x800000 * pow2(148) as int, f32_mag149(bits), d);
            assert((0x800000 * pow2(148) as int) / d == 0x800000) by {
                lemma_fundamental_div_mod_converse(0x800000 * pow2(148) as int, d, 0x800000, 0);
            }
            assert(q >= 0x800000);
            lemma_fundamental_div_mod(f32_mag149(bits), d);
            assert(spec_twice_round(bits) >= q);
        }
        return 255;
    }
    let shift: u32 = 149 - ep;
    proof {
        lemma_pow2_adds((shift) as nat, (ep - 1) as nat);
        assert(pow2(148) == pow2(shift as nat) * pow2((ep - 1) as nat));
    }
    if shift >= 25 {
        // Twice the magnitude is below one half-step: rounds to zero.
        proof {
            let d = pow2(148) as int;
            let mag = f32_mag149(bits);
            lemma_pow2_pos(148);
            lemma_pow2_pos(shift as nat);
            // mag = big * 2^(ep-1) < 2^24 * 2^(ep-1); and 2 * 2^24 <= 2^shift.
            lemma_pow2_adds(25, (ep - 1) as nat);
            if 25 < shift {
                lemma_pow2_strictly_increases(25, shift as nat);
            }
            lemma2_to64();
            assert(big < 0x1000000);
            assert(2 * mag < d) by (nonlinear_arith)
                requires
                    mag == big * pow2((ep - 1) as nat) && big < 0x1000000 && d == pow2(
                        shift as nat,
                    ) * pow2((ep - 1) as nat) && pow2(shift as nat) >= pow2(25) && pow2(25)
                        == 0x2000000 && pow2((ep - 1) as nat) >= 1,
            ;
            lemma_mag_zero(bits);
            lemma_basic_div(mag, d);
            lemma_small_mod(mag as nat, d as nat);
            assert(spec_twice_round(bits) == 0);
        }
        return 0;
    }
    let d: u32 = 1u32 << shift;
    proof {
        lemma2_to64();
        lemma2_to64_rest();
        assert(pow2(shift as nat) <= pow2(24)) by {
            if shift < 24 {
                lemma_pow2_strictly_increases(shift as nat, 24);
            }
        }
        lemma_u32_shl_is_mul(1, shift);
        assert(d == pow2(shift as nat));
        lemma_pow2_pos(shift as nat);
    }
    let q: u32 = big / d;
    let r: u32 = big % d;
    let r2: u32 = r * 2;
    let rr: u32 = if r2 < d {
        q
    } else if r2 > d {
        q + 1
    } else if q % 2 == 0 {
        q
    } else {
        q + 1
    };
    proof {
        lemma_mag_zero(bits);
        lemma_round_even_scale(big as int, d as int, pow2((ep - 1) as nat) as int);
        if e == 0 {
            assert(f32_mag149(bits) == big * pow2((ep - 1) as nat));
        } else {
            assert(f32_mag149(bits) == (0x800000 + f32_man(bits)) * pow2((e - 1) as nat));
            assert(big == 0x800000 + f32_man(bits));
            assert(f32_mag149(bits) == big * pow2((ep - 1) as nat));
        }
        assert(pow2(148) as int == d * pow2((ep - 1) as nat));
        assert(spec_twice_round(bits) == spec_round_even(big as int, d as int));
        assert(rr == spec_round_even(big as int, d as int));
    }
    if rr > 255 {
        255
    } else {
        rr as u8
    }
}

/// The bit pattern of 31.5, the attenuator's upper limit in dB.
pub const ATTEN_MAX_BITS: u32 = 0x41FC0000;

/// Whether a requested attenuation lies within the attenuator's range: a
/// number between 0 and 31.5 dB inclusive.  This is the check the host makes
/// before sending a request.
pub fn atten_request_in_range(bits: u32) -> (r: bool)
    ensures
        r == (!f32_is_nan(bits) && f32_num149(bits) >= 0 && f32_mag149(bits) <= 63 * pow2(148)),
{
    proof {
        // The limit pattern denotes exactly 63 half-steps: its magnitude is
        // 0xFC0000 * 2^130 = (63 * 2^18) * 2^130 = 63 * 2^148.
        lemma2_to64();
        lemma_pow2_adds(18, 130);
        assert(f32_exp(ATTEN_MAX_BITS) == 131 && f32_man(ATTEN_MAX_BITS) == 0x7C0000 && f32_sign(
            ATTEN_MAX_BITS,
        ) == 0) by (bit_vector);
        assert(f32_mag149(ATTEN_MAX_BITS) == 0xFC0000 * pow2(130));
        assert(0xFC0000int == 63 * pow2(18));
        assert((63 * pow2(18) as int) * pow2(130) as int == 63 * (pow2(18) as int * pow2(
            130,
        ) as int)) by (nonlinear_arith);
        lemma_mag_zero(bits);
        assert(((0u32 >> 23) & 0xff) == 0 && (0u32 & 0x7fffff) == 0 && (0u32 >> 31) == 0)
            by (bit_vector);
        assert(f32_mag149(0) == 0);
    }
    f32_ge(bits, 0) && f32_ge(ATTEN_MAX_BITS, bits)
}

/// Law: for a request within the attenuator's range — a non-negative level
/// whose doubled magnitude is at most 63 half-steps — the device count is
/// exactly the nearest half-step of twice the request, and in particular two
/// requests that round to the same half-step produce the same count.
pub proof fn lemma_atten_quantization(bits: u32)
    requires
        !f32_is_nan(bits),
        f32_sign(bits) == 0,
        f32_mag149(bits) <= 63 * pow2(148),
    ensures
        spec_half_steps(bits) == spec_twice_round(bits),
        0 <= spec_half_steps(bits) <= 63,
{
    let d = pow2(148) as int;
    let mag = f32_mag149(bits);
    lemma_pow2_pos(148);
    lemma_mag_zero(bits);
    let q = mag / d;
    let r = mag % d;
    lemma_fundamental_div_mod(mag, d);
    lemma_div_is_ordered(0, mag, d);
    lemma_basic_div(0, d);
    lemma_div_is_ordered(mag, 63 * d, d);
    assert((63 * d) / d == 63) by {
        lemma_fundamental_div_mod_converse(63 * d, d, 63, 0);
    }
    if q == 63 {
        assert(r == mag - 63 * d);
        assert(r <= 0);
        assert(r == 0);
    }
}

/// Law: requests that round to the same half-step are interchangeable.
pub proof fn lemma_atten_idempotent(b1: u32, b2: u32)
    requires
        !f32_is_nan(b1),
        !f32_is_nan(b2),
        f32_sign(b1) == 0,
        f32_sign(b2) == 0,
        f32_mag149(b1) <= 63 * pow2(148),
        f32_mag149(b2) <= 63 * pow2(148),
        spec_twice_round(b1) == spec_twice_round(b2),
    ensures
        spec_half_steps(b1) == spec_half_steps(b2),
{
    lemma_atten_quantization(b1);
    lemma_atten_quantization(b2);
}

} // verus!
