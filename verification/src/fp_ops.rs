//! Bit-level helpers for the IEEE 754 payloads carried by `Value`.
//!
//! The runtime never performs floating-point arithmetic itself: a
//! single-precision payload is its 32-bit pattern, a double-precision payload
//! its 64-bit pattern.  The slot encoding of the runtime stores every
//! floating-point value in double width, so the two conversions that matter
//! are the exact widening of a single-precision pattern and its inverse, a
//! round-to-nearest-even narrowing.  Truncating conversion to a signed
//! integer, which yields 0 for NaN and out-of-range inputs, is defined here
//! as well.

use vstd::prelude::*;
use vstd::arithmetic::power2::{
    pow2, lemma2_to64, lemma2_to64_rest, lemma_pow2_pos, lemma_pow2_adds,
    lemma_pow2_strictly_increases,
};
use vstd::arithmetic::div_mod::{
    lemma_fundamental_div_mod, lemma_fundamental_div_mod_converse, lemma_div_denominator,
    lemma_multiply_divide_lt, lemma_div_pos_is_pos,
};

verus! {

/// Normalizes a subnormal significand: doubles `f` (and decrements `e`)
/// until the hidden-bit position (bit 23) is reached.
pub open spec fn spec_widen_norm(f: nat, e: nat) -> (nat, nat)
    decreases (if f < 0x800000 { (0x800000 - f) as nat } else { 0nat }),
{
    if f == 0 || f >= 0x800000 || e == 0 {
        (f, e)
    } else {
        spec_widen_norm(2 * f, (e - 1) as nat)
    }
}

/// The double-precision bit pattern that holds exactly the value of the
/// single-precision bit pattern `b`.  NaN payloads are kept (shifted into
/// the wider fraction field), so the mapping is injective.
pub open spec fn spec_f64_bits_of_f32_bits(b: u32) -> u64 {
    let s = b as int / 0x80000000;
    let e = (b as int / 0x800000) % 256;
    let f = b as int % 0x800000;
    if e == 255 {
        // infinity or NaN: widest exponent, fraction shifted up by 29
        (s * 0x8000000000000000 + 0x7ff0000000000000 + f * 0x20000000) as u64
    } else if e == 0 && f == 0 {
        // signed zero
        (s * 0x8000000000000000) as u64
    } else if e == 0 {
        // subnormal: value is f * 2^-149, normal in double precision
        let (f2, e2) = spec_widen_norm(f as nat, 897);
        (s * 0x8000000000000000 + e2 * 0x10000000000000 + (f2 - 0x800000) * 0x20000000) as u64
    } else {
        // normal: rebias the exponent by 1023 - 127 = 896
        (s * 0x8000000000000000 + (e + 896) * 0x10000000000000 + f * 0x20000000) as u64
    }
}

/// Round-to-nearest-even correction after splitting off quotient `q` and
/// remainder `r` at a half-point of `half`.
pub open spec fn spec_round_up(q: nat, r: nat, half: nat) -> nat {
    if r > half || (r == half && q % 2 == 1) {
        q + 1
    } else {
        q
    }
}

/// Round-to-nearest-even narrowing of a double-precision bit pattern to a
/// single-precision one.  On the image of `spec_f64_bits_of_f32_bits` it is
/// the exact inverse; a NaN whose payload vanishes in the narrower fraction
/// keeps its sign and becomes the canonical quiet NaN.
pub open spec fn spec_f32_bits_of_f64_bits(w: u64) -> u32 {
    let s = w as int / 0x8000000000000000;
    let e = (w as int / 0x10000000000000) % 2048;
    let m = w as int % 0x10000000000000;
    if e == 2047 {
        // infinity or NaN
        let q = m / 0x20000000;
        if q != 0 {
            (s * 0x80000000 + 255 * 0x800000 + q) as u32
        } else if m != 0 {
            (s * 0x80000000 + 255 * 0x800000 + 0x400000) as u32
        } else {
            (s * 0x80000000 + 255 * 0x800000) as u32
        }
    } else if e > 1150 {
        // above the single-precision range: infinity
        (s * 0x80000000 + 255 * 0x800000) as u32
    } else if e >= 897 {
        // lands in the normal single-precision range (carry on round-up
        // moves into the exponent field by construction)
        let q = m / 0x20000000;
        let r = m % 0x20000000;
        let q2 = spec_round_up(q as nat, r as nat, 0x10000000);
        (s * 0x80000000 + (e - 896) * 0x800000 + q2) as u32
    } else if e >= 863 {
        // subnormal single-precision result
        let sh = (926 - e) as nat;
        let sig = 0x10000000000000 + m;
        let q = sig / pow2(sh) as int;
        let r = sig % pow2(sh) as int;
        let q2 = spec_round_up(q as nat, r as nat, pow2((sh - 1) as nat));
        (s * 0x80000000 + q2) as u32
    } else {
        // too small: signed zero
        (s * 0x80000000) as u32
    }
}

/// Truncating (toward zero) conversion of a double-precision bit pattern to
/// a signed 64-bit integer; NaN, infinities and out-of-range values give 0.
pub open spec fn spec_i64_trunc_of_f64_bits(w: u64) -> i64 {
    let s = w as int / 0x8000000000000000;
    let e = (w as int / 0x10000000000000) % 2048;
    let m = w as int % 0x10000000000000;
    if e == 2047 {
        0
    } else if e < 1023 {
        0
    } else if e <= 1074 {
        // significand is 2^52 + m, scaled down by 2^(52 - (e - 1023))
        let q = (0x10000000000000 + m) / pow2((1075 - e) as nat) as int;
        if s == 1 {
            (-q) as i64
        } else {
            q as i64
        }
    } else if e <= 1085 {
        let v = (0x10000000000000 + m) * pow2((e - 1075) as nat) as int;
        if s == 1 {
            (-v) as i64
        } else {
            v as i64
        }
    } else if e == 1086 && s == 1 && m == 0 {
        i64::MIN
    } else {
        0
    }
}

/// Exponentiation by repeated doubling; the executable twin of `pow2`.
pub fn pow2_u64(k: u64) -> (r: u64)
    requires
        k < 64,
    ensures
        r == pow2(k as nat),
{
    proof {
        lemma2_to64();
    }
    let mut i: u64 = 0;
    let mut p: u64 = 1;
    while i < k
        invariant
            i <= k < 64,
            p == pow2(i as nat),
        decreases k - i,
    {
        proof {
            lemma_pow2_strictly_increases(i as nat, 63);
            lemma2_to64_rest();
            lemma_pow2_adds(i as nat, 1);
            lemma2_to64();
        }
        p = p * 2;
        i = i + 1;
    }
    p
}

/// Exact widening of a single-precision bit pattern to double precision.
pub fn f64_bits_of_f32_bits(b: u32) -> (r: u64)
    ensures
        r == spec_f64_bits_of_f32_bits(b),
{
    let s: u64 = (b / 0x80000000) as u64;
    let e: u64 = ((b / 0x800000) % 256) as u64;
    let f: u64 = (b % 0x800000) as u64;
    if e == 255 {
        s * 0x8000000000000000 + 0x7ff0000000000000 + f * 0x20000000
    } else if e == 0 && f == 0 {
        s * 0x8000000000000000
    } else if e == 0 {
        let mut f2: u64 = f;
        let mut e2: u64 = 897;
        proof {
            lemma2_to64();
        }
        while f2 < 0x800000
            invariant
                1 <= f2 < 0x1000000,
                874 <= e2 <= 897,
                f2 >= pow2((897 - e2) as nat),
                spec_widen_norm(f2 as nat, e2 as nat) == spec_widen_norm(f as nat, 897),
            decreases 0x1000000 - f2,
        {
            proof {
                lemma2_to64();
                if 897 - e2 >= 22 {
                    if 897 - e2 > 22 {
                        lemma_pow2_strictly_increases(22, (897 - e2) as nat);
                    }
                    assert(f2 >= 0x400000);
                }
                lemma_pow2_adds((897 - e2) as nat, 1);
                assert(spec_widen_norm(f2 as nat, e2 as nat) == spec_widen_norm(
                    2 * (f2 as nat),
                    (e2 - 1) as nat,
                ));
            }
            f2 = f2 * 2;
            e2 = e2 - 1;
        }
        s * 0x8000000000000000 + e2 * 0x10000000000000 + (f2 - 0x800000) * 0x20000000
    } else {
        s * 0x8000000000000000 + (e + 896) * 0x10000000000000 + f * 0x20000000
    }
}

/// Round-to-nearest-even narrowing of a double-precision bit pattern.
pub fn f32_bits_of_f64_bits(w: u64) -> (r: u32)
    ensures
        r == spec_f32_bits_of_f64_bits(w),
{
    let s: u64 = w / 0x8000000000000000;
    let e: u64 = (w / 0x10000000000000) % 2048;
    let m: u64 = w % 0x10000000000000;
    if e == 2047 {
        let q = m / 0x20000000;
        if q != 0 {
            (s * 0x80000000 + 255 * 0x800000 + q) as u32
        } else if m != 0 {
            (s * 0x80000000 + 255 * 0x800000 + 0x400000) as u32
        } else {
            (s * 0x80000000 + 255 * 0x800000) as u32
        }
    } else if e > 1150 {
        (s * 0x80000000 + 255 * 0x800000) as u32
    } else if e >= 897 {
        let q = m / 0x20000000;
        let r0 = m % 0x20000000;
        proof {
            lemma_multiply_divide_lt(m as int, 0x20000000, 0x800000);
        }
        let q2 = if r0 > 0x10000000 || (r0 == 0x10000000 && q % 2 == 1) {
            q + 1
        } else {
            q
        };
        (s * 0x80000000 + (e - 896) * 0x800000 + q2) as u32
    } else if e >= 863 {
        let sh: u64 = 926 - e;
        let d = pow2_u64(sh);
        let half = pow2_u64(sh - 1);
        proof {
            lemma2_to64();
            lemma2_to64_rest();
            lemma_pow2_pos(sh as nat);
            lemma_pow2_pos((sh - 1) as nat);
            if sh > 30 {
                lemma_pow2_strictly_increases(30, sh as nat);
            }
            assert(d >= 0x40000000);
        }
        let sig: u64 = 0x10000000000000 + m;
        let q = sig / d;
        let r0 = sig % d;
        proof {
            lemma_multiply_divide_lt(sig as int, d as int, 0x800000);
        }
        let q2 = if r0 > half || (r0 == half && q % 2 == 1) {
            q + 1
        } else {
            q
        };
        (s * 0x80000000 + q2) as u32
    } else {
        (s * 0x80000000) as u32
    }
}

/// Truncating conversion of a double-precision bit pattern to `i64`.
pub fn i64_trunc_of_f64_bits(w: u64) -> (r: i64)
    ensures
        r == spec_i64_trunc_of_f64_bits(w),
{
    let s: u64 = w / 0x8000000000000000;
    let e: u64 = (w / 0x10000000000000) % 2048;
    let m: u64 = w % 0x10000000000000;
    if e == 2047 {
        0
    } else if e < 1023 {
        0
    } else if e <= 1074 {
        let d = pow2_u64(1075 - e);
        proof {
            lemma2_to64();
            lemma_pow2_pos((1075 - e) as nat);
            lemma_pow2_strictly_increases(0, (1075 - e) as nat);
            assert(d >= 2);
        }
        let sig: u64 = 0x10000000000000 + m;
        let q = sig / d;
        proof {
            lemma_multiply_divide_lt(sig as int, d as int, 0x20000000000000);
        }
        if s == 1 {
            -(q as i64)
        } else {
            q as i64
        }
    } else if e <= 1085 {
        let p = pow2_u64(e - 1075);
        let sig: u64 = 0x10000000000000 + m;
        proof {
            lemma2_to64();
            if e - 1075 < 10 {
                lemma_pow2_strictly_increases((e - 1075) as nat, 10);
            }
            assert(p <= 0x400);
            assert((sig as int) * (p as int) < 0x8000000000000000) by (nonlinear_arith)
                requires
                    sig < 0x20000000000000,
                    0 < p <= 0x400,
            ;
        }
        let v = sig * p;
        if s == 1 {
            -(v as i64)
        } else {
            v as i64
        }
    } else if e == 1086 && s == 1 && m == 0 {
        i64::MIN
    } else {
        0
    }
}

/// The normalization run reaches the hidden bit within 23 doublings and
/// multiplies the fraction by an exact power of two.
proof fn lemma_widen_norm(f: nat, e: nat)
    requires
        1 <= f < 0x1000000,
        874 <= e <= 897,
        f >= pow2((897 - e) as nat),
    ensures
        ({
            let (f2, e2) = spec_widen_norm(f, e);
            &&& 0x800000 <= f2 < 0x1000000
            &&& 874 <= e2 <= e
            &&& f2 as int == f * pow2((e - e2) as nat)
        }),
    decreases 0x1000000 - f,
{
    lemma2_to64();
    if f >= 0x800000 {
        assert(f * pow2(0) == f);
    } else {
        // f < 2^23, so 897 - e < 23, hence e >= 875 and e - 1 stays in range
        if 897 - e >= 23 {
            if 897 - e > 23 {
                lemma_pow2_strictly_increases(23, (897 - e) as nat);
            }
            assert(false);
        }
        lemma_pow2_adds((897 - e) as nat, 1);
        lemma_widen_norm(2 * f, (e - 1) as nat);
        let (f2, e2) = spec_widen_norm(2 * f, (e - 1) as nat);
        assert(spec_widen_norm(f, e) == spec_widen_norm(2 * f, (e - 1) as nat));
        lemma_pow2_adds((((e - 1) as nat) - e2) as nat, 1);
        assert(pow2((e - e2) as nat) == 2 * pow2(((e - 1) - e2) as nat));
        assert(f2 as int == f * pow2((e - e2) as nat)) by (nonlinear_arith)
            requires
                f2 as int == (2 * f) * (pow2(((e - 1) - e2) as nat) as int),
                pow2((e - e2) as nat) as int == 2 * (pow2(((e - 1) - e2) as nat) as int),
        ;
    }
}

/// Narrowing undoes widening exactly, for every single-precision bit
/// pattern, NaNs included.
pub proof fn lemma_f32_round_trip(b: u32)
    ensures
        spec_f32_bits_of_f64_bits(spec_f64_bits_of_f32_bits(b)) == b,
{
    lemma2_to64();
    lemma2_to64_rest();
    let s = b as int / 0x80000000;
    let e = (b as int / 0x800000) % 256;
    let f = b as int % 0x800000;
    // decompose b = (s * 256 + e) * 2^23 + f
    lemma_fundamental_div_mod(b as int, 0x800000);
    lemma_fundamental_div_mod(b as int / 0x800000, 256);
    lemma_div_denominator(b as int, 0x800000, 256);
    assert(b as int == (s * 256 + e) * 0x800000 + f);
    assert(0 <= s < 2) by {
        lemma_div_pos_is_pos(b as int, 0x80000000);
        lemma_multiply_divide_lt(b as int, 0x80000000, 2);
    }
    if e == 255 {
        let w = (s * 0x8000000000000000 + 0x7ff0000000000000 + f * 0x20000000) as u64;
        assert(s * 0x8000000000000000 + 0x7ff0000000000000 + f * 0x20000000 == (s * 2048 + 2047)
            * 0x10000000000000 + f * 0x20000000);
        lemma_split_f64(s, 2047, f * 0x20000000, s * 0x8000000000000000 + 0x7ff0000000000000 + f
            * 0x20000000);
        lemma_fundamental_div_mod_converse(f * 0x20000000, 0x20000000, f, 0);
        assert(s * 0x80000000 + 255 * 0x800000 + f == b as int);
    } else if e == 0 && f == 0 {
        lemma_split_f64(s, 0, 0, s * 0x8000000000000000);
        assert(s * 0x80000000 == b as int);
    } else if e == 0 {
        lemma_widen_norm(f as nat, 897);
        let (f2, e2) = spec_widen_norm(f as nat, 897);
        let k = (897 - e2) as nat;
        // at least one doubling happened, since f < 2^23
        if e2 == 897 {
            assert(f2 as int == f * pow2(0));
            assert(false);
        }
        let m = (f2 - 0x800000) * 0x20000000;
        assert(0 <= m < 0x10000000000000);
        assert(s * 0x8000000000000000 + e2 * 0x10000000000000 + m == (s * 2048 + e2)
            * 0x10000000000000 + m);
        lemma_split_f64(s, e2 as int, m, s * 0x8000000000000000 + e2 * 0x10000000000000 + m);
        let w = (s * 0x8000000000000000 + e2 * 0x10000000000000 + m) as u64;
        // the significand is exactly f shifted by 29 + k
        let sh = (926 - e2) as nat;
        assert(sh == 29 + k);
        assert(0x10000000000000 + m == f2 * 0x20000000);
        assert(f2 as int * 0x20000000 == f * (pow2(k) as int * 0x20000000)) by (nonlinear_arith)
            requires
                f2 as int == f * (pow2(k) as int),
        ;
        assert(pow2(sh) == pow2(k) * pow2(29)) by {
            lemma_pow2_adds(k, 29);
        }
        lemma_pow2_pos(sh);
        lemma_pow2_pos(k);
        assert(f * (pow2(k) as int * 0x20000000) == f * pow2(sh));
        lemma_fundamental_div_mod_converse(0x10000000000000 + m, pow2(sh) as int, f, 0);
        lemma_pow2_pos((sh - 1) as nat);
        assert(spec_round_up(f as nat, 0, pow2((sh - 1) as nat)) == f);
        assert(spec_f32_bits_of_f64_bits(w) == (s * 0x80000000 + f) as u32);
        assert(s * 0x80000000 + f == b as int);
    } else {
        let w = (s * 0x8000000000000000 + (e + 896) * 0x10000000000000 + f * 0x20000000) as u64;
        assert(s * 0x8000000000000000 + (e + 896) * 0x10000000000000 + f * 0x20000000 == (s * 2048
            + (e + 896)) * 0x10000000000000 + f * 0x20000000);
        lemma_split_f64(s, e + 896, f * 0x20000000, s * 0x8000000000000000 + (e + 896)
            * 0x10000000000000 + f * 0x20000000);
        lemma_fundamental_div_mod_converse(f * 0x20000000, 0x20000000, f, 0);
        assert(897 <= e + 896 <= 1150);
        assert(spec_round_up(f as nat, 0, 0x10000000) == f);
        assert(spec_f32_bits_of_f64_bits(w) == (s * 0x80000000 + (e + 896 - 896) * 0x800000
            + f) as u32);
        assert(s * 0x80000000 + e * 0x800000 + f == b as int);
    }
}

/// Splitting a double-precision pattern into sign, exponent and fraction is
/// the inverse of assembling it.
proof fn lemma_split_f64(s: int, e: int, m: int, w: int)
    requires
        0 <= s < 2,
        0 <= e < 2048,
        0 <= m < 0x10000000000000,
        w == (s * 2048 + e) * 0x10000000000000 + m,
    ensures
        w / 0x8000000000000000 == s,
        (w / 0x10000000000000) % 2048 == e,
        w % 0x10000000000000 == m,
        0 <= w < 0x10000000000000000,
        w as u64 as int == w,
{
    assert(0 <= s * 2048 + e < 4096);
    assert((s * 2048 + e) * 0x10000000000000 <= 4095 * 0x10000000000000) by (nonlinear_arith)
        requires
            0 <= s * 2048 + e < 4096,
    ;
    assert((s * 2048 + e) * 0x10000000000000 >= 0) by (nonlinear_arith)
        requires
            0 <= s * 2048 + e,
    ;
    lemma_fundamental_div_mod_converse(w, 0x10000000000000, s * 2048 + e, m);
    lemma_fundamental_div_mod_converse(s * 2048 + e, 2048, s, e);
    // w / 2^63 == (w / 2^52) / 2^11
    lemma_div_denominator(w, 0x10000000000000, 2048);
}

} // verus!
