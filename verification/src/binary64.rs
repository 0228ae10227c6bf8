//! Exact IEEE-754 binary64 arithmetic carried out on 64-bit encodings.
//!
//! The comparison kernel is specified to be bit-for-bit reproducible, so the
//! perceptual colour metric must round exactly as hardware double-precision
//! arithmetic does.  This module therefore implements the binary64 operations
//! the kernel needs (add, mul, div, conversions, comparisons) directly on the
//! encoding: 1 sign bit, 11 exponent bits, 52 fraction bits, with rounding to
//! nearest, ties to even.  Each executable function is proved equal to a spec
//! function that is its mathematical definition, so every caller's contract
//! pins down the exact bit pattern produced.

use vstd::prelude::*;

verus! {

use vstd::arithmetic::power2::pow2;

/// 2^52, the weight of the hidden mantissa bit.
pub const P52: u64 = 0x10000000000000;

/// 2^53, one past the largest normalised mantissa.
pub const P53: u64 = 0x20000000000000;

/// 2^62, the low end of a working significand with 10 rounding bits.
pub const P62: u64 = 0x4000000000000000;

/// 2^63, the sign bit.
pub const P63: u64 = 0x8000000000000000;

/// The canonical quiet NaN encoding.
pub const QNAN: u64 = 0x7ff8000000000000;

/// Encoding of +0.0.
pub const ZERO: u64 = 0;

/// The sign bit of an encoding, 0 or 1.
pub open spec fn sgn(b: u64) -> u64 {
    b / P63
}

/// The biased exponent field of an encoding, 0 to 2047.
pub open spec fn bexp(b: u64) -> u64 {
    (b / P52) % 2048
}

/// The fraction field of an encoding.
pub open spec fn frac(b: u64) -> u64 {
    b % P52
}

pub open spec fn is_nan(b: u64) -> bool {
    bexp(b) == 2047 && frac(b) != 0
}

pub open spec fn is_inf(b: u64) -> bool {
    bexp(b) == 2047 && frac(b) == 0
}

pub open spec fn is_zero(b: u64) -> bool {
    bexp(b) == 0 && frac(b) == 0
}

pub open spec fn is_finite_nonzero(b: u64) -> bool {
    bexp(b) != 2047 && !(bexp(b) == 0 && frac(b) == 0)
}

/// One halving step: divide by two and fold the lost bit into a sticky flag.
/// `spec_sr_pair(v, n)` is the significand after `n` such steps, with the
/// sticky flag recording whether any nonzero bit was shifted out.
pub open spec fn spec_sr_pair(v: u64, n: int) -> (u64, bool)
    decreases n,
{
    if n <= 0 {
        (v, false)
    } else {
        let p = spec_sr_pair(v, n - 1);
        ((p.0 / 2) as u64, p.1 || p.0 % 2 == 1)
    }
}

/// Shift right by `n` keeping the sticky information jammed into the lowest
/// bit, the classical preparation step for round-to-nearest-even.
pub open spec fn spec_srj(v: u64, n: int) -> u64 {
    if n >= 64 {
        if v != 0 {
            1u64
        } else {
            0u64
        }
    } else {
        let p = spec_sr_pair(v, n);
        if p.1 && p.0 % 2 == 0 {
            (p.0 + 1) as u64
        } else {
            p.0
        }
    }
}

proof fn lemma_sr_pair_le(v: u64, n: int)
    requires
        n >= 0,
    ensures
        spec_sr_pair(v, n).0 <= v,
        n >= 1 ==> spec_sr_pair(v, n).0 <= v / 2,
        n == 1 ==> spec_sr_pair(v, n).0 == v / 2,
        spec_sr_pair(v, n).1 ==> spec_sr_pair(v, n).0 < v,
    decreases n,
{
    if n >= 1 {
        lemma_sr_pair_le(v, n - 1);
    }
}

fn srj(v: u64, n: u32) -> (r: u64)
    ensures
        r == spec_srj(v, n as int),
        r <= v,
        n >= 1 ==> r <= v / 2 + 1,
        n == 1 ==> r >= v / 2,
{
    if n >= 64 {
        if v != 0 {
            1
        } else {
            0
        }
    } else {
        let mut q: u64 = v;
        let mut sticky: bool = false;
        let mut i: u32 = 0;
        while i < n
            invariant
                i <= n,
                n < 64,
                (q, sticky) == spec_sr_pair(v, i as int),
            decreases n - i,
        {
            let newq = q / 2;
            let news = sticky || q % 2 == 1;
            q = newq;
            sticky = news;
            i = i + 1;
        }
        proof {
            lemma_sr_pair_le(v, n as int);
        }
        if sticky && q % 2 == 0 {
            q + 1
        } else {
            q
        }
    }
}

/// Plain truncating shift right by `n`, used when converting to integers.
fn shr(v: u64, n: u32) -> (r: u64)
    requires
        n < 64,
    ensures
        r == spec_sr_pair(v, n as int).0,
        r <= v,
{
    let mut q: u64 = v;
    let mut i: u32 = 0;
    while i < n
        invariant
            i <= n,
            n < 64,
            q == spec_sr_pair(v, i as int).0,
            q <= v,
        decreases n - i,
    {
        q = q / 2;
        i = i + 1;
    }
    q
}

/// Double `v` (decrementing the exponent) until it reaches `bound`.
pub open spec fn spec_norm_up(v: u64, e: int, bound: u64) -> (u64, int)
    decreases 2 * bound - v,
{
    if v == 0 || v >= bound || v * 2 > u64::MAX {
        (v, e)
    } else {
        spec_norm_up((v * 2) as u64, e - 1, bound)
    }
}

fn norm_up(v: u64, e: i32, bound: u64) -> (r: (u64, i32))
    requires
        2 <= bound <= P63,
        (v as int) < 2 * bound,
        -5000 <= e <= 5000,
    ensures
        (r.0, r.1 as int) == spec_norm_up(v, e as int, bound),
        v >= 1 ==> bound <= r.0,
        (r.0 as int) < 2 * bound,
        e - 63 <= r.1 <= e,
        v == 0 ==> r.0 == 0,
{
    let mut m: u64 = v;
    let mut k: i32 = 0;
    proof {
        vstd::arithmetic::power2::lemma2_to64();
    }
    while m != 0 && m < bound
        invariant
            2 <= bound <= P63,
            (m as int) < 2 * bound,
            0 <= k <= 63,
            m == 0 ==> v == 0,
            v >= 1 ==> m >= 1,
            m != 0 ==> pow2(k as nat) <= m,
            spec_norm_up(v, e as int, bound) == spec_norm_up(m, e as int - k, bound),
        decreases 2 * bound - m,
    {
        proof {
            vstd::arithmetic::power2::lemma2_to64();
            vstd::arithmetic::power2::lemma2_to64_rest();
            assert(k < 63);
            vstd::arithmetic::power2::lemma_pow2_unfold((k + 1) as nat);
        }
        m = m * 2;
        k = k + 1;
    }
    (m, e - k)
}

/// Assemble a rounded encoding from sign `s`, biased exponent `e`, and a
/// working significand `sig` carrying 10 extra rounding bits.  Handles
/// overflow to infinity and underflow to the subnormal range, rounding to
/// nearest with ties to even.
pub open spec fn spec_round_pack(s: u64, e: int, sig: u64) -> u64 {
    if e >= 2047 {
        (s * P63 + 2047 * P52) as u64
    } else {
        let sig2 = if e <= 0 {
            spec_srj(sig, 1 - e)
        } else {
            sig
        };
        let e2: int = if e <= 0 {
            0
        } else {
            e
        };
        let rb = sig2 % 1024;
        let m0 = sig2 / 1024;
        let m: int = if rb > 512 || (rb == 512 && m0 % 2 == 1) {
            m0 + 1
        } else {
            m0 as int
        };
        if e2 == 0 {
            (s * P63 + m) as u64
        } else {
            (s * P63 + e2 * P52 + (m - P52)) as u64
        }
    }
}

fn round_pack(s: u64, e: i32, sig: u64) -> (r: u64)
    requires
        s <= 1,
        -2500 <= e <= 5000,
        e >= 1 ==> P62 <= sig,
        sig < P63,
    ensures
        r == spec_round_pack(s, e as int, sig),
        s == 0 ==> r < P63,
        s == 1 ==> r >= P63,
{
    if e >= 2047 {
        s * P63 + 2047 * P52
    } else {
        let mut sig2: u64 = sig;
        let mut e2: i32 = e;
        if e <= 0 {
            let sh: i32 = 1 - e;
            sig2 = srj(sig, sh as u32);
            e2 = 0;
            assert(sig2 <= P62) by {
                assert(sig / 2 + 1 <= P62);
            }
        }
        let rb = sig2 % 1024;
        let m0 = sig2 / 1024;
        let m: u64 = if rb > 512 || (rb == 512 && m0 % 2 == 1) {
            m0 + 1
        } else {
            m0
        };
        if e2 == 0 {
            s * P63 + m
        } else {
            s * P63 + (e2 as u64) * P52 + (m - P52)
        }
    }
}

/// Split a finite nonzero encoding into sign, a mantissa in `[2^52, 2^53)`,
/// and an adjusted biased exponent, so that the value is
/// `(-1)^s * m * 2^(e - 1075)`.
pub open spec fn spec_unpack(b: u64) -> (u64, u64, int) {
    let s = sgn(b);
    let be = bexp(b);
    let f = frac(b);
    if be == 0 {
        let n = spec_norm_up(f, 1, P52);
        (s, n.0, n.1)
    } else {
        (s, (f + P52) as u64, be as int)
    }
}

fn unpack(b: u64) -> (r: (u64, u64, i32))
    requires
        is_finite_nonzero(b),
    ensures
        (r.0, r.1, r.2 as int) == spec_unpack(b),
        r.0 <= 1,
        P52 <= r.1 < P53,
        -62 <= r.2 <= 2046,
{
    let s = b / P63;
    let be = (b / P52) % 2048;
    let f = b % P52;
    if be == 0 {
        let n = norm_up(f, 1, P52);
        (s, n.0, n.1)
    } else {
        (s, f + P52, be as i32)
    }
}

/// The encoding of +infinity or -infinity.
pub open spec fn spec_inf(s: u64) -> u64 {
    (s * P63 + 2047 * P52) as u64
}

/// IEEE-754 addition of two encodings, rounding to nearest, ties to even.
pub open spec fn spec_fb_add(a: u64, b: u64) -> u64 {
    if is_nan(a) || is_nan(b) {
        QNAN
    } else if is_inf(a) {
        if is_inf(b) && sgn(a) != sgn(b) {
            QNAN
        } else {
            a
        }
    } else if is_inf(b) {
        b
    } else if is_zero(a) && is_zero(b) {
        if sgn(a) == sgn(b) {
            a
        } else {
            ZERO
        }
    } else if is_zero(a) {
        b
    } else if is_zero(b) {
        a
    } else {
        let ua = spec_unpack(a);
        let ub = spec_unpack(b);
        let a_big = ua.2 > ub.2 || (ua.2 == ub.2 && ua.1 >= ub.1);
        let big = if a_big {
            ua
        } else {
            ub
        };
        let sml = if a_big {
            ub
        } else {
            ua
        };
        let d = big.2 - sml.2;
        let bs = (big.1 * 1024) as u64;
        let ss = spec_srj((sml.1 * 1024) as u64, d);
        if big.0 == sml.0 {
            let sum = bs + ss;
            if sum >= P63 {
                spec_round_pack(big.0, big.2 + 1, spec_srj(sum as u64, 1))
            } else {
                spec_round_pack(big.0, big.2, sum as u64)
            }
        } else {
            let diff = bs - ss;
            if diff == 0 {
                ZERO
            } else {
                let n = spec_norm_up(diff as u64, big.2, P62);
                spec_round_pack(big.0, n.1, n.0)
            }
        }
    }
}

pub fn fb_add(a: u64, b: u64) -> (r: u64)
    ensures
        r == spec_fb_add(a, b),
{
    let bea = (a / P52) % 2048;
    let fra = a % P52;
    let beb = (b / P52) % 2048;
    let frb = b % P52;
    if (bea == 2047 && fra != 0) || (beb == 2047 && frb != 0) {
        return QNAN;
    }
    if bea == 2047 {
        if beb == 2047 && a / P63 != b / P63 {
            return QNAN;
        }
        return a;
    }
    if beb == 2047 {
        return b;
    }
    if bea == 0 && fra == 0 && beb == 0 && frb == 0 {
        if a / P63 == b / P63 {
            return a;
        }
        return ZERO;
    }
    if bea == 0 && fra == 0 {
        return b;
    }
    if beb == 0 && frb == 0 {
        return a;
    }
    let ua = unpack(a);
    let ub = unpack(b);
    let a_big = ua.2 > ub.2 || (ua.2 == ub.2 && ua.1 >= ub.1);
    let (sb, mb, eb) = if a_big {
        ua
    } else {
        ub
    };
    let (ss_, ms, es) = if a_big {
        ub
    } else {
        ua
    };
    let d = eb - es;
    let bs: u64 = mb * 1024;
    let ss: u64 = srj(ms * 1024, d as u32);
    if sb == ss_ {
        let sum = bs + ss;
        if sum >= P63 {
            let sj = srj(sum, 1);
            round_pack(sb, eb + 1, sj)
        } else {
            round_pack(sb, eb, sum)
        }
    } else {
        assert(ss <= bs);
        let diff = bs - ss;
        if diff == 0 {
            ZERO
        } else {
            let n = norm_up(diff, eb, P62);
            round_pack(sb, n.1, n.0)
        }
    }
}

/// Flip the sign of an encoding, the exact bit operation of unary minus.
pub open spec fn spec_fb_neg(a: u64) -> u64 {
    if a >= P63 {
        (a - P63) as u64
    } else {
        (a + P63) as u64
    }
}

pub fn fb_neg(a: u64) -> (r: u64)
    ensures
        r == spec_fb_neg(a),
{
    if a >= P63 {
        a - P63
    } else {
        a + P63
    }
}

/// Clear the sign of an encoding, the exact bit operation of `abs`.
pub open spec fn spec_fb_abs(a: u64) -> u64 {
    a % P63
}

pub fn fb_abs(a: u64) -> (r: u64)
    ensures
        r == spec_fb_abs(a),
{
    a % P63
}

/// IEEE-754 subtraction: addition of the negated second operand.
pub open spec fn spec_fb_sub(a: u64, b: u64) -> u64 {
    spec_fb_add(a, spec_fb_neg(b))
}

pub fn fb_sub(a: u64, b: u64) -> (r: u64)
    ensures
        r == spec_fb_sub(a, b),
{
    fb_add(a, fb_neg(b))
}

/// IEEE-754 multiplication of two encodings, rounding to nearest, ties to
/// even.
pub open spec fn spec_fb_mul(a: u64, b: u64) -> u64 {
    if is_nan(a) || is_nan(b) {
        QNAN
    } else {
        let s: u64 = if sgn(a) != sgn(b) {
            1u64
        } else {
            0u64
        };
        if is_inf(a) || is_inf(b) {
            if is_zero(a) || is_zero(b) {
                QNAN
            } else {
                spec_inf(s)
            }
        } else if is_zero(a) || is_zero(b) {
            (s * P63) as u64
        } else {
            let ua = spec_unpack(a);
            let ub = spec_unpack(b);
            let p: int = ua.1 * ub.1;
            let e: int = ua.2 + ub.2 - 1023;
            let big = p >= 0x200000000000000000000000000;
            let e2: int = if big {
                e + 1
            } else {
                e
            };
            let sh: int = if big {
                0x80000000000
            } else {
                0x40000000000
            };
            let q = p / sh;
            let sig: int = if p % sh != 0 && q % 2 == 0 {
                q + 1
            } else {
                q
            };
            spec_round_pack(s, e2, sig as u64)
        }
    }
}

pub fn fb_mul(a: u64, b: u64) -> (r: u64)
    ensures
        r == spec_fb_mul(a, b),
{
    let bea = (a / P52) % 2048;
    let fra = a % P52;
    let beb = (b / P52) % 2048;
    let frb = b % P52;
    if (bea == 2047 && fra != 0) || (beb == 2047 && frb != 0) {
        return QNAN;
    }
    let s: u64 = if a / P63 != b / P63 {
        1
    } else {
        0
    };
    if bea == 2047 || beb == 2047 {
        if (bea == 0 && fra == 0) || (beb == 0 && frb == 0) {
            return QNAN;
        }
        return s * P63 + 2047 * P52;
    }
    if (bea == 0 && fra == 0) || (beb == 0 && frb == 0) {
        return s * P63;
    }
    let ua = unpack(a);
    let ub = unpack(b);
    let ma = ua.1 as u128;
    let mbv = ub.1 as u128;
    assert(ma * mbv < 0x400000000000000000000000000 && ma * mbv >= 0x100000000000000000000000000)
        by (nonlinear_arith)
        requires
            0x10000000000000 <= ma < 0x20000000000000,
            0x10000000000000 <= mbv < 0x20000000000000,
    ;
    let p: u128 = ma * mbv;
    let e: i32 = ua.2 + ub.2 - 1023;
    let (sh, e2): (u128, i32) = if p >= 0x200000000000000000000000000 {
        (0x80000000000u128, e + 1)
    } else {
        (0x40000000000u128, e)
    };
    let q = p / sh;
    assert(0x4000000000000000 <= q < 0x8000000000000000) by (nonlinear_arith)
        requires
            (p >= 0x200000000000000000000000000 && sh == 0x80000000000 && p
                < 0x400000000000000000000000000) || (p < 0x200000000000000000000000000 && sh
                == 0x40000000000 && p >= 0x100000000000000000000000000),
            q == p / sh,
    ;
    let sig: u64 = if p % sh != 0 && q % 2 == 0 {
        (q as u64) + 1
    } else {
        q as u64
    };
    round_pack(s, e2, sig)
}

proof fn lemma_norm_up_ge(v: u64, e: int, bound: u64)
    requires
        1 <= v,
        2 <= bound <= P63,
        (v as int) < 2 * bound,
    ensures
        bound <= spec_norm_up(v, e, bound).0,
        (spec_norm_up(v, e, bound).0 as int) < 2 * bound,
    decreases 2 * bound - v,
{
    if v < bound {
        lemma_norm_up_ge((v * 2) as u64, e - 1, bound);
    }
}

/// The mantissa of a finite nonzero encoding is normalised into
/// `[2^52, 2^53)` and the sign is a single bit.
pub proof fn lemma_unpack_bounds(b: u64)
    requires
        is_finite_nonzero(b),
    ensures
        spec_unpack(b).0 <= 1,
        P52 <= spec_unpack(b).1 < P53,
{
    if bexp(b) == 0 {
        lemma_norm_up_ge(frac(b), 1, P52);
    }
}

proof fn lemma_srj_le(v: u64, n: int)
    requires
        n >= 0,
    ensures
        spec_srj(v, n) <= v,
        n >= 1 ==> (spec_srj(v, n) as int) <= v / 2 + 1,
{
    if n < 64 {
        lemma_sr_pair_le(v, n);
    }
}

/// The sign bit of a packed encoding is exactly the sign handed to the
/// packing step, provided the working significand is in range.
proof fn lemma_round_pack_sign(s: u64, e: int, sig: u64)
    requires
        s <= 1,
        sig < P63,
        e >= 1 ==> P62 <= sig,
    ensures
        s == 0 ==> spec_round_pack(s, e, sig) < P63,
        s == 1 ==> spec_round_pack(s, e, sig) >= P63,
{
    if e < 2047 && e <= 0 {
        lemma_srj_le(sig, 1 - e);
    }
}

/// A product's sign is the exclusive or of the operand signs, unless the
/// result is NaN.
pub proof fn lemma_mul_sign(a: u64, b: u64)
    ensures
        is_nan(spec_fb_mul(a, b)) || (if sgn(a) == sgn(b) {
            spec_fb_mul(a, b) < P63
        } else {
            spec_fb_mul(a, b) >= P63
        }),
{
    if !is_nan(a) && !is_nan(b) {
        let s: u64 = if sgn(a) != sgn(b) {
            1u64
        } else {
            0u64
        };
        if is_inf(a) || is_inf(b) {
        } else if is_zero(a) || is_zero(b) {
        } else {
            lemma_unpack_bounds(a);
            lemma_unpack_bounds(b);
            let ua = spec_unpack(a);
            let ub = spec_unpack(b);
            let p: int = ua.1 * ub.1;
            assert(0x100000000000000000000000000 <= p < 0x400000000000000000000000000)
                by (nonlinear_arith)
                requires
                    0x10000000000000 <= ua.1 < 0x20000000000000,
                    0x10000000000000 <= ub.1 < 0x20000000000000,
                    p == ua.1 * ub.1,
            ;
            let big = p >= 0x200000000000000000000000000;
            let sh: int = if big {
                0x80000000000
            } else {
                0x40000000000
            };
            let q = p / sh;
            assert(0x4000000000000000 <= q < 0x8000000000000000) by (nonlinear_arith)
                requires
                    (p >= 0x200000000000000000000000000 && sh == 0x80000000000 && p
                        < 0x400000000000000000000000000) || (p < 0x200000000000000000000000000
                        && sh == 0x40000000000 && p >= 0x100000000000000000000000000),
                    q == p / sh,
            ;
            let sig: int = if p % sh != 0 && q % 2 == 0 {
                q + 1
            } else {
                q
            };
            lemma_round_pack_sign(s, ua.2 + ub.2 - 1023 + (if big {
                1int
            } else {
                0int
            }), sig as u64);
        }
    }
}

/// IEEE-754 division of two encodings, rounding to nearest, ties to even.
pub open spec fn spec_fb_div(a: u64, b: u64) -> u64 {
    if is_nan(a) || is_nan(b) {
        QNAN
    } else {
        let s: u64 = if sgn(a) != sgn(b) {
            1u64
        } else {
            0u64
        };
        if is_inf(a) {
            if is_inf(b) {
                QNAN
            } else {
                spec_inf(s)
            }
        } else if is_inf(b) {
            (s * P63) as u64
        } else if is_zero(a) {
            if is_zero(b) {
                QNAN
            } else {
                (s * P63) as u64
            }
        } else if is_zero(b) {
            spec_inf(s)
        } else {
            let ua = spec_unpack(a);
            let ub = spec_unpack(b);
            let a_ge = ua.1 >= ub.1;
            let num: int = if a_ge {
                ua.1 * P62
            } else {
                ua.1 * P63
            };
            let e: int = if a_ge {
                ua.2 - ub.2 + 1023
            } else {
                ua.2 - ub.2 + 1022
            };
            let q = num / (ub.1 as int);
            let sig: int = if num % (ub.1 as int) != 0 && q % 2 == 0 {
                q + 1
            } else {
                q
            };
            spec_round_pack(s, e, sig as u64)
        }
    }
}

pub fn fb_div(a: u64, b: u64) -> (r: u64)
    ensures
        r == spec_fb_div(a, b),
{
    let bea = (a / P52) % 2048;
    let fra = a % P52;
    let beb = (b / P52) % 2048;
    let frb = b % P52;
    if (bea == 2047 && fra != 0) || (beb == 2047 && frb != 0) {
        return QNAN;
    }
    let s: u64 = if a / P63 != b / P63 {
        1
    } else {
        0
    };
    if bea == 2047 {
        if beb == 2047 {
            return QNAN;
        }
        return s * P63 + 2047 * P52;
    }
    if beb == 2047 {
        return s * P63;
    }
    if bea == 0 && fra == 0 {
        if beb == 0 && frb == 0 {
            return QNAN;
        }
        return s * P63;
    }
    if beb == 0 && frb == 0 {
        return s * P63 + 2047 * P52;
    }
    let ua = unpack(a);
    let ub = unpack(b);
    let a_ge = ua.1 >= ub.1;
    let num: u128 = if a_ge {
        (ua.1 as u128) * (P62 as u128)
    } else {
        (ua.1 as u128) * (P63 as u128)
    };
    let den: u128 = ub.1 as u128;
    let q: u128 = num / den;
    let rem: u128 = num % den;
    assert(0x4000000000000000 <= q < 0x8000000000000000) by (nonlinear_arith)
        requires
            0x10000000000000 <= ua.1 < 0x20000000000000,
            0x10000000000000 <= ub.1 < 0x20000000000000,
            den == ub.1 as u128,
            (ua.1 >= ub.1 && num == (ua.1 as u128) * (P62 as u128)) || (ua.1 < ub.1 && num == (
            ua.1 as u128) * (P63 as u128)),
            q == num / den,
    ;
    let e: i32 = if a_ge {
        ua.2 - ub.2 + 1023
    } else {
        ua.2 - ub.2 + 1022
    };
    let sig: u64 = if rem != 0 && q % 2 == 0 {
        (q as u64) + 1
    } else {
        q as u64
    };
    round_pack(s, e, sig)
}

/// The encoding of an unsigned 64-bit integer, rounded to nearest, ties to
/// even (exact whenever the integer fits in 53 bits).
pub open spec fn spec_fb_of_u64(v: u64) -> u64 {
    if v == 0 {
        0u64
    } else {
        let n = spec_norm_up(v, 1075, P63);
        spec_round_pack(0, n.1 + 11, spec_srj(n.0, 1))
    }
}

pub fn fb_of_u64(v: u64) -> (r: u64)
    ensures
        r == spec_fb_of_u64(v),
        r < P63,
{
    if v == 0 {
        return 0;
    }
    let n = norm_up(v, 1075, P63);
    let sig = srj(n.0, 1);
    round_pack(0, n.1 + 11, sig)
}

/// The encoding of a signed 64-bit integer, rounded to nearest, ties to even.
pub open spec fn spec_fb_of_i64(v: i64) -> u64 {
    if v >= 0 {
        spec_fb_of_u64(v as u64)
    } else {
        let mag: u64 = if v == i64::MIN {
            P63
        } else {
            (-v) as u64
        };
        (spec_fb_of_u64(mag) + P63) as u64
    }
}

pub fn fb_of_i64(v: i64) -> (r: u64)
    ensures
        r == spec_fb_of_i64(v),
{
    if v >= 0 {
        fb_of_u64(v as u64)
    } else {
        let mag: u64 = if v == i64::MIN {
            P63
        } else {
            (-v) as u64
        };
        let m = fb_of_u64(mag);
        m + P63
    }
}

/// Truncation of an encoding toward zero, saturating at the `i64` range,
/// with NaN mapped to zero: the semantics of Rust's `as i64` cast.
pub open spec fn spec_fb_trunc_i64(b: u64) -> i64 {
    if is_nan(b) {
        0i64
    } else if is_inf(b) {
        if sgn(b) == 1 {
            i64::MIN
        } else {
            i64::MAX
        }
    } else if is_zero(b) {
        0i64
    } else {
        let u = spec_unpack(b);
        let ee: int = u.2 - 1075;
        if ee >= 11 {
            if u.0 == 1 {
                i64::MIN
            } else {
                i64::MAX
            }
        } else if ee >= 0 {
            let v: int = u.1 * pow2(ee as nat);
            if u.0 == 1 {
                (-v) as i64
            } else {
                v as i64
            }
        } else if ee <= -53 {
            0i64
        } else {
            let v = spec_sr_pair(u.1, -ee).0;
            if u.0 == 1 {
                (-(v as int)) as i64
            } else {
                v as i64
            }
        }
    }
}

pub fn fb_trunc_i64(b: u64) -> (r: i64)
    ensures
        r == spec_fb_trunc_i64(b),
{
    let be = (b / P52) % 2048;
    let fr = b % P52;
    if be == 2047 && fr != 0 {
        return 0;
    }
    if be == 2047 {
        if b / P63 == 1 {
            return i64::MIN;
        }
        return i64::MAX;
    }
    if be == 0 && fr == 0 {
        return 0;
    }
    let u = unpack(b);
    let ee: i32 = u.2 - 1075;
    if ee >= 11 {
        if u.0 == 1 {
            i64::MIN
        } else {
            i64::MAX
        }
    } else if ee >= 0 {
        let f: u64 = if ee == 0 {
            1
        } else if ee == 1 {
            2
        } else if ee == 2 {
            4
        } else if ee == 3 {
            8
        } else if ee == 4 {
            16
        } else if ee == 5 {
            32
        } else if ee == 6 {
            64
        } else if ee == 7 {
            128
        } else if ee == 8 {
            256
        } else if ee == 9 {
            512
        } else {
            1024
        };
        proof {
            vstd::arithmetic::power2::lemma2_to64();
            assert(f == pow2(ee as nat));
        }
        assert(u.1 * f < 0x8000000000000000) by (nonlinear_arith)
            requires
                u.1 < 0x20000000000000,
                f <= 1024,
        ;
        let v: u64 = u.1 * f;
        if u.0 == 1 {
            -(v as i64)
        } else {
            v as i64
        }
    } else if ee <= -53 {
        0
    } else {
        let v = shr(u.1, (-ee) as u32);
        if u.0 == 1 {
            -(v as i64)
        } else {
            v as i64
        }
    }
}

/// Truncation of an encoding toward zero, saturating at the `u8` range, with
/// NaN mapped to zero: the semantics of Rust's `as u8` cast.
pub open spec fn spec_fb_to_byte(b: u64) -> u8 {
    if is_nan(b) {
        0u8
    } else if sgn(b) == 1 {
        0u8
    } else if is_inf(b) {
        255u8
    } else if is_zero(b) {
        0u8
    } else {
        let u = spec_unpack(b);
        let ee: int = u.2 - 1075;
        if ee >= 0 {
            255u8
        } else if ee <= -53 {
            0u8
        } else {
            let v = spec_sr_pair(u.1, -ee).0;
            if v > 255 {
                255u8
            } else {
                v as u8
            }
        }
    }
}

pub fn fb_to_byte(b: u64) -> (r: u8)
    ensures
        r == spec_fb_to_byte(b),
{
    let be = (b / P52) % 2048;
    let fr = b % P52;
    if be == 2047 && fr != 0 {
        return 0;
    }
    if b / P63 == 1 {
        return 0;
    }
    if be == 2047 {
        return 255;
    }
    if be == 0 && fr == 0 {
        return 0;
    }
    let u = unpack(b);
    let ee: i32 = u.2 - 1075;
    if ee >= 0 {
        255
    } else if ee <= -53 {
        0
    } else {
        let v = shr(u.1, (-ee) as u32);
        if v > 255 {
            255
        } else {
            v as u8
        }
    }
}

/// The signed magnitude of an encoding on the integer number line: encodings
/// of non-NaN values compare exactly as the values do under this key.
pub open spec fn spec_ord(b: u64) -> int {
    if b >= P63 {
        -((b - P63) as int)
    } else {
        b as int
    }
}

/// IEEE-754 `<` on encodings: false if either operand is NaN, and the two
/// zeroes compare equal.
pub open spec fn spec_fb_lt(a: u64, b: u64) -> bool {
    !is_nan(a) && !is_nan(b) && spec_ord(a) < spec_ord(b)
}

pub fn fb_lt(a: u64, b: u64) -> (r: bool)
    ensures
        r == spec_fb_lt(a, b),
{
    let bea = (a / P52) % 2048;
    let beb = (b / P52) % 2048;
    if (bea == 2047 && a % P52 != 0) || (beb == 2047 && b % P52 != 0) {
        return false;
    }
    let maga = a % P63;
    let magb = b % P63;
    if a >= P63 {
        if b >= P63 {
            magb < maga
        } else {
            !(maga == 0 && magb == 0)
        }
    } else {
        if b >= P63 {
            false
        } else {
            maga < magb
        }
    }
}

/// IEEE-754 `>` on encodings.
pub open spec fn spec_fb_gt(a: u64, b: u64) -> bool {
    spec_fb_lt(b, a)
}

pub fn fb_gt(a: u64, b: u64) -> (r: bool)
    ensures
        r == spec_fb_gt(a, b),
{
    fb_lt(b, a)
}

/// IEEE-754 `==` on encodings: false if either operand is NaN, and the two
/// zeroes compare equal.
pub open spec fn spec_fb_eq(a: u64, b: u64) -> bool {
    !is_nan(a) && !is_nan(b) && spec_ord(a) == spec_ord(b)
}

pub fn fb_eq(a: u64, b: u64) -> (r: bool)
    ensures
        r == spec_fb_eq(a, b),
{
    let bea = (a / P52) % 2048;
    let beb = (b / P52) % 2048;
    if (bea == 2047 && a % P52 != 0) || (beb == 2047 && b % P52 != 0) {
        return false;
    }
    let maga = a % P63;
    let magb = b % P63;
    if maga == 0 && magb == 0 {
        true
    } else {
        a == b
    }
}

} // verus!
