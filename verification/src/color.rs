//! The perceptual colour metric.
//!
//! A pixel pair's difference is projected into a YIQ-like space and measured
//! with fixed channel weights; semi-transparent pixels are first blended
//! against a deterministic dithered background keyed on the byte offset.
//! All arithmetic is IEEE-754 binary64, carried out exactly on encodings by
//! `binary64`, so the result is pinned bit for bit by `spec_color_delta`.

use vstd::prelude::*;

use crate::binary64::{
    fb_add, fb_div, fb_gt, fb_mul, fb_neg, fb_of_i64, fb_of_u64, fb_sub, fb_to_byte, fb_trunc_i64,
    spec_fb_add, spec_fb_div, spec_fb_gt, spec_fb_mul, spec_fb_neg, spec_fb_of_i64,
    spec_fb_of_u64, spec_fb_sub, spec_fb_to_byte, spec_fb_trunc_i64, P63, ZERO,
};

verus! {

/// Bits of 0.29889531, the red weight of the luminance row.
pub const W_YR: u64 = 0x3fd32119cb582d94;

/// Bits of 0.58662247, the green weight of the luminance row.
pub const W_YG: u64 = 0x3fe2c59c7c77f5b0;

/// Bits of 0.11448223, the blue weight of the luminance row.
pub const W_YB: u64 = 0x3fbd4eb519d2b9f7;

/// Bits of 0.59597799, the red weight of the I row.
pub const W_IR: u64 = 0x3fe312406f05f232;

/// Bits of 0.27417610, the green weight of the I row.
pub const W_IG: u64 = 0x3fd18c19e9b6119f;

/// Bits of 0.32180189, the blue weight of the I row.
pub const W_IB: u64 = 0x3fd49866f455d2c5;

/// Bits of 0.21147017, the red weight of the Q row.
pub const W_QR: u64 = 0x3fcb11745c1d623c;

/// Bits of 0.52261711, the green weight of the Q row.
pub const W_QG: u64 = 0x3fe0b9478478f60b;

/// Bits of 0.31114694, the blue weight of the Q row.
pub const W_QB: u64 = 0x3fd3e9d4dae33af8;

/// Bits of 0.5053, the luminance coefficient of the magnitude form.
pub const C_Y2: u64 = 0x3fe02b6ae7d566cf;

/// Bits of 0.299, the I coefficient of the magnitude form.
pub const C_I2: u64 = 0x3fd322d0e5604189;

/// Bits of 0.1957, the Q coefficient of the magnitude form.
pub const C_Q2: u64 = 0x3fc90cb295e9e1b1;

/// Bits of 255.0.
pub const B255: u64 = 0x406fe00000000000;

/// Bits of 1.618033988749895, the dither divisor for the green channel.
pub const PHI1: u64 = 0x3ff9e3779b97f4a8;

/// Bits of 2.618033988749895, the dither divisor for the blue channel.
pub const PHI2: u64 = 0x4004f1bbcdcbfa54;

/// The background channel value `48 + 159 * (t % 2)` of the dither pattern,
/// where `t` carries the sign semantics of Rust's `%` on `i64`.
pub open spec fn spec_dither_level(t: i64) -> int {
    if t >= 0 {
        48 + 159 * ((t as int) % 2)
    } else {
        48 - 159 * ((-(t as int)) % 2)
    }
}

/// The dithered background channel derived from byte offset `k` and an
/// irrational divisor `phi`: `48 + 159 * ((k as f64 / phi) as i64 % 2)`.
pub open spec fn spec_dither_channel(k: int, phi: u64) -> int {
    spec_dither_level(spec_fb_trunc_i64(spec_fb_div(spec_fb_of_u64(k as u64), phi)))
}

/// The signed perceptual colour difference between the pixel at byte offset
/// `k` of `img1` and the pixel at byte offset `m` of `img2`, as an IEEE-754
/// binary64 encoding.  Exactly zero when the two pixels agree in all four
/// channels.  With `y_only` the signed luminance difference is returned
/// instead of the full magnitude form.
#[verifier::opaque]
pub open spec fn spec_color_delta(
    img1: Seq<u8>,
    img2: Seq<u8>,
    k: int,
    m: int,
    y_only: bool,
) -> u64 {
    let r1 = img1[k] as int;
    let g1 = img1[k + 1] as int;
    let b1 = img1[k + 2] as int;
    let a1 = img1[k + 3] as int;
    let r2 = img2[m] as int;
    let g2 = img2[m + 1] as int;
    let b2 = img2[m + 2] as int;
    let a2 = img2[m + 3] as int;
    if r1 == r2 && g1 == g2 && b1 == b2 && a1 == a2 {
        ZERO
    } else {
        let blend = a1 < 255 || a2 < 255;
        let da = a1 - a2;
        let rb = 48 + 159 * (k % 2);
        let gb = spec_dither_channel(k, PHI1);
        let bb = spec_dither_channel(k, PHI2);
        let drf = if blend {
            spec_fb_div(spec_fb_of_i64((r1 * a1 - r2 * a2 - rb * da) as i64), B255)
        } else {
            spec_fb_of_i64((r1 - r2) as i64)
        };
        let dgf = if blend {
            spec_fb_div(spec_fb_of_i64((g1 * a1 - g2 * a2 - gb * da) as i64), B255)
        } else {
            spec_fb_of_i64((g1 - g2) as i64)
        };
        let dbf = if blend {
            spec_fb_div(spec_fb_of_i64((b1 * a1 - b2 * a2 - bb * da) as i64), B255)
        } else {
            spec_fb_of_i64((b1 - b2) as i64)
        };
        let y = spec_fb_add(
            spec_fb_add(spec_fb_mul(drf, W_YR), spec_fb_mul(dgf, W_YG)),
            spec_fb_mul(dbf, W_YB),
        );
        if y_only {
            y
        } else {
            let iv = spec_fb_sub(
                spec_fb_sub(spec_fb_mul(drf, W_IR), spec_fb_mul(dgf, W_IG)),
                spec_fb_mul(dbf, W_IB),
            );
            let qv = spec_fb_add(
                spec_fb_sub(spec_fb_mul(drf, W_QR), spec_fb_mul(dgf, W_QG)),
                spec_fb_mul(dbf, W_QB),
            );
            let delta = spec_fb_add(
                spec_fb_add(
                    spec_fb_mul(spec_fb_mul(C_Y2, y), y),
                    spec_fb_mul(spec_fb_mul(C_I2, iv), iv),
                ),
                spec_fb_mul(spec_fb_mul(C_Q2, qv), qv),
            );
            if spec_fb_gt(y, ZERO) {
                spec_fb_neg(delta)
            } else {
                delta
            }
        }
    }
}

/// Read one byte of an image buffer.
pub fn byte_at(s: &[u8], i: usize) -> (r: u8)
    requires
        i < s@.len(),
    ensures
        r == s@[i as int],
{
    *vstd::slice::slice_index_get(s, i)
}

/// The dither level of a truncated quotient, with the sign semantics of
/// Rust's `%` on `i64`.
fn dither_level(t: i64) -> (r: i64)
    ensures
        r as int == spec_dither_level(t),
        -111 <= r <= 207,
{
    if t >= 0 {
        let par: i64 = if t % 2 == 1 {
            1
        } else {
            0
        };
        48 + 159 * par
    } else {
        let mag: u64 = if t == i64::MIN {
            P63
        } else {
            (-t) as u64
        };
        let par: i64 = if mag % 2 == 1 {
            1
        } else {
            0
        };
        48 - 159 * par
    }
}

/// Calculate the colour difference of two pixels given as byte offsets
/// `k` into `img1` and `m` into `img2`; the result is the IEEE-754 binary64
/// encoding of the signed perceptual difference, `spec_color_delta` exactly.
#[verifier::rlimit(100)]
pub fn color_delta(img1: &[u8], img2: &[u8], k: usize, m: usize, y_only: bool) -> (r: u64)
    requires
        k + 3 < img1@.len(),
        m + 3 < img2@.len(),
    ensures
        r == spec_color_delta(img1@, img2@, k as int, m as int, y_only),
{
    proof {
        reveal(crate::color::spec_color_delta);
    }
    let _n1: usize = img1.len();
    let _n2: usize = img2.len();
    let r1 = byte_at(img1, k) as i64;
    let g1 = byte_at(img1, k + 1) as i64;
    let b1 = byte_at(img1, k + 2) as i64;
    let a1 = byte_at(img1, k + 3) as i64;
    let r2 = byte_at(img2, m) as i64;
    let g2 = byte_at(img2, m + 1) as i64;
    let b2 = byte_at(img2, m + 2) as i64;
    let a2 = byte_at(img2, m + 3) as i64;
    if r1 == r2 && g1 == g2 && b1 == b2 && a1 == a2 {
        return ZERO;
    }
    let blend = a1 < 255 || a2 < 255;
    let (drf, dgf, dbf): (u64, u64, u64) = if blend {
        let da = a1 - a2;
        let rb: i64 = if k % 2 == 1 {
            207
        } else {
            48
        };
        let kf = fb_of_u64(k as u64);
        let gb = dither_level(fb_trunc_i64(fb_div(kf, PHI1)));
        let bb = dither_level(fb_trunc_i64(fb_div(kf, PHI2)));
        assert(0 <= r1 * a1 <= 65025 && 0 <= r2 * a2 <= 65025 && 0 <= g1 * a1 <= 65025 && 0 <= g2
            * a2 <= 65025 && 0 <= b1 * a1 <= 65025 && 0 <= b2 * a2 <= 65025 && -52785 <= rb * da
            <= 52785 && -52785 <= gb * da <= 52785 && -52785 <= bb * da <= 52785)
            by (nonlinear_arith)
            requires
                0 <= r1 <= 255,
                0 <= g1 <= 255,
                0 <= b1 <= 255,
                0 <= a1 <= 255,
                0 <= r2 <= 255,
                0 <= g2 <= 255,
                0 <= b2 <= 255,
                0 <= a2 <= 255,
                -255 <= da <= 255,
                -111 <= rb <= 207,
                -111 <= gb <= 207,
                -111 <= bb <= 207,
        ;
        let drf = fb_div(fb_of_i64(r1 * a1 - r2 * a2 - rb * da), B255);
        let dgf = fb_div(fb_of_i64(g1 * a1 - g2 * a2 - gb * da), B255);
        let dbf = fb_div(fb_of_i64(b1 * a1 - b2 * a2 - bb * da), B255);
        (drf, dgf, dbf)
    } else {
        (fb_of_i64(r1 - r2), fb_of_i64(g1 - g2), fb_of_i64(b1 - b2))
    };
    let y = fb_add(fb_add(fb_mul(drf, W_YR), fb_mul(dgf, W_YG)), fb_mul(dbf, W_YB));
    if y_only {
        return y;
    }
    let iv = fb_sub(fb_sub(fb_mul(drf, W_IR), fb_mul(dgf, W_IG)), fb_mul(dbf, W_IB));
    let qv = fb_add(fb_sub(fb_mul(drf, W_QR), fb_mul(dgf, W_QG)), fb_mul(dbf, W_QB));
    let delta = fb_add(
        fb_add(fb_mul(fb_mul(C_Y2, y), y), fb_mul(fb_mul(C_I2, iv), iv)),
        fb_mul(fb_mul(C_Q2, qv), qv),
    );
    if fb_gt(y, ZERO) {
        fb_neg(delta)
    } else {
        delta
    }
}

/// Whether the four channel bytes of the pixel at offset `p` of `a` equal
/// those of the pixel at offset `q` of `b`.
pub open spec fn pixels_eq(a: Seq<u8>, b: Seq<u8>, p: int, q: int) -> bool {
    a[p] == b[q] && a[p + 1] == b[q + 1] && a[p + 2] == b[q + 2] && a[p + 3] == b[q + 3]
}

/// Compare the four channel bytes of two pixels, the fast equality test of
/// the scanning loops.
pub fn pixels_equal(a: &[u8], b: &[u8], p: usize, q: usize) -> (r: bool)
    requires
        p + 3 < a@.len(),
        q + 3 < b@.len(),
    ensures
        r == pixels_eq(a@, b@, p as int, q as int),
{
    let _na: usize = a.len();
    let _nb: usize = b.len();
    byte_at(a, p) == byte_at(b, q) && byte_at(a, p + 1) == byte_at(b, q + 1) && byte_at(a, p + 2)
        == byte_at(b, q + 2) && byte_at(a, p + 3) == byte_at(b, q + 3)
}

/// The grayscale byte of the pixel at byte offset `i` of `img`, blended
/// toward white by `alpha * a / 255`, where `alpha` is a binary64 encoding:
/// `255 + (r*wr + g*wg + b*wb - 255) * alpha * a / 255` truncated to a byte.
pub open spec fn spec_gray_byte(img: Seq<u8>, i: int, alpha: u64) -> u8 {
    let rf = spec_fb_of_u64(img[i] as u64);
    let gf = spec_fb_of_u64(img[i + 1] as u64);
    let af = spec_fb_of_u64(img[i + 3] as u64);
    let bf = spec_fb_of_u64(img[i + 2] as u64);
    let lum = spec_fb_add(
        spec_fb_add(spec_fb_mul(rf, W_YR), spec_fb_mul(gf, W_YG)),
        spec_fb_mul(bf, W_YB),
    );
    let v = spec_fb_add(
        B255,
        spec_fb_div(spec_fb_mul(spec_fb_mul(spec_fb_sub(lum, B255), alpha), af), B255),
    );
    spec_fb_to_byte(v)
}

/// Draw a pixel with the given colour and full opacity at byte offset `pos`
/// of `output`.
pub fn draw_pixel(output: &mut Vec<u8>, pos: usize, r: u8, g: u8, b: u8)
    requires
        pos + 3 < old(output)@.len(),
    ensures
        final(output)@ == old(output)@.update(pos as int, r).update(pos + 1, g).update(
            pos + 2,
            b,
        ).update(pos + 3, 255u8),
{
    let _no: usize = output.len();
    output[pos] = r;
    output[pos + 1] = g;
    output[pos + 2] = b;
    output[pos + 3] = 255;
}

/// Draw the grayscale rendering of the pixel at byte offset `src_pos` of
/// `img` into byte offset `dst_pos` of `out`.
pub fn draw_gray_pixel_local(img: &[u8], src_pos: usize, alpha: u64, out: &mut Vec<u8>, dst_pos: usize)
    requires
        src_pos + 3 < img@.len(),
        dst_pos + 3 < old(out)@.len(),
    ensures
        final(out)@ == old(out)@.update(
            dst_pos as int,
            spec_gray_byte(img@, src_pos as int, alpha),
        ).update(dst_pos + 1, spec_gray_byte(img@, src_pos as int, alpha)).update(
            dst_pos + 2,
            spec_gray_byte(img@, src_pos as int, alpha),
        ).update(dst_pos + 3, 255u8),
{
    let _ni: usize = img.len();
    let _no: usize = out.len();
    let rf = fb_of_u64(byte_at(img, src_pos) as u64);
    let gf = fb_of_u64(byte_at(img, src_pos + 1) as u64);
    let bf = fb_of_u64(byte_at(img, src_pos + 2) as u64);
    let af = fb_of_u64(byte_at(img, src_pos + 3) as u64);
    let lum = fb_add(fb_add(fb_mul(rf, W_YR), fb_mul(gf, W_YG)), fb_mul(bf, W_YB));
    let v = fb_add(B255, fb_div(fb_mul(fb_mul(fb_sub(lum, B255), alpha), af), B255));
    let val = fb_to_byte(v);
    out[dst_pos] = val;
    out[dst_pos + 1] = val;
    out[dst_pos + 2] = val;
    out[dst_pos + 3] = 255;
}

/// Draw the grayscale rendering of the pixel at byte offset `i` of `img`
/// into the same offset of `output`.
pub fn draw_gray_pixel(img: &[u8], i: usize, alpha: u64, output: &mut Vec<u8>)
    requires
        i + 3 < img@.len(),
        i + 3 < old(output)@.len(),
    ensures
        final(output)@ == old(output)@.update(i as int, spec_gray_byte(img@, i as int, alpha))
            .update(i + 1, spec_gray_byte(img@, i as int, alpha)).update(
            i + 2,
            spec_gray_byte(img@, i as int, alpha),
        ).update(i + 3, 255u8),
{
    draw_gray_pixel_local(img, i, alpha, output, i)
}

} // verus!
