//! Anti-aliasing-aware pixel-level comparison of two equal-sized RGBA
//! images.
//!
//! The comparison walks every pixel of two raw RGBA byte buffers, measures
//! each pair with a perceptual colour metric, optionally suppresses
//! anti-aliasing artifacts with a neighbourhood classifier, and reports a
//! difference count, an anti-aliased-pixel count and an identical flag,
//! optionally rendering a visual diff into an output buffer.  All
//! floating-point quantities (thresholds, opacities, colour deltas) are
//! carried as IEEE-754 binary64 bit patterns and computed exactly by the
//! `binary64` module, so every count and every rendered byte is pinned down
//! bit for bit by the contracts.

pub mod aa;
pub mod binary64;
pub mod color;

use vstd::prelude::*;

use crate::aa::{antialiased, lemma_pix_off, pix_off, spec_antialiased};
use crate::binary64::{
    fb_abs, fb_gt, fb_lt, fb_mul, spec_fb_abs, spec_fb_gt, spec_fb_lt, spec_fb_mul, ZERO,
};
use crate::color::{
    color_delta, draw_gray_pixel_local, draw_pixel, pixels_eq, pixels_equal, spec_color_delta,
    spec_gray_byte,
};

verus! {

/// Bits of 0.1, the default matching threshold.
pub const DEFAULT_THRESHOLD: u64 = 0x3fb999999999999a;

/// Bits of 0.1, the default opacity of the gray background render.
pub const DEFAULT_ALPHA: u64 = 0x3fb999999999999a;

/// Bits of 35215.0, the largest value the colour metric's magnitude form
/// can reach; it normalises the threshold to the unit interval.
pub const MAX_DELTA_SCALE: u64 = 0x40e131e000000000;

/// Options for a pixel comparison.  The `threshold` and `alpha` fields hold
/// IEEE-754 binary64 bit patterns (`f64::to_bits` of the intended value).
#[derive(Clone, Copy, Debug)]
pub struct Options {
    /// Matching threshold, bits of a value in `[0, 1]`; smaller is more
    /// sensitive.  Default: bits of 0.1.
    pub threshold: u64,
    /// Whether to classify and exclude anti-aliased pixels.  Default: true.
    pub detect_anti_aliasing: bool,
    /// Opacity of the original image in the diff output, bits of a value in
    /// `[0, 1]`.  Default: bits of 0.1.
    pub alpha: u64,
    /// Colour of anti-aliased pixels in the diff output.  Default yellow.
    pub aa_color: [u8; 3],
    /// Colour of differing pixels in the diff output.  Default red.
    pub diff_color: [u8; 3],
    /// Alternative colour for darkening differences; falls back to
    /// `diff_color` when absent.  Default: none.
    pub diff_color_alt: Option<[u8; 3]>,
    /// Draw the diff over the untouched output (a mask) instead of a gray
    /// rendering of the first image.  Default: false.
    pub diff_mask: bool,
}

impl Default for Options {
    fn default() -> (r: Self)
        ensures
            r.threshold == DEFAULT_THRESHOLD,
            r.detect_anti_aliasing == true,
            r.alpha == DEFAULT_ALPHA,
            r.aa_color[0] == 255 && r.aa_color[1] == 255 && r.aa_color[2] == 0,
            r.diff_color[0] == 255 && r.diff_color[1] == 0 && r.diff_color[2] == 0,
            r.diff_color_alt.is_none(),
            r.diff_mask == false,
    {
        Options {
            threshold: DEFAULT_THRESHOLD,
            detect_anti_aliasing: true,
            alpha: DEFAULT_ALPHA,
            aa_color: [255, 255, 0],
            diff_color: [255, 0, 0],
            diff_color_alt: None,
            diff_mask: false,
        }
    }
}

/// The outcome of a comparison.  The counts saturate at `u32::MAX`; the
/// `identical` flag reports byte-for-byte equality of the two sources.
#[derive(Clone, Copy, Debug, PartialEq, Eq, Structural)]
pub struct MatchResult {
    pub diff_count: u32,
    pub aa_count: u32,
    pub identical: bool,
}

/// The closed set of validation failures, all raised before any pixel work.
#[derive(Clone, Copy, Debug, PartialEq, Eq, Structural)]
pub enum PixelmatchError {
    /// `width * height * 4` exceeds the addressable size.
    DimensionOverflow,
    /// A source buffer's length is not `width * height * 4`.
    BufferLengthMismatch { expected: usize, actual: usize },
    /// The two source buffers have different lengths.
    ImageSizeMismatch { img1_len: usize, img2_len: usize },
    /// The output buffer's length differs from the sources' length.
    OutputSizeMismatch { img1_len: usize, output_len: usize },
}

/// The decision bound derived from the threshold:
/// `35215.0 * threshold * threshold`.
pub open spec fn spec_max_delta(threshold: u64) -> u64 {
    spec_fb_mul(spec_fb_mul(MAX_DELTA_SCALE, threshold), threshold)
}

/// The signed colour delta of the pixel pair at byte offset `pos`, zero for
/// byte-identical pixels without invoking the metric.
pub open spec fn pixel_delta(img1: Seq<u8>, img2: Seq<u8>, pos: int) -> u64 {
    if pixels_eq(img1, img2, pos, pos) {
        ZERO
    } else {
        spec_color_delta(img1, img2, pos, pos, false)
    }
}

/// Whether the pixel pair at byte offset `pos` crosses the decision bound.
pub open spec fn pixel_over(img1: Seq<u8>, img2: Seq<u8>, pos: int, md: u64) -> bool {
    spec_fb_gt(spec_fb_abs(pixel_delta(img1, img2, pos)), md)
}

/// Whether the pixel at `(x, y)` is classified as anti-aliasing relative to
/// either source direction.
pub open spec fn pixel_is_aa(img1: Seq<u8>, img2: Seq<u8>, x: int, y: int, w: int, h: int) -> bool {
    spec_antialiased(img1, x, y, w, h, img1, img2) || spec_antialiased(img2, x, y, w, h, img2, img1)
}

/// Whether the pixel at `(x, y)` counts as a true difference.
pub open spec fn pixel_is_diff(
    img1: Seq<u8>,
    img2: Seq<u8>,
    w: int,
    h: int,
    x: int,
    y: int,
    md: u64,
    detect_aa: bool,
) -> bool {
    pixel_over(img1, img2, pix_off(x, y, w), md) && !(detect_aa && pixel_is_aa(
        img1,
        img2,
        x,
        y,
        w,
        h,
    ))
}

/// Whether the pixel at `(x, y)` counts as a suppressed anti-aliasing
/// artifact.
pub open spec fn pixel_is_aacount(
    img1: Seq<u8>,
    img2: Seq<u8>,
    w: int,
    h: int,
    x: int,
    y: int,
    md: u64,
    detect_aa: bool,
) -> bool {
    pixel_over(img1, img2, pix_off(x, y, w), md) && detect_aa && pixel_is_aa(img1, img2, x, y, w, h)
}

/// The number of true differences among the first `x` pixels of row `y`.
pub open spec fn row_diff(
    img1: Seq<u8>,
    img2: Seq<u8>,
    w: int,
    h: int,
    y: int,
    md: u64,
    detect_aa: bool,
    x: int,
) -> int
    decreases x,
{
    if x <= 0 {
        0
    } else {
        row_diff(img1, img2, w, h, y, md, detect_aa, x - 1) + if pixel_is_diff(
            img1,
            img2,
            w,
            h,
            x - 1,
            y,
            md,
            detect_aa,
        ) {
            1int
        } else {
            0int
        }
    }
}

/// The number of suppressed anti-aliased pixels among the first `x` pixels
/// of row `y`.
pub open spec fn row_aa(
    img1: Seq<u8>,
    img2: Seq<u8>,
    w: int,
    h: int,
    y: int,
    md: u64,
    detect_aa: bool,
    x: int,
) -> int
    decreases x,
{
    if x <= 0 {
        0
    } else {
        row_aa(img1, img2, w, h, y, md, detect_aa, x - 1) + if pixel_is_aacount(
            img1,
            img2,
            w,
            h,
            x - 1,
            y,
            md,
            detect_aa,
        ) {
            1int
        } else {
            0int
        }
    }
}

/// The number of true differences in the first `y` full rows.
pub open spec fn diff_upto(
    img1: Seq<u8>,
    img2: Seq<u8>,
    w: int,
    h: int,
    md: u64,
    detect_aa: bool,
    y: int,
) -> int
    decreases y,
{
    if y <= 0 {
        0
    } else {
        diff_upto(img1, img2, w, h, md, detect_aa, y - 1) + row_diff(
            img1,
            img2,
            w,
            h,
            y - 1,
            md,
            detect_aa,
            w,
        )
    }
}

/// The number of suppressed anti-aliased pixels in the first `y` full rows.
pub open spec fn aa_upto(
    img1: Seq<u8>,
    img2: Seq<u8>,
    w: int,
    h: int,
    md: u64,
    detect_aa: bool,
    y: int,
) -> int
    decreases y,
{
    if y <= 0 {
        0
    } else {
        aa_upto(img1, img2, w, h, md, detect_aa, y - 1) + row_aa(
            img1,
            img2,
            w,
            h,
            y - 1,
            md,
            detect_aa,
            w,
        )
    }
}

/// A count clamped to the `u32` range.
pub open spec fn sat32(n: int) -> u32 {
    if n > u32::MAX {
        u32::MAX
    } else if n < 0 {
        0u32
    } else {
        n as u32
    }
}

/// The component `c` of a paint colour, with the alpha channel always fully
/// opaque.
pub open spec fn colour_ch(col: [u8; 3], c: int) -> u8 {
    if c == 3 {
        255u8
    } else {
        col[c]
    }
}

/// The byte that the renderer leaves at channel `c` of the pixel `(x, y)`,
/// given the byte `oldb` previously in the output: the anti-aliasing
/// colour, the diff colour (or its darkening alternative), a gray rendering
/// of the first image, or — under `diff_mask` — the old byte untouched.
#[verifier::opaque]
pub open spec fn spec_draw_byte(
    img1: Seq<u8>,
    img2: Seq<u8>,
    opts: Options,
    w: int,
    h: int,
    x: int,
    y: int,
    c: int,
    oldb: u8,
) -> u8 {
    let pos = pix_off(x, y, w);
    let md = spec_max_delta(opts.threshold);
    if pixel_over(img1, img2, pos, md) {
        if opts.detect_anti_aliasing && pixel_is_aa(img1, img2, x, y, w, h) {
            if opts.diff_mask {
                oldb
            } else {
                colour_ch(opts.aa_color, c)
            }
        } else {
            let col = match opts.diff_color_alt {
                Option::Some(alt) => if spec_fb_lt(pixel_delta(img1, img2, pos), ZERO) {
                    alt
                } else {
                    opts.diff_color
                },
                Option::None => opts.diff_color,
            };
            colour_ch(col, c)
        }
    } else {
        if opts.diff_mask {
            oldb
        } else if c == 3 {
            255u8
        } else {
            spec_gray_byte(img1, pos, opts.alpha)
        }
    }
}

/// The byte that the renderer leaves at local offset `j` of the row `y`.
pub open spec fn spec_row_byte(
    img1: Seq<u8>,
    img2: Seq<u8>,
    opts: Options,
    w: int,
    h: int,
    y: int,
    j: int,
    oldb: u8,
) -> u8 {
    spec_draw_byte(img1, img2, opts, w, h, j / 4, y, j % 4, oldb)
}

/// The byte that the renderer leaves at global offset `j` of the output.
pub open spec fn spec_out_byte(
    img1: Seq<u8>,
    img2: Seq<u8>,
    opts: Options,
    w: int,
    h: int,
    j: int,
    oldb: u8,
) -> u8 {
    spec_draw_byte(img1, img2, opts, w, h, (j / 4) % w, (j / 4) / w, j % 4, oldb)
}

/// The validation outcome for the given buffer lengths and dimensions:
/// the first failing check in order, or nothing when all pass.
pub open spec fn spec_check(
    img1_len: int,
    img2_len: int,
    out_len: Option<int>,
    w: int,
    h: int,
) -> Option<PixelmatchError> {
    if w * h * 4 > usize::MAX {
        Some(PixelmatchError::DimensionOverflow)
    } else if img1_len != img2_len {
        Some(
            PixelmatchError::ImageSizeMismatch {
                img1_len: img1_len as usize,
                img2_len: img2_len as usize,
            },
        )
    } else if out_len is Some && out_len->0 != img1_len {
        Some(
            PixelmatchError::OutputSizeMismatch {
                img1_len: img1_len as usize,
                output_len: out_len->0 as usize,
            },
        )
    } else if img1_len != w * h * 4 {
        Some(
            PixelmatchError::BufferLengthMismatch {
                expected: (w * h * 4) as usize,
                actual: img1_len as usize,
            },
        )
    } else {
        Option::None
    }
}

proof fn lemma_row_counts_le(
    img1: Seq<u8>,
    img2: Seq<u8>,
    w: int,
    h: int,
    y: int,
    md: u64,
    aa: bool,
    x: int,
)
    requires
        0 <= x,
    ensures
        0 <= row_diff(img1, img2, w, h, y, md, aa, x) <= x,
        0 <= row_aa(img1, img2, w, h, y, md, aa, x) <= x,
    decreases x,
{
    if x > 0 {
        lemma_row_counts_le(img1, img2, w, h, y, md, aa, x - 1);
    }
}

proof fn lemma_upto_le(img1: Seq<u8>, img2: Seq<u8>, w: int, h: int, md: u64, aa: bool, y: int)
    requires
        0 <= y,
        0 <= w,
    ensures
        0 <= diff_upto(img1, img2, w, h, md, aa, y) <= y * w,
        0 <= aa_upto(img1, img2, w, h, md, aa, y) <= y * w,
    decreases y,
{
    if y > 0 {
        lemma_upto_le(img1, img2, w, h, md, aa, y - 1);
        lemma_row_counts_le(img1, img2, w, h, y - 1, md, aa, w);
        assert((y - 1) * w + w == y * w) by (nonlinear_arith);
    }
}

/// Byte-for-byte equality of two buffers, the identical-image fast path.
pub fn bytes_equal(a: &[u8], b: &[u8]) -> (r: bool)
    ensures
        r <==> a@ == b@,
{
    let na: usize = a.len();
    let nb: usize = b.len();
    if na != nb {
        proof {
            assert(a@.len() != b@.len());
        }
        return false;
    }
    let mut i: usize = 0;
    while i < na
        invariant
            na == a@.len(),
            na == b@.len(),
            i <= na,
            forall|j: int| 0 <= j < i ==> a@[j] == b@[j],
        decreases na - i,
    {
        if byte_neq(a, b, i) {
            return false;
        }
        i = i + 1;
    }
    proof {
        assert(a@ =~= b@);
    }
    true
}

/// Whether the bytes at index `i` of the two buffers differ.
fn byte_neq(a: &[u8], b: &[u8], i: usize) -> (r: bool)
    requires
        i < a@.len(),
        i < b@.len(),
    ensures
        r <==> a@[i as int] != b@[i as int],
{
    crate::color::byte_at(a, i) != crate::color::byte_at(b, i)
}

/// Scan one row without rendering, returning its difference count and its
/// suppressed anti-aliased count.
#[verifier::rlimit(100)]
pub fn process_row_count(
    img1: &[u8],
    img2: &[u8],
    y: usize,
    w: usize,
    h: usize,
    md: u64,
    detect_aa: bool,
) -> (r: (u64, u64))
    requires
        y < h,
        img1@.len() == w * h * 4,
        img2@.len() == w * h * 4,
    ensures
        r.0 == row_diff(img1@, img2@, w as int, h as int, y as int, md, detect_aa, w as int),
        r.1 == row_aa(img1@, img2@, w as int, h as int, y as int, md, detect_aa, w as int),
        r.0 <= w,
        r.1 <= w,
{
    let _n1: usize = img1.len();
    let mut diff: u64 = 0;
    let mut aac: u64 = 0;
    let mut x: usize = 0;
    while x < w
        invariant
            y < h,
            img1@.len() == w * h * 4,
            img2@.len() == w * h * 4,
            w * h * 4 <= usize::MAX,
            x <= w,
            diff <= x,
            aac <= x,
            diff == row_diff(img1@, img2@, w as int, h as int, y as int, md, detect_aa, x as int),
            aac == row_aa(img1@, img2@, w as int, h as int, y as int, md, detect_aa, x as int),
        decreases w - x,
    {
        proof {
            lemma_pix_off(x as int, y as int, w as int, h as int);
        }
        let pos = (y * w + x) * 4;
        let delta = if pixels_equal(img1, img2, pos, pos) {
            ZERO
        } else {
            color_delta(img1, img2, pos, pos, false)
        };
        if fb_gt(fb_abs(delta), md) {
            let is_aa = detect_aa && (antialiased(img1, x, y, w, h, img1, img2) || antialiased(
                img2,
                x,
                y,
                w,
                h,
                img2,
                img1,
            ));
            if is_aa {
                aac = aac + 1;
            } else {
                diff = diff + 1;
            }
        }
        x = x + 1;
    }
    (diff, aac)
}

/// Scan one row, painting each pixel of the row-local output buffer
/// `out_row` (4 bytes per pixel) and returning the row's difference count
/// and suppressed anti-aliased count.  The counts equal those of
/// `process_row_count` for the same row: rendering never changes
/// classification.
#[verifier::rlimit(100)]
pub fn process_row_render(
    img1: &[u8],
    img2: &[u8],
    out_row: &mut Vec<u8>,
    y: usize,
    w: usize,
    h: usize,
    opts: &Options,
) -> (r: (u64, u64))
    requires
        y < h,
        img1@.len() == w * h * 4,
        img2@.len() == w * h * 4,
        old(out_row)@.len() == w * 4,
    ensures
        final(out_row)@.len() == w * 4,
        forall|j: int|
            0 <= j < w * 4 ==> #[trigger] final(out_row)@[j] == spec_row_byte(
                img1@,
                img2@,
                *opts,
                w as int,
                h as int,
                y as int,
                j,
                old(out_row)@[j],
            ),
        r.0 == row_diff(
            img1@,
            img2@,
            w as int,
            h as int,
            y as int,
            spec_max_delta(opts.threshold),
            opts.detect_anti_aliasing,
            w as int,
        ),
        r.1 == row_aa(
            img1@,
            img2@,
            w as int,
            h as int,
            y as int,
            spec_max_delta(opts.threshold),
            opts.detect_anti_aliasing,
            w as int,
        ),
        r.0 <= w,
        r.1 <= w,
{
    proof {
        reveal(crate::spec_draw_byte);
    }
    let _n1: usize = img1.len();
    let md = fb_mul(fb_mul(MAX_DELTA_SCALE, opts.threshold), opts.threshold);
    let detect_aa = opts.detect_anti_aliasing;
    let aa_r = *vstd::array::array_index_get(&opts.aa_color, 0);
    let aa_g = *vstd::array::array_index_get(&opts.aa_color, 1);
    let aa_b = *vstd::array::array_index_get(&opts.aa_color, 2);
    let diff_r = *vstd::array::array_index_get(&opts.diff_color, 0);
    let diff_g = *vstd::array::array_index_get(&opts.diff_color, 1);
    let diff_b = *vstd::array::array_index_get(&opts.diff_color, 2);
    let (alt_r, alt_g, alt_b): (u8, u8, u8) = match opts.diff_color_alt {
        Some(alt) => (
            *vstd::array::array_index_get(&alt, 0),
            *vstd::array::array_index_get(&alt, 1),
            *vstd::array::array_index_get(&alt, 2),
        ),
        None => (diff_r, diff_g, diff_b),
    };
    let mut diff: u64 = 0;
    let mut aac: u64 = 0;
    let mut x: usize = 0;
    while x < w
        invariant
            y < h,
            img1@.len() == w * h * 4,
            img2@.len() == w * h * 4,
            w * h * 4 <= usize::MAX,
            out_row@.len() == w * 4,
            x <= w,
            diff <= x,
            aac <= x,
            md == spec_max_delta(opts.threshold),
            detect_aa == opts.detect_anti_aliasing,
            aa_r == opts.aa_color[0] && aa_g == opts.aa_color[1] && aa_b == opts.aa_color[2],
            diff_r == opts.diff_color[0] && diff_g == opts.diff_color[1] && diff_b
                == opts.diff_color[2],
            match opts.diff_color_alt {
                Option::Some(alt) => alt_r == alt[0] && alt_g == alt[1] && alt_b == alt[2],
                Option::None => alt_r == opts.diff_color[0] && alt_g == opts.diff_color[1] && alt_b
                    == opts.diff_color[2],
            },
            diff == row_diff(
                img1@,
                img2@,
                w as int,
                h as int,
                y as int,
                md,
                detect_aa,
                x as int,
            ),
            aac == row_aa(img1@, img2@, w as int, h as int, y as int, md, detect_aa, x as int),
            forall|j: int|
                0 <= j < x * 4 ==> #[trigger] out_row@[j] == spec_row_byte(
                    img1@,
                    img2@,
                    *opts,
                    w as int,
                    h as int,
                    y as int,
                    j,
                    old(out_row)@[j],
                ),
            forall|j: int| x * 4 <= j < w * 4 ==> #[trigger] out_row@[j] == old(out_row)@[j],
        decreases w - x,
    {
        proof {
            reveal(crate::spec_draw_byte);
            lemma_pix_off(x as int, y as int, w as int, h as int);
        }
        let pos = (y * w + x) * 4;
        let lpos = x * 4;
        let delta = if pixels_equal(img1, img2, pos, pos) {
            ZERO
        } else {
            color_delta(img1, img2, pos, pos, false)
        };
        proof {
            assert(delta == pixel_delta(img1@, img2@, pos as int));
            assert((4 * (x as int) + 0) / 4 == x as int && (4 * (x as int) + 0) % 4 == 0);
            assert((4 * (x as int) + 1) / 4 == x as int && (4 * (x as int) + 1) % 4 == 1);
            assert((4 * (x as int) + 2) / 4 == x as int && (4 * (x as int) + 2) % 4 == 2);
            assert((4 * (x as int) + 3) / 4 == x as int && (4 * (x as int) + 3) % 4 == 3);
        }
        if fb_gt(fb_abs(delta), md) {
            let is_aa = detect_aa && (antialiased(img1, x, y, w, h, img1, img2) || antialiased(
                img2,
                x,
                y,
                w,
                h,
                img2,
                img1,
            ));
            if is_aa {
                aac = aac + 1;
                if !opts.diff_mask {
                    draw_pixel(out_row, lpos, aa_r, aa_g, aa_b);
                }
            } else {
                if fb_lt(delta, ZERO) {
                    draw_pixel(out_row, lpos, alt_r, alt_g, alt_b);
                } else {
                    draw_pixel(out_row, lpos, diff_r, diff_g, diff_b);
                }
                diff = diff + 1;
            }
        } else {
            if !opts.diff_mask {
                draw_gray_pixel_local(img1, pos, opts.alpha, out_row, lpos);
            }
        }
        x = x + 1;
    }
    (diff, aac)
}

/// The signed perceptual colour difference of two pixels, as binary64 bits;
/// the public face of the colour metric.
pub fn color_delta_public(img1: &[u8], img2: &[u8], k: usize, m: usize, y_only: bool) -> (r: u64)
    requires
        k + 3 < img1@.len(),
        m + 3 < img2@.len(),
    ensures
        r == spec_color_delta(img1@, img2@, k as int, m as int, y_only),
{
    color_delta(img1, img2, k, m, y_only)
}

/// Validate the inputs shared by the comparison entry points; on success
/// return `width * height * 4` as a `usize`.
fn validate(
    img1_len: usize,
    img2_len: usize,
    out_len: Option<usize>,
    width: u32,
    height: u32,
) -> (r: Result<usize, PixelmatchError>)
    ensures
        match r {
            Ok(n) => n == (width as int) * (height as int) * 4 && img1_len == n && img2_len == n
                && (out_len is Some ==> out_len->0 == n) && spec_check(
                img1_len as int,
                img2_len as int,
                match out_len {
                    Some(l) => Some(l as int),
                    None => None,
                },
                width as int,
                height as int,
            ) is None,
            Err(e) => Some(e) == spec_check(
                img1_len as int,
                img2_len as int,
                match out_len {
                    Some(l) => Some(l as int),
                    None => None,
                },
                width as int,
                height as int,
            ),
        },
{
    proof {
        assert((width as u128) * (height as u128) * 4 < 0x100000000000000000 && (width as u128)
            * (height as u128) * 4 == (width as int) * (height as int) * 4) by (nonlinear_arith)
            requires
                width as u128 <= 0xffffffff,
                height as u128 <= 0xffffffff,
                width as u128 == width as int,
                height as u128 == height as int,
        ;
    }
    let wh4: u128 = (width as u128) * (height as u128) * 4;
    if wh4 > (usize::MAX as u128) {
        return Err(PixelmatchError::DimensionOverflow);
    }
    let expected: usize = wh4 as usize;
    if img1_len != img2_len {
        return Err(PixelmatchError::ImageSizeMismatch { img1_len, img2_len });
    }
    match out_len {
        Some(ol) => {
            if ol != img1_len {
                return Err(
                    PixelmatchError::OutputSizeMismatch { img1_len, output_len: ol },
                );
            }
        },
        None => {},
    }
    if img1_len != expected {
        return Err(PixelmatchError::BufferLengthMismatch { expected, actual: img1_len });
    }
    Ok(expected)
}

/// Compare two equally sized RGBA images pixel by pixel, without rendering.
///
/// Returns the saturating number of truly differing pixels, the saturating
/// number of suppressed anti-aliased pixels, and whether the two buffers
/// are byte-for-byte identical; or the first failing validation.
pub fn pixelmatch_count(
    img1: &[u8],
    img2: &[u8],
    width: u32,
    height: u32,
    options: &Options,
) -> (r: Result<MatchResult, PixelmatchError>)
    ensures
        match r {
            Ok(res) => {
                &&& spec_check(
                    img1@.len() as int,
                    img2@.len() as int,
                    None,
                    width as int,
                    height as int,
                ) is None
                &&& res.diff_count == sat32(
                    diff_upto(
                        img1@,
                        img2@,
                        width as int,
                        height as int,
                        spec_max_delta(options.threshold),
                        options.detect_anti_aliasing,
                        height as int,
                    ),
                )
                &&& res.aa_count == sat32(
                    aa_upto(
                        img1@,
                        img2@,
                        width as int,
                        height as int,
                        spec_max_delta(options.threshold),
                        options.detect_anti_aliasing,
                        height as int,
                    ),
                )
                &&& (res.identical <==> img1@ == img2@)
            },
            Err(e) => Some(e) == spec_check(
                img1@.len() as int,
                img2@.len() as int,
                None,
                width as int,
                height as int,
            ),
        },
{
    let n1: usize = img1.len();
    let n2: usize = img2.len();
    let expected = match validate(n1, n2, None, width, height) {
        Ok(n) => n,
        Err(e) => {
            return Err(e);
        },
    };
    let w = width as usize;
    let h = height as usize;
    let md = fb_mul(fb_mul(MAX_DELTA_SCALE, options.threshold), options.threshold);
    let detect_aa = options.detect_anti_aliasing;
    let identical = bytes_equal(img1, img2);
    let mut diff_total: u64 = 0;
    let mut aa_total: u64 = 0;
    let mut y: usize = 0;
    while y < h
        invariant
            w == width as int,
            h == height as int,
            img1@.len() == w * h * 4,
            img2@.len() == w * h * 4,
            w * h * 4 <= usize::MAX,
            y <= h,
            md == spec_max_delta(options.threshold),
            detect_aa == options.detect_anti_aliasing,
            diff_total == diff_upto(
                img1@,
                img2@,
                w as int,
                h as int,
                md,
                detect_aa,
                y as int,
            ),
            aa_total == aa_upto(img1@, img2@, w as int, h as int, md, detect_aa, y as int),
        decreases h - y,
    {
        let (d, a) = process_row_count(img1, img2, y, w, h, md, detect_aa);
        proof {
            lemma_upto_le(img1@, img2@, w as int, h as int, md, detect_aa, y as int);
            lemma_upto_le(img1@, img2@, w as int, h as int, md, detect_aa, y + 1);
            assert((y + 1) * (w as int) <= (h as int) * (w as int)) by (nonlinear_arith)
                requires
                    y as int + 1 <= h as int,
                    0 <= w as int,
            ;
            assert((h as int) * (w as int) * 4 == (w as int) * (h as int) * 4) by (nonlinear_arith);
        }
        diff_total = diff_total + d;
        aa_total = aa_total + a;
        y = y + 1;
    }
    let diff_count: u32 = if diff_total > 0xffffffff {
        u32::MAX
    } else {
        diff_total as u32
    };
    let aa_count: u32 = if aa_total > 0xffffffff {
        u32::MAX
    } else {
        aa_total as u32
    };
    Ok(MatchResult { diff_count, aa_count, identical })
}

/// Copy `row_bytes` bytes starting at `base` out of `output`.
fn read_row(output: &Vec<u8>, base: usize, row_bytes: usize) -> (r: Vec<u8>)
    requires
        base + row_bytes <= output@.len(),
        output@.len() <= usize::MAX,
    ensures
        r@.len() == row_bytes,
        forall|jj: int| 0 <= jj < row_bytes ==> #[trigger] r@[jj] == output@[base + jj],
{
    let mut row: Vec<u8> = Vec::new();
    let mut j: usize = 0;
    while j < row_bytes
        invariant
            j <= row_bytes,
            base + row_bytes <= output@.len(),
            output@.len() <= usize::MAX,
            row@.len() == j,
            forall|jj: int| 0 <= jj < j ==> #[trigger] row@[jj] == output@[base + jj],
        decreases row_bytes - j,
    {
        let bv = output[base + j];
        row.push(bv);
        j = j + 1;
    }
    row
}

/// Copy the bytes of `row` into `output` starting at `base`, leaving every
/// other byte unchanged.
fn write_row(output: &mut Vec<u8>, base: usize, row: &Vec<u8>)
    requires
        base + row@.len() <= old(output)@.len(),
        old(output)@.len() <= usize::MAX,
    ensures
        final(output)@.len() == old(output)@.len(),
        forall|jj: int| 0 <= jj < row@.len() ==> #[trigger] final(output)@[base + jj] == row@[jj],
        forall|idx: int|
            0 <= idx < old(output)@.len() && !(base <= idx < base + row@.len())
                ==> #[trigger] final(output)@[idx] == old(output)@[idx],
{
    let rn: usize = row.len();
    let mut j: usize = 0;
    while j < rn
        invariant
            j <= rn,
            rn == row@.len(),
            base + rn <= output@.len(),
            output@.len() == old(output)@.len(),
            output@.len() <= usize::MAX,
            forall|jj: int| 0 <= jj < j ==> #[trigger] output@[base + jj] == row@[jj],
            forall|idx: int|
                0 <= idx < output@.len() && !(base <= idx < base + j) ==> #[trigger] output@[idx]
                    == old(output)@[idx],
        decreases rn - j,
    {
        let bv = row[j];
        output[base + j] = bv;
        j = j + 1;
    }
}

proof fn lemma_global_index(yy: int, w: int, jj: int)
    requires
        0 <= jj < 4 * w,
        0 <= yy,
        1 <= w,
    ensures
        (yy * (w * 4) + jj) / 4 == yy * w + jj / 4,
        (yy * (w * 4) + jj) % 4 == jj % 4,
        (yy * w + jj / 4) % w == jj / 4,
        (yy * w + jj / 4) / w == yy,
{
    let q = jj / 4;
    let r = jj % 4;
    vstd::arithmetic::div_mod::lemma_fundamental_div_mod(jj, 4);
    assert(yy * (w * 4) + jj == 4 * (yy * w + q) + r) by (nonlinear_arith)
        requires
            jj == 4 * q + r,
    ;
    assert(0 <= q < w) by (nonlinear_arith)
        requires
            0 <= jj < 4 * w,
            q == jj / 4,
    ;
    vstd::arithmetic::div_mod::lemma_fundamental_div_mod_converse(
        yy * (w * 4) + jj,
        4,
        yy * w + q,
        r,
    );
    vstd::arithmetic::div_mod::lemma_fundamental_div_mod_converse(yy * w + q, w, yy, q);
}

/// Compare two equally sized RGBA images pixel by pixel, rendering the
/// visual diff into `output` (which must have the sources' length).
///
/// Every output byte is pinned by `spec_out_byte`; the counts equal those
/// of `pixelmatch_count`, so rendering never changes classification.  On a
/// validation failure the output buffer is left untouched.
#[verifier::rlimit(100)]
pub fn pixelmatch(
    img1: &[u8],
    img2: &[u8],
    output: &mut Vec<u8>,
    width: u32,
    height: u32,
    options: &Options,
) -> (r: Result<MatchResult, PixelmatchError>)
    ensures
        final(output)@.len() == old(output)@.len(),
        match r {
            Ok(res) => {
                &&& spec_check(
                    img1@.len() as int,
                    img2@.len() as int,
                    Some(old(output)@.len() as int),
                    width as int,
                    height as int,
                ) is None
                &&& res.diff_count == sat32(
                    diff_upto(
                        img1@,
                        img2@,
                        width as int,
                        height as int,
                        spec_max_delta(options.threshold),
                        options.detect_anti_aliasing,
                        height as int,
                    ),
                )
                &&& res.aa_count == sat32(
                    aa_upto(
                        img1@,
                        img2@,
                        width as int,
                        height as int,
                        spec_max_delta(options.threshold),
                        options.detect_anti_aliasing,
                        height as int,
                    ),
                )
                &&& (res.identical <==> img1@ == img2@)
                &&& forall|j: int|
                    0 <= j < old(output)@.len() ==> #[trigger] final(output)@[j] == spec_out_byte(
                        img1@,
                        img2@,
                        *options,
                        width as int,
                        height as int,
                        j,
                        old(output)@[j],
                    )
            },
            Err(e) => {
                &&& Some(e) == spec_check(
                    img1@.len() as int,
                    img2@.len() as int,
                    Some(old(output)@.len() as int),
                    width as int,
                    height as int,
                )
                &&& final(output)@ == old(output)@
            },
        },
{
    let n1: usize = img1.len();
    let n2: usize = img2.len();
    let no: usize = output.len();
    let expected = match validate(n1, n2, Some(no), width, height) {
        Ok(n) => n,
        Err(e) => {
            return Err(e);
        },
    };
    let w = width as usize;
    let h = height as usize;
    let md = fb_mul(fb_mul(MAX_DELTA_SCALE, options.threshold), options.threshold);
    let detect_aa = options.detect_anti_aliasing;
    let identical = bytes_equal(img1, img2);
    let mut diff_total: u64 = 0;
    let mut aa_total: u64 = 0;
    if w >= 1 && h >= 1 {
        let (d, a) = render_all(img1, img2, output, w, h, options);
        diff_total = d;
        aa_total = a;
    } else {
        proof {
            lemma_upto_le(img1@, img2@, w as int, h as int, md, detect_aa, h as int);
            assert((h as int) * (w as int) == 0 && (w as int) * (h as int) * 4 == 0)
                by (nonlinear_arith)
                requires
                    w as int == 0 || h as int == 0,
            ;
        }
    }
    let diff_count: u32 = if diff_total > 0xffffffff {
        u32::MAX
    } else {
        diff_total as u32
    };
    let aa_count: u32 = if aa_total > 0xffffffff {
        u32::MAX
    } else {
        aa_total as u32
    };
    Ok(MatchResult { diff_count, aa_count, identical })
}

/// Render every row of the diff into `output` and accumulate the counts.
#[verifier::rlimit(100)]
fn render_all(
    img1: &[u8],
    img2: &[u8],
    output: &mut Vec<u8>,
    w: usize,
    h: usize,
    options: &Options,
) -> (r: (u64, u64))
    requires
        1 <= w,
        1 <= h,
        img1@.len() == w * h * 4,
        img2@.len() == w * h * 4,
        old(output)@.len() == w * h * 4,
        w * h * 4 <= usize::MAX,
    ensures
        final(output)@.len() == old(output)@.len(),
        r.0 == diff_upto(
            img1@,
            img2@,
            w as int,
            h as int,
            spec_max_delta(options.threshold),
            options.detect_anti_aliasing,
            h as int,
        ),
        r.1 == aa_upto(
            img1@,
            img2@,
            w as int,
            h as int,
            spec_max_delta(options.threshold),
            options.detect_anti_aliasing,
            h as int,
        ),
        forall|j: int|
            0 <= j < old(output)@.len() ==> #[trigger] final(output)@[j] == spec_out_byte(
                img1@,
                img2@,
                *options,
                w as int,
                h as int,
                j,
                old(output)@[j],
            ),
{
    let md = fb_mul(fb_mul(MAX_DELTA_SCALE, options.threshold), options.threshold);
    let detect_aa = options.detect_anti_aliasing;
    let mut diff_total: u64 = 0;
    let mut aa_total: u64 = 0;
    proof {
        assert(w * 4 <= w * h * 4) by (nonlinear_arith)
            requires
                1 <= h as int,
                0 <= w as int,
        ;
    }
    let row_bytes = w * 4;
    let mut y: usize = 0;
        while y < h
            invariant
                1 <= w,
                1 <= h,
                img1@.len() == w * h * 4,
                img2@.len() == w * h * 4,
                output@.len() == w * h * 4,
                old(output)@.len() == w * h * 4,
                w * h * 4 <= usize::MAX,
                row_bytes == w * 4,
                y <= h,
                md == spec_max_delta(options.threshold),
                detect_aa == options.detect_anti_aliasing,
                diff_total == diff_upto(
                    img1@,
                    img2@,
                    w as int,
                    h as int,
                    md,
                    detect_aa,
                    y as int,
                ),
                aa_total == aa_upto(img1@, img2@, w as int, h as int, md, detect_aa, y as int),
                forall|j: int|
                    0 <= j < y * (w * 4) ==> #[trigger] output@[j] == spec_out_byte(
                        img1@,
                        img2@,
                        *options,
                        w as int,
                        h as int,
                        j,
                        old(output)@[j],
                    ),
                forall|j: int|
                    y * (w * 4) <= j < w * h * 4 ==> #[trigger] output@[j] == old(output)@[j],
            decreases h - y,
        {
            proof {
                assert((y as int) * ((w as int) * 4) + (w as int) * 4 <= (w as int) * (h as int)
                    * 4 && (y as int) * ((w as int) * 4) == (y as int) * (w as int) * 4 && ((
                y as int) + 1) * ((w as int) * 4) == (y as int) * ((w as int) * 4) + (w as int)
                    * 4) by (nonlinear_arith)
                    requires
                        (y as int) + 1 <= h as int,
                        0 <= y as int,
                        1 <= w as int,
                ;
            }
            let base = y * row_bytes;
            let mut row: Vec<u8> = read_row(output, base, row_bytes);
            let ghost row_before = row@;
            let (d, a) = process_row_render(img1, img2, &mut row, y, w, h, options);
            write_row(output, base, &row);
            proof {
                lemma_upto_le(img1@, img2@, w as int, h as int, md, detect_aa, y as int);
                lemma_upto_le(img1@, img2@, w as int, h as int, md, detect_aa, y + 1);
                assert((y + 1) * (w as int) <= (h as int) * (w as int)) by (nonlinear_arith)
                    requires
                        y as int + 1 <= h as int,
                        0 <= w as int,
                ;
                assert((h as int) * (w as int) * 4 == (w as int) * (h as int) * 4)
                    by (nonlinear_arith);
                assert forall|idx: int|
                    0 <= idx < (y + 1) * ((w as int) * 4) implies #[trigger] output@[idx]
                    == spec_out_byte(
                    img1@,
                    img2@,
                    *options,
                    w as int,
                    h as int,
                    idx,
                    old(output)@[idx],
                ) by {
                    if idx >= y * ((w as int) * 4) {
                        let jj = idx - base;
                        lemma_global_index(y as int, w as int, jj);
                        assert(output@[idx] == row@[jj]);
                        assert(row@[jj] == spec_row_byte(
                            img1@,
                            img2@,
                            *options,
                            w as int,
                            h as int,
                            y as int,
                            jj,
                            row_before[jj],
                        ));
                        assert(row_before[jj] == old(output)@[idx]);
                    }
                }
            }
            diff_total = diff_total + d;
            aa_total = aa_total + a;
            y = y + 1;
    }
    proof {
        assert((h as int) * ((w as int) * 4) == (w as int) * (h as int) * 4) by (nonlinear_arith);
    }
    (diff_total, aa_total)
}

/// The colour metric of a pixel against itself is exactly the encoding of
/// zero, for any offset, in either mode: a pixel never differs from itself.
pub proof fn lemma_color_delta_self(img1: Seq<u8>, img2: Seq<u8>, k: int, m: int, y_only: bool)
    requires
        img1 == img2,
        k == m,
    ensures
        spec_color_delta(img1, img2, k, m, y_only) == ZERO,
{
    reveal(crate::color::spec_color_delta);
}

/// The decision bound `35215.0 * threshold * threshold` is never a negative
/// value: it is NaN or carries a clear sign bit, whatever the threshold
/// encoding.
proof fn lemma_max_delta_sign(t: u64)
    ensures
        crate::binary64::is_nan(spec_max_delta(t)) || spec_max_delta(t) < crate::binary64::P63,
{
    crate::binary64::lemma_mul_sign(MAX_DELTA_SCALE, t);
    let u = spec_fb_mul(MAX_DELTA_SCALE, t);
    crate::binary64::lemma_mul_sign(u, t);
}

/// A pixel pair with identical channel bytes never crosses the decision
/// bound: its delta is zero and the bound is not below zero.
proof fn lemma_equal_pixel_not_over(img: Seq<u8>, pos: int, t: u64)
    ensures
        !pixel_over(img, img, pos, spec_max_delta(t)),
{
    lemma_max_delta_sign(t);
}

/// Reflexivity of the comparison: against itself, an image has no
/// differing and no anti-aliased pixels, whatever the threshold and
/// whether or not the classifier runs.  Together with the entry points'
/// contracts this pins `compare(X, X)` to zero counts and `identical`.
pub proof fn lemma_identical_counts(img: Seq<u8>, w: int, h: int, t: u64, detect_aa: bool, y: int)
    requires
        0 <= y,
    ensures
        diff_upto(img, img, w, h, spec_max_delta(t), detect_aa, y) == 0,
        aa_upto(img, img, w, h, spec_max_delta(t), detect_aa, y) == 0,
    decreases y,
{
    if y > 0 {
        lemma_identical_counts(img, w, h, t, detect_aa, y - 1);
        if w >= 0 {
            lemma_identical_row_counts(img, w, h, y - 1, t, detect_aa, w);
        }
    }
}

proof fn lemma_identical_row_counts(
    img: Seq<u8>,
    w: int,
    h: int,
    y: int,
    t: u64,
    detect_aa: bool,
    x: int,
)
    requires
        0 <= x,
    ensures
        row_diff(img, img, w, h, y, spec_max_delta(t), detect_aa, x) == 0,
        row_aa(img, img, w, h, y, spec_max_delta(t), detect_aa, x) == 0,
    decreases x,
{
    if x > 0 {
        lemma_identical_row_counts(img, w, h, y, t, detect_aa, x - 1);
        lemma_equal_pixel_not_over(img, pix_off(x - 1, y, w), t);
    }
}

proof fn lemma_aa_partition_row(
    img1: Seq<u8>,
    img2: Seq<u8>,
    w: int,
    h: int,
    y: int,
    md: u64,
    x: int,
)
    requires
        0 <= x,
    ensures
        row_diff(img1, img2, w, h, y, md, false, x) == row_diff(img1, img2, w, h, y, md, true, x)
            + row_aa(img1, img2, w, h, y, md, true, x),
    decreases x,
{
    if x > 0 {
        lemma_aa_partition_row(img1, img2, w, h, y, md, x - 1);
    }
}

/// Suppression accounting: with the classifier off, the difference count
/// equals the classifier-on difference count plus the classifier-on
/// anti-aliased count, for the same images and decision bound.  Every
/// pixel over the bound is counted exactly once either way.
pub proof fn lemma_aa_partition(img1: Seq<u8>, img2: Seq<u8>, w: int, h: int, md: u64, y: int)
    requires
        0 <= y,
    ensures
        diff_upto(img1, img2, w, h, md, false, y) == diff_upto(img1, img2, w, h, md, true, y)
            + aa_upto(img1, img2, w, h, md, true, y),
    decreases y,
{
    if y > 0 {
        lemma_aa_partition(img1, img2, w, h, md, y - 1);
        if w >= 0 {
            lemma_aa_partition_row(img1, img2, w, h, y - 1, md, w);
        }
    }
}

proof fn lemma_threshold_monotone_row(
    img1: Seq<u8>,
    img2: Seq<u8>,
    w: int,
    h: int,
    y: int,
    md1: u64,
    md2: u64,
    detect_aa: bool,
    x: int,
)
    requires
        0 <= x,
        !crate::binary64::is_nan(md1),
        crate::binary64::spec_ord(md1) <= crate::binary64::spec_ord(md2),
    ensures
        row_diff(img1, img2, w, h, y, md2, detect_aa, x) <= row_diff(
            img1,
            img2,
            w,
            h,
            y,
            md1,
            detect_aa,
            x,
        ),
    decreases x,
{
    if x > 0 {
        lemma_threshold_monotone_row(img1, img2, w, h, y, md1, md2, detect_aa, x - 1);
    }
}

/// Threshold monotonicity: a looser decision bound never yields more
/// differences.  `md1` and `md2` are the bounds derived from two
/// thresholds; whenever `md1` encodes a value no greater than `md2`'s (and
/// is a number), every pixel counted over `md2` is also counted over
/// `md1`.
pub proof fn lemma_threshold_monotone(
    img1: Seq<u8>,
    img2: Seq<u8>,
    w: int,
    h: int,
    md1: u64,
    md2: u64,
    detect_aa: bool,
    y: int,
)
    requires
        0 <= y,
        !crate::binary64::is_nan(md1),
        crate::binary64::spec_ord(md1) <= crate::binary64::spec_ord(md2),
    ensures
        diff_upto(img1, img2, w, h, md2, detect_aa, y) <= diff_upto(
            img1,
            img2,
            w,
            h,
            md1,
            detect_aa,
            y,
        ),
    decreases y,
{
    if y > 0 {
        lemma_threshold_monotone(img1, img2, w, h, md1, md2, detect_aa, y - 1);
        if w >= 0 {
            lemma_threshold_monotone_row(img1, img2, w, h, y - 1, md1, md2, detect_aa, w);
        }
    }
}

} // verus!
