//! The anti-aliasing classifier.
//!
//! Decides whether a differing pixel is plausibly an anti-aliasing artifact
//! rather than a true content change, by a two-pass analysis of the 3x3
//! neighbourhood clipped to the image bounds: pass one finds the darkest and
//! brightest luminance siblings (counting exactly-equal neighbours), pass
//! two checks every neighbour tied at those extremes for a flat region of
//! bit-identical pixels in either source image.

use vstd::prelude::*;

use crate::binary64::{fb_eq, fb_gt, fb_lt, spec_fb_eq, spec_fb_gt, spec_fb_lt, ZERO};
use crate::color::{color_delta, pixels_eq, pixels_equal, spec_color_delta};

verus! {

/// The byte offset of the pixel at `(x, y)` in a row-major RGBA buffer of
/// width `w`.
pub open spec fn pix_off(x: int, y: int, w: int) -> int {
    (y * w + x) * 4
}

pub proof fn lemma_pix_off(x: int, y: int, w: int, h: int)
    by (nonlinear_arith)
    requires
        0 <= x < w,
        0 <= y < h,
    ensures
        0 <= pix_off(x, y, w),
        pix_off(x, y, w) + 3 < w * h * 4,
{
}

/// The column of up to three neighbour coordinates at abscissa `x`, in the
/// scan order of the classifier; the centre `(x1, y1)` itself is excluded.
pub open spec fn neigh_col(x: int, x1: int, y1: int, h: int) -> Seq<(int, int)> {
    let top: Seq<(int, int)> = if y1 >= 1 {
        seq![(x, y1 - 1)]
    } else {
        Seq::empty()
    };
    let mid: Seq<(int, int)> = if x != x1 {
        seq![(x, y1)]
    } else {
        Seq::empty()
    };
    let bot: Seq<(int, int)> = if y1 + 1 < h {
        seq![(x, y1 + 1)]
    } else {
        Seq::empty()
    };
    top + mid + bot
}

/// The up-to-eight neighbours of `(x1, y1)` in a `w` by `h` image, clipped
/// to the bounds, in scan order.
pub open spec fn neighbours(x1: int, y1: int, w: int, h: int) -> Seq<(int, int)> {
    let left: Seq<(int, int)> = if x1 >= 1 {
        neigh_col(x1 - 1, x1, y1, h)
    } else {
        Seq::empty()
    };
    let right: Seq<(int, int)> = if x1 + 1 < w {
        neigh_col(x1 + 1, x1, y1, h)
    } else {
        Seq::empty()
    };
    left + neigh_col(x1, x1, y1, h) + right
}

/// Whether `(x1, y1)` touches the border of a `w` by `h` image; border
/// pixels start the zero counters at one to compensate for their missing
/// neighbours.
pub open spec fn on_edge(x1: int, y1: int, w: int, h: int) -> bool {
    x1 == 0 || x1 == w - 1 || y1 == 0 || y1 == h - 1
}

/// The brightness-only colour delta between the centre pixel at byte offset
/// `pos` and the neighbour `p`, within the one image `img`.
pub open spec fn neigh_delta(img: Seq<u8>, pos: int, w: int, p: (int, int)) -> u64 {
    spec_color_delta(img, img, pos, pix_off(p.0, p.1, w), true)
}

/// State of the first pass over the first `n` neighbours: the count of
/// exactly-zero deltas and the minimum and maximum signed delta encodings,
/// folded in scan order exactly as the scanning loop updates them.
pub open spec fn pass1(img: Seq<u8>, pos: int, w: int, ns: Seq<(int, int)>, n: int) -> (
    int,
    u64,
    u64,
)
    decreases n,
{
    if n <= 0 {
        (0, ZERO, ZERO)
    } else {
        let p = pass1(img, pos, w, ns, n - 1);
        let d = neigh_delta(img, pos, w, ns[n - 1]);
        if spec_fb_eq(d, ZERO) {
            (p.0 + 1, p.1, p.2)
        } else if spec_fb_lt(d, p.1) {
            (p.0, d, p.2)
        } else if spec_fb_gt(d, p.2) {
            (p.0, p.1, d)
        } else {
            p
        }
    }
}

proof fn lemma_pass1_zero_mono(img: Seq<u8>, pos: int, w: int, ns: Seq<(int, int)>, n1: int, n2: int)
    requires
        0 <= n1 <= n2,
    ensures
        pass1(img, pos, w, ns, n1).0 <= pass1(img, pos, w, ns, n2).0,
    decreases n2 - n1,
{
    if n1 < n2 {
        lemma_pass1_zero_mono(img, pos, w, ns, n1, n2 - 1);
    }
}

/// The count, among the first `n` neighbours `ns` of the pixel at byte
/// offset `pos`, of those whose four channel bytes equal the centre's.
pub open spec fn sib_count(img: Seq<u8>, pos: int, w: int, ns: Seq<(int, int)>, n: int) -> int
    decreases n,
{
    if n <= 0 {
        0
    } else {
        sib_count(img, pos, w, ns, n - 1) + if pixels_eq(
            img,
            img,
            pos,
            pix_off(ns[n - 1].0, ns[n - 1].1, w),
        ) {
            1int
        } else {
            0int
        }
    }
}

proof fn lemma_sib_count_mono(img: Seq<u8>, pos: int, w: int, ns: Seq<(int, int)>, n1: int, n2: int)
    requires
        0 <= n1 <= n2,
    ensures
        sib_count(img, pos, w, ns, n1) <= sib_count(img, pos, w, ns, n2),
    decreases n2 - n1,
{
    if n1 < n2 {
        lemma_sib_count_mono(img, pos, w, ns, n1, n2 - 1);
    }
}

/// Whether the pixel at `(x1, y1)` has more than two adjacent pixels (with
/// the edge compensation) whose four channel bytes are identical to its own.
pub open spec fn spec_has_many_siblings(img: Seq<u8>, x1: int, y1: int, w: int, h: int) -> bool {
    let ns = neighbours(x1, y1, w, h);
    let init: int = if on_edge(x1, y1, w, h) {
        1
    } else {
        0
    };
    init + sib_count(img, pix_off(x1, y1, w), w, ns, ns.len() as int) > 2
}

/// Whether the differing pixel at `(x1, y1)` of `img` is classified as an
/// anti-aliasing artifact: its neighbourhood must hold both a darker and a
/// brighter luminance sibling and few exactly-equal ones, and some neighbour
/// tied at the extreme deltas must sit in a flat region of either source.
pub open spec fn spec_antialiased(
    img: Seq<u8>,
    x1: int,
    y1: int,
    w: int,
    h: int,
    img_a: Seq<u8>,
    img_b: Seq<u8>,
) -> bool {
    let pos = pix_off(x1, y1, w);
    let ns = neighbours(x1, y1, w, h);
    let init: int = if on_edge(x1, y1, w, h) {
        1
    } else {
        0
    };
    let p = pass1(img, pos, w, ns, ns.len() as int);
    if init + p.0 > 2 {
        false
    } else if spec_fb_eq(p.1, ZERO) || spec_fb_eq(p.2, ZERO) {
        false
    } else {
        exists|j: int|
            0 <= j < ns.len() && (spec_fb_eq(#[trigger] neigh_delta(img, pos, w, ns[j]), p.1)
                || spec_fb_eq(neigh_delta(img, pos, w, ns[j]), p.2)) && (spec_has_many_siblings(
                img_a,
                ns[j].0,
                ns[j].1,
                w,
                h,
            ) || spec_has_many_siblings(img_b, ns[j].0, ns[j].1, w, h))
    }
}

/// Collect the clipped 3x3 neighbourhood of `(x1, y1)` in scan order.
fn neighbour_coords(x1: usize, y1: usize, w: usize, h: usize) -> (r: Vec<(usize, usize)>)
    requires
        x1 < w,
        y1 < h,
    ensures
        r@.map_values(|p: (usize, usize)| (p.0 as int, p.1 as int)) == neighbours(
            x1 as int,
            y1 as int,
            w as int,
            h as int,
        ),
        forall|j: int| 0 <= j < r@.len() ==> (#[trigger] r@[j]).0 < w && r@[j].1 < h,
        r@.len() <= 8,
{
    let mut c: Vec<(usize, usize)> = Vec::new();
    if x1 >= 1 {
        if y1 >= 1 {
            c.push((x1 - 1, y1 - 1));
        }
        c.push((x1 - 1, y1));
        if y1 + 1 < h {
            c.push((x1 - 1, y1 + 1));
        }
    }
    if y1 >= 1 {
        c.push((x1, y1 - 1));
    }
    if y1 + 1 < h {
        c.push((x1, y1 + 1));
    }
    if x1 + 1 < w {
        if y1 >= 1 {
            c.push((x1 + 1, y1 - 1));
        }
        c.push((x1 + 1, y1));
        if y1 + 1 < h {
            c.push((x1 + 1, y1 + 1));
        }
    }
    proof {
        assert(c@.map_values(|p: (usize, usize)| (p.0 as int, p.1 as int)) =~= neighbours(
            x1 as int,
            y1 as int,
            w as int,
            h as int,
        ));
    }
    c
}

/// Check whether the pixel at `(x1, y1)` has more than two adjacent pixels
/// with identical channel bytes, the flat-region test of the classifier.
#[verifier::rlimit(100)]
pub fn has_many_siblings(img: &[u8], x1: usize, y1: usize, width: usize, height: usize) -> (r:
    bool)
    requires
        x1 < width,
        y1 < height,
        img@.len() == width * height * 4,
    ensures
        r == spec_has_many_siblings(
            img@,
            x1 as int,
            y1 as int,
            width as int,
            height as int,
        ),
{
    let _n: usize = img.len();
    let ns = neighbour_coords(x1, y1, width, height);
    let ghost nsi = neighbours(x1 as int, y1 as int, width as int, height as int);
    proof {
        lemma_pix_off(x1 as int, y1 as int, width as int, height as int);
    }
    let pos = (y1 * width + x1) * 4;
    let mut zeroes: u32 = if x1 == 0 || x1 == width - 1 || y1 == 0 || y1 == height - 1 {
        1
    } else {
        0
    };
    let ghost init: int = zeroes as int;
    let mut i: usize = 0;
    while i < ns.len()
        invariant
            x1 < width,
            y1 < height,
            img@.len() == width * height * 4,
            width * height * 4 <= usize::MAX,
            pos == pix_off(x1 as int, y1 as int, width as int),
            i <= ns.len() <= 8,
            zeroes <= 2,
            nsi == neighbours(x1 as int, y1 as int, width as int, height as int),
            ns@.map_values(|p: (usize, usize)| (p.0 as int, p.1 as int)) == nsi,
            forall|j: int| 0 <= j < ns@.len() ==> (#[trigger] ns@[j]).0 < width && ns@[j].1
                < height,
            zeroes as int == init + sib_count(img@, pos as int, width as int, nsi, i as int),
            init == (if on_edge(x1 as int, y1 as int, width as int, height as int) {
                1int
            } else {
                0int
            }),
        decreases ns.len() - i,
    {
        let (x, y) = ns[i];
        proof {
            lemma_pix_off(x as int, y as int, width as int, height as int);
            lemma_pix_off(x1 as int, y1 as int, width as int, height as int);
            assert(nsi[i as int] == (x as int, y as int));
        }
        let npos = (y * width + x) * 4;
        if pixels_equal(img, img, pos, npos) {
            zeroes = zeroes + 1;
        }
        if zeroes > 2 {
            proof {
                lemma_sib_count_mono(img@, pos as int, width as int, nsi, i + 1, nsi.len() as int);
            }
            return true;
        }
        i = i + 1;
    }
    false
}

/// Check whether the pixel at `(x1, y1)`, which differs between the two
/// source images, is likely part of anti-aliasing, by the two-pass
/// neighbourhood analysis of `spec_antialiased`.
#[verifier::rlimit(100)]
pub fn antialiased(
    img: &[u8],
    x1: usize,
    y1: usize,
    width: usize,
    height: usize,
    img_a: &[u8],
    img_b: &[u8],
) -> (r: bool)
    requires
        x1 < width,
        y1 < height,
        img@.len() == width * height * 4,
        img_a@.len() == width * height * 4,
        img_b@.len() == width * height * 4,
    ensures
        r == spec_antialiased(
            img@,
            x1 as int,
            y1 as int,
            width as int,
            height as int,
            img_a@,
            img_b@,
        ),
{
    let _n: usize = img.len();
    let ns = neighbour_coords(x1, y1, width, height);
    let ghost nsi = neighbours(x1 as int, y1 as int, width as int, height as int);
    proof {
        lemma_pix_off(x1 as int, y1 as int, width as int, height as int);
    }
    let pos = (y1 * width + x1) * 4;
    let mut zeroes: u32 = if x1 == 0 || x1 == width - 1 || y1 == 0 || y1 == height - 1 {
        1
    } else {
        0
    };
    let ghost init: int = zeroes as int;
    let mut minb: u64 = ZERO;
    let mut maxb: u64 = ZERO;
    let mut deltas: Vec<u64> = Vec::new();
    let mut i: usize = 0;
    while i < ns.len()
        invariant
            x1 < width,
            y1 < height,
            img@.len() == width * height * 4,
            img_a@.len() == width * height * 4,
            img_b@.len() == width * height * 4,
            width * height * 4 <= usize::MAX,
            pos == pix_off(x1 as int, y1 as int, width as int),
            i <= ns.len() <= 8,
            zeroes <= 2,
            nsi == neighbours(x1 as int, y1 as int, width as int, height as int),
            ns@.map_values(|p: (usize, usize)| (p.0 as int, p.1 as int)) == nsi,
            forall|j: int| 0 <= j < ns@.len() ==> (#[trigger] ns@[j]).0 < width && ns@[j].1
                < height,
            deltas@.len() == i,
            forall|j: int| 0 <= j < i ==> #[trigger] deltas@[j] == neigh_delta(
                img@,
                pos as int,
                width as int,
                nsi[j],
            ),
            (zeroes as int - init, minb, maxb) == pass1(
                img@,
                pos as int,
                width as int,
                nsi,
                i as int,
            ),
            init == (if on_edge(x1 as int, y1 as int, width as int, height as int) {
                1int
            } else {
                0int
            }),
        decreases ns.len() - i,
    {
        let (x, y) = ns[i];
        proof {
            lemma_pix_off(x as int, y as int, width as int, height as int);
            lemma_pix_off(x1 as int, y1 as int, width as int, height as int);
            assert(nsi[i as int] == (x as int, y as int));
        }
        let npos = (y * width + x) * 4;
        let delta = color_delta(img, img, pos, npos, true);
        deltas.push(delta);
        if fb_eq(delta, ZERO) {
            zeroes = zeroes + 1;
            if zeroes > 2 {
                proof {
                    lemma_pass1_zero_mono(
                        img@,
                        pos as int,
                        width as int,
                        nsi,
                        i + 1,
                        nsi.len() as int,
                    );
                }
                return false;
            }
        } else if fb_lt(delta, minb) {
            minb = delta;
        } else if fb_gt(delta, maxb) {
            maxb = delta;
        }
        i = i + 1;
    }
    if fb_eq(minb, ZERO) || fb_eq(maxb, ZERO) {
        return false;
    }
    let ghost p = pass1(img@, pos as int, width as int, nsi, nsi.len() as int);
    proof {
        assert(init + p.0 <= 2);
        assert(minb == p.1 && maxb == p.2);
        assert(!spec_fb_eq(p.1, ZERO) && !spec_fb_eq(p.2, ZERO));
    }
    let mut j: usize = 0;
    while j < ns.len()
        invariant
            x1 < width,
            y1 < height,
            img@.len() == width * height * 4,
            img_a@.len() == width * height * 4,
            img_b@.len() == width * height * 4,
            width * height * 4 <= usize::MAX,
            pos == pix_off(x1 as int, y1 as int, width as int),
            j <= ns.len() <= 8,
            nsi == neighbours(x1 as int, y1 as int, width as int, height as int),
            ns@.map_values(|pc: (usize, usize)| (pc.0 as int, pc.1 as int)) == nsi,
            forall|jj: int| 0 <= jj < ns@.len() ==> (#[trigger] ns@[jj]).0 < width && ns@[jj].1
                < height,
            deltas@.len() == nsi.len(),
            forall|jj: int| 0 <= jj < nsi.len() ==> #[trigger] deltas@[jj] == neigh_delta(
                img@,
                pos as int,
                width as int,
                nsi[jj],
            ),
            p == pass1(img@, pos as int, width as int, nsi, nsi.len() as int),
            minb == p.1,
            maxb == p.2,
            init + p.0 <= 2,
            !spec_fb_eq(p.1, ZERO),
            !spec_fb_eq(p.2, ZERO),
            init == (if on_edge(x1 as int, y1 as int, width as int, height as int) {
                1int
            } else {
                0int
            }),
            forall|jj: int|
                0 <= jj < j ==> !((spec_fb_eq(
                    #[trigger] neigh_delta(img@, pos as int, width as int, nsi[jj]),
                    p.1,
                ) || spec_fb_eq(neigh_delta(img@, pos as int, width as int, nsi[jj]), p.2)) && (
                spec_has_many_siblings(img_a@, nsi[jj].0, nsi[jj].1, width as int, height as int)
                    || spec_has_many_siblings(
                    img_b@,
                    nsi[jj].0,
                    nsi[jj].1,
                    width as int,
                    height as int,
                ))),
        decreases ns.len() - j,
    {
        let d = deltas[j];
        if fb_eq(d, minb) || fb_eq(d, maxb) {
            let (x, y) = ns[j];
            proof {
                assert(nsi[j as int] == (x as int, y as int));
            }
            if has_many_siblings(img_a, x, y, width, height) || has_many_siblings(
                img_b,
                x,
                y,
                width,
                height,
            ) {
                proof {
                    let wit = j as int;
                    assert(spec_fb_eq(neigh_delta(img@, pos as int, width as int, nsi[wit]), p.1)
                        || spec_fb_eq(neigh_delta(img@, pos as int, width as int, nsi[wit]), p.2));
                    assert(exists|jj: int|
                        0 <= jj < nsi.len() && (spec_fb_eq(
                            #[trigger] neigh_delta(img@, pix_off(x1 as int, y1 as int, width as int), width as int, nsi[jj]),
                            p.1,
                        ) || spec_fb_eq(
                            neigh_delta(img@, pix_off(x1 as int, y1 as int, width as int), width as int, nsi[jj]),
                            p.2,
                        )) && (spec_has_many_siblings(img_a@, nsi[jj].0, nsi[jj].1, width as int, height as int)
                            || spec_has_many_siblings(img_b@, nsi[jj].0, nsi[jj].1, width as int, height as int)));
                }
                return true;
            }
        }
        j = j + 1;
    }
    false
}

} // verus!
