//! Non-maximum suppression: thins the squared-magnitude field by keeping
//! only pixels that are local maxima along their quantized gradient
//! direction.  Ties are kept (`>=`), which can retain double-wide ridges on
//! perfectly symmetric gradients.

use vstd::prelude::*;
use crate::grid::{as_ints, interior, pix};

verus! {

/// Linear index of the first directional neighbour of `(x, y)` for
/// quantized direction `d`: left, upper-right, above, or upper-left.
pub open spec fn dir_prev(w: int, x: int, y: int, d: int) -> int {
    if d == 0 {
        pix(w, x - 1, y)
    } else if d == 1 {
        pix(w, x + 1, y - 1)
    } else if d == 2 {
        pix(w, x, y - 1)
    } else {
        pix(w, x - 1, y - 1)
    }
}

/// Linear index of the second directional neighbour of `(x, y)` for
/// quantized direction `d`: right, lower-left, below, or lower-right.
pub open spec fn dir_next(w: int, x: int, y: int, d: int) -> int {
    if d == 0 {
        pix(w, x + 1, y)
    } else if d == 1 {
        pix(w, x - 1, y + 1)
    } else if d == 2 {
        pix(w, x, y + 1)
    } else {
        pix(w, x + 1, y + 1)
    }
}

/// Suppressed value at interior pixel `(x, y)`: its magnitude if that is at
/// least both directional neighbours' magnitudes, else zero.
pub open spec fn nms_at(mag: Seq<int>, dir: Seq<int>, w: int, x: int, y: int) -> int {
    let m = mag[pix(w, x, y)];
    let d = dir[pix(w, x, y)];
    if m >= mag[dir_prev(w, x, y, d)] && m >= mag[dir_next(w, x, y, d)] {
        m
    } else {
        0
    }
}

/// The suppressed field: `nms_at` on interior pixels, zero on the border.
pub open spec fn nms_spec(mag: Seq<int>, dir: Seq<int>, w: int, h: int) -> Seq<int> {
    Seq::new((w * h) as nat, |i: int| if interior(w, h, i) {
        nms_at(mag, dir, w, i % w, i / w)
    } else {
        0
    })
}

/// Non-maximum suppression invariant: an interior pixel with a nonzero
/// suppressed value keeps exactly its pre-suppression magnitude, and that
/// magnitude is at least both directional neighbours' magnitudes.
pub proof fn lemma_nms_invariant(mag: Seq<int>, dir: Seq<int>, w: int, h: int, i: int)
    requires
        interior(w, h, i),
        nms_spec(mag, dir, w, h)[i] != 0,
    ensures
        nms_spec(mag, dir, w, h)[i] == mag[i],
        nms_spec(mag, dir, w, h)[i] >= mag[dir_prev(w, i % w, i / w, dir[i])],
        nms_spec(mag, dir, w, h)[i] >= mag[dir_next(w, i % w, i / w, dir[i])],
{
    vstd::arithmetic::div_mod::lemma_fundamental_div_mod(i, w);
}

/// Suppresses non-maxima of the squared-magnitude field along the quantized
/// directions.  The border stays zero, and no value exceeds the input bound.
pub fn non_maximum_suppression(mag: &Vec<i64>, dir: &Vec<u8>, width: usize, height: usize) -> (out: Vec<i64>)
    requires
        3 <= width,
        3 <= height,
        mag@.len() == width * height,
        dir@.len() == width * height,
        forall|i: int| 0 <= i < mag@.len() ==> 0 <= #[trigger] mag@[i] <= 2 * 1020 * 1020,
    ensures
        out@.len() == width * height,
        forall|i: int| 0 <= i < out@.len() ==> out@[i] as int == nms_spec(
            as_ints(mag@),
            dir@.map_values(|d: u8| d as int),
            width as int,
            height as int,
        )[i],
        forall|i: int| 0 <= i < out@.len() ==> 0 <= #[trigger] out@[i] <= 2 * 1020 * 1020,
{
    let ghost ms = as_ints(mag@);
    let ghost ds = dir@.map_values(|d: u8| d as int);
    let ghost w = width as int;
    let ghost h = height as int;
    let n = mag.len();
    let mut out: Vec<i64> = Vec::new();
    let mut i: usize = 0;
    while i < n
        invariant
            3 <= width,
            3 <= height,
            n == width * height,
            mag@.len() == n,
            dir@.len() == n,
            ms == as_ints(mag@),
            ds == dir@.map_values(|d: u8| d as int),
            w == width as int,
            h == height as int,
            forall|t: int| 0 <= t < mag@.len() ==> 0 <= #[trigger] mag@[t] <= 2 * 1020 * 1020,
            i <= n,
            out@.len() == i,
            forall|t: int| 0 <= t < i ==> out@[t] as int == nms_spec(ms, ds, w, h)[t],
            forall|t: int| 0 <= t < i ==> 0 <= #[trigger] out@[t] <= 2 * 1020 * 1020,
        decreases n - i,
    {
        let x = i % width;
        let y = i / width;
        proof {
            vstd::arithmetic::div_mod::lemma_fundamental_div_mod(i as int, w);
            assert((i as int) / w < h) by (nonlinear_arith)
                requires
                    (i as int) == w * ((i as int) / w) + (i as int) % w,
                    0 <= (i as int) % w < w,
                    0 <= (i as int) < w * h,
                    1 <= w,
                    1 <= h;
        }
        if 1 <= x && x < width - 1 && 1 <= y && y < height - 1 {
            proof {
                assert((y as int + 1) * w + (x as int) + 1 < w * h) by (nonlinear_arith)
                    requires
                        0 <= (x as int) < w - 1,
                        0 <= (y as int) < h - 1,
                        1 <= w;
                assert((y as int - 1) * w <= (y as int) * w && (y as int) * w <= (y as int + 1) * w) by (nonlinear_arith)
                    requires 1 <= (y as int), 1 <= w;
            }
            let m = mag[y * width + x];
            let d = dir[y * width + x];
            let m1 = if d == 0 {
                mag[y * width + x - 1]
            } else if d == 1 {
                mag[(y - 1) * width + x + 1]
            } else if d == 2 {
                mag[(y - 1) * width + x]
            } else {
                mag[(y - 1) * width + x - 1]
            };
            let m2 = if d == 0 {
                mag[y * width + x + 1]
            } else if d == 1 {
                mag[(y + 1) * width + x - 1]
            } else if d == 2 {
                mag[(y + 1) * width + x]
            } else {
                mag[(y + 1) * width + x + 1]
            };
            let v = if m >= m1 && m >= m2 {
                m
            } else {
                0
            };
            assert(v as int == nms_at(ms, ds, w, x as int, y as int));
            out.push(v);
        } else {
            out.push(0);
        }
        i = i + 1;
    }
    out
}

} // verus!
