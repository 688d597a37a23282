//! Gradient operator: fixed 3x3 Sobel kernels over the smoothed intensity
//! field, producing a squared-magnitude field and a 4-way quantized
//! orientation per interior pixel.  Border pixels keep magnitude and
//! direction zero.
//!
//! Magnitudes are kept squared throughout the pipeline: all downstream
//! comparisons are between non-negative magnitudes, and `|u| <= |v|` holds
//! exactly when `u*u <= v*v`, so nothing is lost by never taking the root.
//!
//! The orientation angle `atan2(gy, gx)`, normalized into `[0, 180)`
//! degrees, falls in bin 0 (near-horizontal gradient) exactly when
//! `|gy| < tan(22.5)*|gx|` or the gradient is zero, and in bin 2
//! (near-vertical) exactly when `|gy| > tan(67.5)*|gx|`.  With
//! `tan(22.5) = sqrt(2)-1` and `tan(67.5) = sqrt(2)+1` these conditions are
//! equivalent, for integers, to `(|gx|+|gy|)^2 < 2*gx^2` and
//! `|gy| > |gx| && (|gy|-|gx|)^2 > 2*gx^2`; no integer gradient falls on a
//! bin boundary because the boundary tangents are irrational.  The two
//! diagonal bins are told apart by the sign of `gx*gy`.

use vstd::prelude::*;
use crate::grid::{as_ints, interior, pix};

verus! {

/// Absolute value.
pub open spec fn abs_val(v: int) -> int {
    if v < 0 {
        -v
    } else {
        v
    }
}

/// Horizontal Sobel response at interior pixel `(x, y)`: kernel
/// `[-1, 0, 1, -2, 0, 2, -1, 0, 1]`.
pub open spec fn gx_at(s: Seq<int>, w: int, x: int, y: int) -> int {
    -s[pix(w, x - 1, y - 1)] + s[pix(w, x + 1, y - 1)] - 2 * s[pix(w, x - 1, y)] + 2 * s[pix(
        w,
        x + 1,
        y,
    )] - s[pix(w, x - 1, y + 1)] + s[pix(w, x + 1, y + 1)]
}

/// Vertical Sobel response at interior pixel `(x, y)`: kernel
/// `[-1, -2, -1, 0, 0, 0, 1, 2, 1]`.
pub open spec fn gy_at(s: Seq<int>, w: int, x: int, y: int) -> int {
    -s[pix(w, x - 1, y - 1)] - 2 * s[pix(w, x, y - 1)] - s[pix(w, x + 1, y - 1)] + s[pix(
        w,
        x - 1,
        y + 1,
    )] + 2 * s[pix(w, x, y + 1)] + s[pix(w, x + 1, y + 1)]
}

/// Squared gradient magnitude at interior pixel `(x, y)`.
pub open spec fn mag_sq_at(s: Seq<int>, w: int, x: int, y: int) -> int {
    gx_at(s, w, x, y) * gx_at(s, w, x, y) + gy_at(s, w, x, y) * gy_at(s, w, x, y)
}

/// Quantized orientation of the gradient `(gx, gy)` into four bins:
/// 0 for `[0, 22.5) + [157.5, 180)` degrees, 1 for `[22.5, 67.5)`,
/// 2 for `[67.5, 112.5)`, 3 for `[112.5, 157.5)`; 0 for a zero gradient.
pub open spec fn quantize_dir(gx: int, gy: int) -> int {
    let a = abs_val(gx);
    let b = abs_val(gy);
    if (a + b) * (a + b) < 2 * a * a {
        0
    } else if b > a && (b - a) * (b - a) > 2 * a * a {
        2
    } else if a == 0 && b == 0 {
        0
    } else if (gx > 0) == (gy > 0) {
        1
    } else {
        3
    }
}

/// The squared-magnitude field: `mag_sq_at` on interior pixels, zero on the
/// border.
pub open spec fn sobel_mag_spec(s: Seq<int>, w: int, h: int) -> Seq<int> {
    Seq::new((w * h) as nat, |i: int| if interior(w, h, i) {
        mag_sq_at(s, w, i % w, i / w)
    } else {
        0
    })
}

/// The quantized-direction field: `quantize_dir` of the Sobel responses on
/// interior pixels, zero on the border.
pub open spec fn sobel_dir_spec(s: Seq<int>, w: int, h: int) -> Seq<int> {
    Seq::new((w * h) as nat, |i: int| if interior(w, h, i) {
        quantize_dir(gx_at(s, w, i % w, i / w), gy_at(s, w, i % w, i / w))
    } else {
        0
    })
}

/// Computes the squared Sobel magnitude and quantized direction of every
/// interior pixel of an intensity field with samples in `[0, 255]`.  The
/// border keeps magnitude 0 and direction 0; every magnitude is at most
/// `2 * 1020 * 1020` and every direction lies in `{0, 1, 2, 3}`.
pub fn sobel_mag_dir(src: &Vec<i64>, width: usize, height: usize) -> (r: (Vec<i64>, Vec<u8>))
    requires
        3 <= width,
        3 <= height,
        src@.len() == width * height,
        forall|i: int| 0 <= i < src@.len() ==> 0 <= #[trigger] src@[i] <= 255,
    ensures
        r.0@.len() == width * height,
        r.1@.len() == width * height,
        forall|i: int| 0 <= i < r.0@.len() ==> r.0@[i] as int == sobel_mag_spec(as_ints(src@), width as int, height as int)[i],
        forall|i: int| 0 <= i < r.1@.len() ==> r.1@[i] as int == sobel_dir_spec(as_ints(src@), width as int, height as int)[i],
        forall|i: int| 0 <= i < r.0@.len() ==> 0 <= #[trigger] r.0@[i] <= 2 * 1020 * 1020,
        forall|i: int| 0 <= i < r.1@.len() ==> #[trigger] r.1@[i] < 4,
{
    let ghost s = as_ints(src@);
    let ghost w = width as int;
    let ghost h = height as int;
    let n = src.len();
    let mut mag: Vec<i64> = Vec::new();
    let mut dir: Vec<u8> = Vec::new();
    let mut i: usize = 0;
    while i < n
        invariant
            3 <= width,
            3 <= height,
            n == width * height,
            src@.len() == n,
            s == as_ints(src@),
            w == width as int,
            h == height as int,
            forall|t: int| 0 <= t < src@.len() ==> 0 <= #[trigger] src@[t] <= 255,
            i <= n,
            mag@.len() == i,
            dir@.len() == i,
            forall|t: int| 0 <= t < i ==> mag@[t] as int == sobel_mag_spec(s, w, h)[t],
            forall|t: int| 0 <= t < i ==> dir@[t] as int == sobel_dir_spec(s, w, h)[t],
            forall|t: int| 0 <= t < i ==> 0 <= #[trigger] mag@[t] <= 2 * 1020 * 1020,
            forall|t: int| 0 <= t < i ==> #[trigger] dir@[t] < 4,
        decreases n - i,
    {
        let x = i % width;
        let y = i / width;
        proof {
            vstd::arithmetic::div_mod::lemma_fundamental_div_mod(i as int, w);
            assert((i as int) / w < h) by (nonlinear_arith)
                requires
                    (i as int) == w * ((i as int) / w) + (i as int) % w,
                    0 <= (i as int) % w < w,
                    0 <= (i as int) < w * h,
                    1 <= w,
                    1 <= h;
        }
        if 1 <= x && x < width - 1 && 1 <= y && y < height - 1 {
            proof {
                assert((y as int + 1) * w + (x as int) + 1 < w * h) by (nonlinear_arith)
                    requires
                        0 <= (x as int) < w - 1,
                        0 <= (y as int) < h - 1,
                        1 <= w;
                assert((y as int - 1) * w <= (y as int) * w && (y as int) * w <= (y as int + 1) * w) by (nonlinear_arith)
                    requires 1 <= (y as int), 1 <= w;
            }
            let p00 = src[(y - 1) * width + x - 1];
            let p01 = src[(y - 1) * width + x];
            let p02 = src[(y - 1) * width + x + 1];
            let p10 = src[y * width + x - 1];
            let p12 = src[y * width + x + 1];
            let p20 = src[(y + 1) * width + x - 1];
            let p21 = src[(y + 1) * width + x];
            let p22 = src[(y + 1) * width + x + 1];
            let gx: i64 = -p00 + p02 - 2 * p10 + 2 * p12 - p20 + p22;
            let gy: i64 = -p00 - 2 * p01 - p02 + p20 + 2 * p21 + p22;
            assert(gx as int == gx_at(s, w, x as int, y as int));
            assert(gy as int == gy_at(s, w, x as int, y as int));
            assert(-1020 <= gx <= 1020);
            assert(-1020 <= gy <= 1020);
            assert(0 <= (gx as int) * (gx as int) <= 1020 * 1020) by (nonlinear_arith)
                requires -1020 <= (gx as int) <= 1020;
            assert(0 <= (gy as int) * (gy as int) <= 1020 * 1020) by (nonlinear_arith)
                requires -1020 <= (gy as int) <= 1020;
            let m: i64 = gx * gx + gy * gy;
            let a: i64 = if gx < 0 { -gx } else { gx };
            let b: i64 = if gy < 0 { -gy } else { gy };
            assert(0 <= (a + b) * (a + b) <= 2040 * 2040) by (nonlinear_arith)
                requires 0 <= (a as int) <= 1020, 0 <= (b as int) <= 1020;
            assert(0 <= 2 * a * a <= 2 * 1020 * 1020) by (nonlinear_arith)
                requires 0 <= (a as int) <= 1020;
            assert(0 <= (b - a) * (b - a) <= 1020 * 1020) by (nonlinear_arith)
                requires 0 <= (a as int) <= 1020, 0 <= (b as int) <= 1020;
            let d: u8 = if (a + b) * (a + b) < 2 * a * a {
                0
            } else if b > a && (b - a) * (b - a) > 2 * a * a {
                2
            } else if a == 0 && b == 0 {
                0
            } else if (gx > 0) == (gy > 0) {
                1
            } else {
                3
            };
            assert(d as int == quantize_dir(gx as int, gy as int));
            mag.push(m);
            dir.push(d);
        } else {
            mag.push(0);
            dir.push(0);
        }
        i = i + 1;
    }
    (mag, dir)
}

} // verus!
