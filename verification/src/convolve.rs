//! Separable convolution engine: a 1-D kernel applied horizontally and then
//! vertically, each pass followed by division by the normalization divisor,
//! with positions beyond the image clamped to the nearest edge pixel
//! (replicate-border policy).

use vstd::prelude::*;
use crate::grid::{as_ints, clamp_spec, pix};
use crate::preset::ksum;

verus! {

/// Weighted sum of the first `n` kernel taps over row `y`, centred at column
/// `x`, with columns clamped into the image.
pub open spec fn conv_sum_h(src: Seq<int>, w: int, x: int, y: int, k: Seq<int>, n: int) -> int
    decreases n,
{
    if n <= 0 {
        0
    } else {
        conv_sum_h(src, w, x, y, k, n - 1) + k[n - 1] * src[pix(w, clamp_spec(
            x + (n - 1) - (k.len() - 1) / 2,
            0,
            w - 1,
        ), y)]
    }
}

/// Weighted sum of the first `n` kernel taps over column `x`, centred at row
/// `y`, with rows clamped into the image.
pub open spec fn conv_sum_v(src: Seq<int>, w: int, h: int, x: int, y: int, k: Seq<int>, n: int) -> int
    decreases n,
{
    if n <= 0 {
        0
    } else {
        conv_sum_v(src, w, h, x, y, k, n - 1) + k[n - 1] * src[pix(w, x, clamp_spec(
            y + (n - 1) - (k.len() - 1) / 2,
            0,
            h - 1,
        ))]
    }
}

/// The horizontal pass: each sample becomes its clamped kernel-weighted row
/// sum divided by `norm`.
pub open spec fn hpass_spec(src: Seq<int>, w: int, h: int, k: Seq<int>, norm: int) -> Seq<int> {
    Seq::new((w * h) as nat, |i: int| conv_sum_h(src, w, i % w, i / w, k, k.len() as int) / norm)
}

/// The vertical pass: each sample becomes its clamped kernel-weighted column
/// sum divided by `norm`.
pub open spec fn vpass_spec(src: Seq<int>, w: int, h: int, k: Seq<int>, norm: int) -> Seq<int> {
    Seq::new((w * h) as nat, |i: int| conv_sum_v(src, w, h, i % w, i / w, k, k.len() as int) / norm)
}

/// Two-pass separable smoothing: the horizontal pass followed by the
/// vertical pass.
pub open spec fn smooth_spec(src: Seq<int>, w: int, h: int, k: Seq<int>, norm: int) -> Seq<int> {
    vpass_spec(hpass_spec(src, w, h, k, norm), w, h, k, norm)
}

/// Applies one 1-D clamped pass.  `horizontal` selects row (true) or column
/// (false) direction.
fn conv_pass(src: &Vec<i64>, width: usize, height: usize, k: &Vec<i64>, norm: i64, horizontal: bool) -> (out: Vec<i64>)
    requires
        1 <= width,
        1 <= height,
        src@.len() == width * height,
        forall|i: int| 0 <= i < src@.len() ==> 0 <= #[trigger] src@[i] <= 255,
        1 <= k@.len() <= 7,
        forall|i: int| 0 <= i < k@.len() ==> 0 <= #[trigger] k@[i] <= 20,
        ksum(as_ints(k@), k@.len() as int) == norm,
        1 <= norm <= 64,
    ensures
        out@.len() == width * height,
        forall|i: int| 0 <= i < out@.len() ==> 0 <= #[trigger] out@[i] <= 255,
        horizontal ==> forall|i: int| 0 <= i < out@.len() ==> out@[i] as int == hpass_spec(
            as_ints(src@),
            width as int,
            height as int,
            as_ints(k@),
            norm as int,
        )[i],
        !horizontal ==> forall|i: int| 0 <= i < out@.len() ==> out@[i] as int == vpass_spec(
            as_ints(src@),
            width as int,
            height as int,
            as_ints(k@),
            norm as int,
        )[i],
{
    let ghost s = as_ints(src@);
    let ghost kk = as_ints(k@);
    let ghost w = width as int;
    let ghost h = height as int;
    let n = src.len();
    let klen = k.len();
    let r = (klen - 1) / 2;
    let mut out: Vec<i64> = Vec::new();
    let mut i: usize = 0;
    while i < n
        invariant
            n == width * height,
            1 <= width,
            1 <= height,
            src@.len() == n,
            s == as_ints(src@),
            kk == as_ints(k@),
            w == width as int,
            h == height as int,
            forall|t: int| 0 <= t < src@.len() ==> 0 <= #[trigger] src@[t] <= 255,
            1 <= k@.len() <= 7,
            klen == k@.len(),
            r == (klen - 1) / 2,
            forall|t: int| 0 <= t < k@.len() ==> 0 <= #[trigger] k@[t] <= 20,
            ksum(kk, klen as int) == norm,
            1 <= norm <= 64,
            i <= n,
            out@.len() == i,
            forall|t: int| 0 <= t < i ==> 0 <= #[trigger] out@[t] <= 255,
            horizontal ==> forall|t: int| 0 <= t < i ==> out@[t] as int == conv_sum_h(s, w, t % w, t / w, kk, klen as int) / (norm as int),
            !horizontal ==> forall|t: int| 0 <= t < i ==> out@[t] as int == conv_sum_v(s, w, h, t % w, t / w, kk, klen as int) / (norm as int),
        decreases n - i,
    {
        let x = i % width;
        let y = i / width;
        let mut acc: i64 = 0;
        let mut j: usize = 0;
        while j < klen
            invariant
                n == width * height,
                1 <= width,
                1 <= height,
                src@.len() == n,
                s == as_ints(src@),
                kk == as_ints(k@),
                w == width as int,
                h == height as int,
                forall|t: int| 0 <= t < src@.len() ==> 0 <= #[trigger] src@[t] <= 255,
                1 <= k@.len() <= 7,
                klen == k@.len(),
                r == (klen - 1) / 2,
                forall|t: int| 0 <= t < k@.len() ==> 0 <= #[trigger] k@[t] <= 20,
                1 <= norm <= 64,
                i < n,
                x == i % width,
                y == i / width,
                j <= klen,
                0 <= acc,
                acc as int <= 255 * ksum(kk, j as int),
                ksum(kk, j as int) <= 64 * 7,
                horizontal ==> acc as int == conv_sum_h(s, w, x as int, y as int, kk, j as int),
                !horizontal ==> acc as int == conv_sum_v(s, w, h, x as int, y as int, kk, j as int),
            decreases klen - j,
        {
            let weight = k[j];
            let src_idx: usize = if horizontal {
                let sx: i128 = x as i128 + j as i128 - r as i128;
                let cx: i128 = if sx < 0 {
                    0
                } else if sx > (width - 1) as i128 {
                    (width - 1) as i128
                } else {
                    sx
                };
                let xx: usize = cx as usize;
                assert(xx as int == clamp_spec(x as int + j as int - r as int, 0, w - 1));
                proof {
                    vstd::arithmetic::div_mod::lemma_fundamental_div_mod(i as int, width as int);
                    assert((y as int) * (width as int) + (xx as int) < (n as int)) by (nonlinear_arith)
                        requires
                            (i as int) == (width as int) * (y as int) + (x as int),
                            0 <= (x as int) < (width as int),
                            0 <= (xx as int) < (width as int),
                            0 <= (i as int) < (n as int),
                            (n as int) == (width as int) * (height as int),
                            1 <= (width as int);
                }
                y * width + xx
            } else {
                let sy: i128 = y as i128 + j as i128 - r as i128;
                let cy: i128 = if sy < 0 {
                    0
                } else if sy > (height - 1) as i128 {
                    (height - 1) as i128
                } else {
                    sy
                };
                let yy: usize = cy as usize;
                assert(yy as int == clamp_spec(y as int + j as int - r as int, 0, h - 1));
                assert((yy as int) * w + (x as int) < w * h) by (nonlinear_arith)
                    requires 0 <= (yy as int) < h, 0 <= (x as int) < w, w == width as int, h == height as int;
                yy * width + x
            };
            let v = src[src_idx];
            assert(0 <= weight * v <= 20 * 255) by (nonlinear_arith)
                requires 0 <= weight <= 20, 0 <= v <= 255;
            assert((weight as int) * (v as int) <= (weight as int) * 255) by (nonlinear_arith)
                requires 0 <= weight, v <= 255;
            assert(ksum(kk, j as int + 1) == ksum(kk, j as int) + kk[j as int]);
            assert(ksum(kk, j as int + 1) <= 64 * 7) by {
                lemma_ksum_bounded(kk, j as int + 1);
            }
            acc = acc + weight * v;
            j = j + 1;
        }
        assert(ksum(kk, klen as int) == norm);
        assert(0 <= acc as int / (norm as int) <= 255) by (nonlinear_arith)
            requires 0 <= (acc as int) <= 255 * (norm as int), 1 <= (norm as int);
        let val = acc / norm;
        out.push(val);
        i = i + 1;
    }
    proof {
        assert forall|t: int| 0 <= t < out@.len() && horizontal implies out@[t] as int == hpass_spec(s, w, h, kk, norm as int)[t] by {
        }
        assert forall|t: int| 0 <= t < out@.len() && !horizontal implies out@[t] as int == vpass_spec(s, w, h, kk, norm as int)[t] by {
        }
    }
    out
}

/// Partial kernel sums of a bounded kernel are bounded.
proof fn lemma_ksum_bounded(k: Seq<int>, n: int)
    requires
        k.len() <= 7,
        forall|i: int| 0 <= i < k.len() ==> 0 <= #[trigger] k[i] <= 20,
        0 <= n <= k.len(),
    ensures
        0 <= ksum(k, n) <= 64 * 7,
    decreases n,
{
    if n > 0 {
        lemma_ksum_bounded(k, n - 1);
        assert(ksum(k, n - 1) <= 20 * (n - 1)) by {
            lemma_ksum_linear_bound(k, n - 1);
        }
        lemma_ksum_linear_bound(k, n);
    }
}

/// Each partial kernel sum is at most 20 per tap.
proof fn lemma_ksum_linear_bound(k: Seq<int>, n: int)
    requires
        forall|i: int| 0 <= i < k.len() ==> 0 <= #[trigger] k[i] <= 20,
        0 <= n <= k.len(),
    ensures
        0 <= ksum(k, n) <= 20 * n,
    decreases n,
{
    if n > 0 {
        lemma_ksum_linear_bound(k, n - 1);
    }
}

/// Smooths an intensity field with an odd-length kernel: one horizontal and
/// one vertical clamped pass, each divided by `norm`.  The result has the
/// same dimensions and every sample stays in `[0, 255]`.
pub fn gaussian_blur_separable_with_kernel(src: &Vec<i64>, width: usize, height: usize, k: &Vec<i64>, norm: i64) -> (out: Vec<i64>)
    requires
        1 <= width,
        1 <= height,
        src@.len() == width * height,
        forall|i: int| 0 <= i < src@.len() ==> 0 <= #[trigger] src@[i] <= 255,
        1 <= k@.len() <= 7,
        k@.len() % 2 == 1,
        forall|i: int| 0 <= i < k@.len() ==> 0 <= #[trigger] k@[i] <= 20,
        ksum(as_ints(k@), k@.len() as int) == norm,
        1 <= norm <= 64,
    ensures
        out@.len() == width * height,
        forall|i: int| 0 <= i < out@.len() ==> 0 <= #[trigger] out@[i] <= 255,
        forall|i: int| 0 <= i < out@.len() ==> out@[i] as int == smooth_spec(
            as_ints(src@),
            width as int,
            height as int,
            as_ints(k@),
            norm as int,
        )[i],
{
    let tmp = conv_pass(src, width, height, k, norm, true);
    let out = conv_pass(&tmp, width, height, k, norm, false);
    proof {
        let s = as_ints(src@);
        let kk = as_ints(k@);
        let w = width as int;
        let h = height as int;
        assert(as_ints(tmp@) =~= hpass_spec(s, w, h, kk, norm as int));
    }
    out
}

} // verus!
