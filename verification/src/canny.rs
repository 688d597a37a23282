//! The Canny-style edge detection pipeline: grayscale projection, preset
//! smoothing, Sobel gradients, non-maximum suppression, fraction-of-maximum
//! dual thresholds with hysteresis linking, optional thickening, and
//! write-back of the binary mask into the RGBA buffer.
//!
//! Thresholds live in the squared-magnitude domain: a magnitude is at least
//! the fraction `pct/100` of the maximum magnitude exactly when its square
//! is at least `ceil(pct^2 * max_sq / 10000)`, where `max_sq` is the
//! maximum squared magnitude.  A field whose maximum is zero is perfectly
//! flat and yields an all-false mask.

use vstd::prelude::*;
use crate::grid::as_ints;
use crate::preset::{Strength, Stroke, kernel_spec, norm_spec, high_pct_spec, low_pct_spec, preset_for_strength, lemma_kernel_well_formed};
use crate::luma::{gray_spec, grayscale_intensity};
use crate::convolve::{smooth_spec, gaussian_blur_separable_with_kernel};
use crate::gradient::{sobel_mag_spec, sobel_dir_spec, sobel_mag_dir};
use crate::suppress::{nms_spec, non_maximum_suppression};
use crate::hysteresis::{classify_spec, edge_linked, double_threshold_and_hysteresis_abs};
use crate::morphology::{thicken_spec, post_thicken_bool};

verus! {

/// Maximum of the first `n` entries of a field, at least 0.
pub open spec fn max_prefix(s: Seq<int>, n: int) -> int
    decreases n,
{
    if n <= 0 {
        0
    } else {
        let m = max_prefix(s, n - 1);
        if s[n - 1] > m {
            s[n - 1]
        } else {
            m
        }
    }
}

/// Ceiling division for non-negative operands.
pub open spec fn ceil_div(a: int, b: int) -> int {
    (a + b - 1) / b
}

/// Squared-domain threshold for the fraction `pct/100` of the maximum:
/// an integer square `v` satisfies `v >= threshold_spec(pct, max_sq)`
/// exactly when `10000 * v >= pct * pct * max_sq`.
pub open spec fn threshold_spec(pct: int, max_sq: int) -> int {
    ceil_div(pct * pct * max_sq, 10000)
}

/// The squared-domain threshold implements the fraction-of-maximum rule
/// exactly: a square `v` reaches the threshold for `pct/100` of the
/// maximum precisely when `10000 * v >= pct * pct * max_sq`, which is the
/// squared form of `magnitude >= (pct/100) * max_magnitude`.
pub proof fn lemma_threshold_is_fraction_of_max(pct: int, max_sq: int, v: int)
    requires
        0 <= pct * pct * max_sq,
    ensures
        v >= threshold_spec(pct, max_sq) <==> 10000 * v >= pct * pct * max_sq,
{
    let a = pct * pct * max_sq;
    assert(v >= (a + 9999) / 10000 <==> 10000 * v >= a) by (nonlinear_arith)
        requires 0 <= a;
}

/// The suppressed squared-magnitude field that the thresholds see:
/// grayscale projection, preset smoothing, Sobel gradients, non-maximum
/// suppression.
pub open spec fn pipeline_nms_spec(buf: Seq<u8>, w: int, h: int, strength: Strength) -> Seq<int> {
    let gray = gray_spec(buf, w, h);
    let blurred = smooth_spec(gray, w, h, kernel_spec(strength), norm_spec(strength));
    nms_spec(sobel_mag_spec(blurred, w, h), sobel_dir_spec(blurred, w, h), w, h)
}

/// The final edge mask of the pipeline for a strength and stroke preset.
/// A flat field (maximum suppressed magnitude zero) has no edges.
pub open spec fn canny_mask_spec(buf: Seq<u8>, w: int, h: int, strength: Strength, stroke: Stroke) -> Seq<bool> {
    let nms = pipeline_nms_spec(buf, w, h, strength);
    let max_sq = max_prefix(nms, w * h);
    if max_sq == 0 {
        Seq::new((w * h) as nat, |i: int| false)
    } else {
        let cls = classify_spec(
            nms,
            w,
            h,
            threshold_spec(high_pct_spec(strength), max_sq),
            threshold_spec(low_pct_spec(strength), max_sq),
        );
        thicken_spec(Seq::new((w * h) as nat, |i: int| edge_linked(cls, w, h, i)), w, h, stroke)
    }
}

/// Pixel `i` of the buffer carries the mask value: 0 or 255 replicated over
/// R, G and B, with alpha forced to 255.
pub open spec fn mask_pixel_ok(buf: Seq<u8>, mask: Seq<bool>, i: int) -> bool {
    &&& buf[4 * i] == (if mask[i] { 255u8 } else { 0u8 })
    &&& buf[4 * i + 1] == (if mask[i] { 255u8 } else { 0u8 })
    &&& buf[4 * i + 2] == (if mask[i] { 255u8 } else { 0u8 })
    &&& buf[4 * i + 3] == 255u8
}

/// The first `n` pixels of the buffer carry the mask.
pub open spec fn renders_mask(buf: Seq<u8>, mask: Seq<bool>, n: int) -> bool {
    forall|i: int| 0 <= i < n ==> #[trigger] mask_pixel_ok(buf, mask, i)
}

/// Maximum of a field of non-negative samples (0 when empty).
fn max_of(v: &Vec<i64>) -> (m: i64)
    requires
        forall|i: int| 0 <= i < v@.len() ==> 0 <= #[trigger] v@[i],
    ensures
        m as int == max_prefix(as_ints(v@), v@.len() as int),
        forall|i: int| 0 <= i < v@.len() ==> #[trigger] v@[i] <= m,
        m >= 0,
        m == 0 || exists|i: int| 0 <= i < v@.len() && m == #[trigger] v@[i],
{
    let mut m: i64 = 0;
    let mut i: usize = 0;
    while i < v.len()
        invariant
            forall|t: int| 0 <= t < v@.len() ==> 0 <= #[trigger] v@[t],
            i <= v@.len(),
            m as int == max_prefix(as_ints(v@), i as int),
            forall|t: int| 0 <= t < i ==> #[trigger] v@[t] <= m,
            m >= 0,
            m == 0 || exists|t: int| 0 <= t < i && m == #[trigger] v@[t],
        decreases v@.len() - i,
    {
        if v[i] > m {
            m = v[i];
        }
        i = i + 1;
    }
    m
}

/// Writes the boolean mask into the RGBA buffer: 0 or 255 over R, G and B,
/// alpha 255, for every pixel.
pub(crate) fn write_mask_back(buffer: &mut Vec<u8>, width: usize, height: usize, mask: &Vec<bool>)
    requires
        old(buffer)@.len() == width * height * 4,
        mask@.len() == width * height,
    ensures
        final(buffer)@.len() == old(buffer)@.len(),
        renders_mask(final(buffer)@, mask@, (width * height) as int),
{
    let n = mask.len();
    let mut i: usize = 0;
    while i < n
        invariant
            n == width * height,
            buffer.len() == n * 4,
            mask@.len() == n,
            i <= n,
            forall|t: int| 0 <= t < i ==> #[trigger] mask_pixel_ok(buffer@, mask@, t),
        decreases n - i,
    {
        let ghost pre = buffer@;
        let v: u8 = if mask[i] {
            255
        } else {
            0
        };
        buffer[4 * i] = v;
        buffer[4 * i + 1] = v;
        buffer[4 * i + 2] = v;
        buffer[4 * i + 3] = 255;
        proof {
            assert forall|t: int| 0 <= t < i + 1 implies #[trigger] mask_pixel_ok(buffer@, mask@, t) by {
                if t < i as int {
                    assert(mask_pixel_ok(pre, mask@, t));
                    assert(4 * t + 3 < 4 * (i as int));
                } else {
                    assert(buffer@[4 * (i as int)] == v);
                    assert(buffer@[4 * (i as int) + 1] == v);
                    assert(buffer@[4 * (i as int) + 2] == v);
                    assert(buffer@[4 * (i as int) + 3] == 255u8);
                }
            }
        }
        i = i + 1;
    }
}

/// Runs the full pipeline on an RGBA8 buffer in place with explicit
/// strength and stroke presets.  Degenerate geometry (width or height
/// below 3) leaves the buffer untouched; otherwise every pixel is
/// overwritten with the mask value over R, G and B and alpha 255.
pub fn edge_detection_canny_strength_stroke(buffer: &mut Vec<u8>, width: usize, height: usize, strength: Strength, stroke: Stroke)
    requires
        old(buffer)@.len() == width * height * 4,
    ensures
        final(buffer)@.len() == old(buffer)@.len(),
        width < 3 || height < 3 ==> final(buffer)@ == old(buffer)@,
        width >= 3 && height >= 3 ==> renders_mask(
            final(buffer)@,
            canny_mask_spec(old(buffer)@, width as int, height as int, strength, stroke),
            (width * height) as int,
        ),
{
    if width < 3 || height < 3 {
        return ;
    }
    let ghost w = width as int;
    let ghost h = height as int;
    let ghost buf0 = buffer@;

    let gray = grayscale_intensity(buffer, width, height);
    proof {
        assert(as_ints(gray@) =~= gray_spec(buf0, w, h));
    }

    let (k, norm, high_pct, low_pct) = preset_for_strength(strength);
    proof {
        lemma_kernel_well_formed(strength);
    }
    let blurred = gaussian_blur_separable_with_kernel(&gray, width, height, &k, norm);
    proof {
        assert(as_ints(blurred@) =~= smooth_spec(gray_spec(buf0, w, h), w, h, kernel_spec(strength), norm_spec(strength)));
    }

    let (mag, dir) = sobel_mag_dir(&blurred, width, height);
    let ghost blurred_s = smooth_spec(gray_spec(buf0, w, h), w, h, kernel_spec(strength), norm_spec(strength));
    proof {
        assert(as_ints(mag@) =~= sobel_mag_spec(blurred_s, w, h));
        assert(dir@.map_values(|d: u8| d as int) =~= sobel_dir_spec(blurred_s, w, h));
    }

    let nms = non_maximum_suppression(&mag, &dir, width, height);
    let ghost nms_s = pipeline_nms_spec(buf0, w, h, strength);
    proof {
        assert(as_ints(nms@) =~= nms_s);
    }

    let max_sq = max_of(&nms);
    proof {
        assert(max_sq as int == max_prefix(nms_s, w * h));
    }

    if max_sq == 0 {
        let n = width * height;
        let mask: Vec<bool> = vec![false; n];
        proof {
            assert(mask@ =~= canny_mask_spec(buf0, w, h, strength, stroke));
        }
        write_mask_back(buffer, width, height, &mask);
    } else {
        proof {
            assert(1 <= low_pct <= high_pct <= 25);
            assert(max_sq <= 2 * 1020 * 1020);
            assert(1 <= (high_pct as int) * (high_pct as int) <= 625) by (nonlinear_arith)
                requires 1 <= (high_pct as int) <= 25;
            assert(1 <= (low_pct as int) * (low_pct as int) <= 625) by (nonlinear_arith)
                requires 1 <= (low_pct as int) <= 25;
            assert(0 <= (high_pct as int) * (high_pct as int) * (max_sq as int) <= 25 * 25 * 2 * 1020 * 1020) by (nonlinear_arith)
                requires
                    1 <= (high_pct as int) <= 25,
                    0 <= (max_sq as int) <= 2 * 1020 * 1020;
            assert(0 <= (low_pct as int) * (low_pct as int) * (max_sq as int) <= (high_pct as int) * (high_pct as int) * (max_sq as int)) by (nonlinear_arith)
                requires
                    1 <= (low_pct as int) <= (high_pct as int),
                    0 <= (max_sq as int);
        }
        let high_t = (high_pct * high_pct * max_sq + 9999) / 10000;
        let low_t = (low_pct * low_pct * max_sq + 9999) / 10000;
        proof {
            assert(high_t as int == threshold_spec(high_pct_spec(strength), max_sq as int));
            assert(low_t as int == threshold_spec(low_pct_spec(strength), max_sq as int));
            assert(0 <= low_t <= high_t) by (nonlinear_arith)
                requires
                    0 <= (low_pct as int) * (low_pct as int) * (max_sq as int) <= (high_pct as int) * (high_pct as int) * (max_sq as int),
                    low_t as int == ((low_pct as int) * (low_pct as int) * (max_sq as int) + 9999) / 10000,
                    high_t as int == ((high_pct as int) * (high_pct as int) * (max_sq as int) + 9999) / 10000;
        }
        let edges = double_threshold_and_hysteresis_abs(&nms, width, height, high_t, low_t);
        let ghost cls = classify_spec(
            nms_s,
            w,
            h,
            threshold_spec(high_pct_spec(strength), max_sq as int),
            threshold_spec(low_pct_spec(strength), max_sq as int),
        );
        proof {
            assert(classify_spec(as_ints(nms@), w, h, high_t as int, low_t as int) == cls);
            assert(edges@ =~= Seq::new((w * h) as nat, |i: int| edge_linked(cls, w, h, i)));
        }
        let mask = post_thicken_bool(&edges, width, height, stroke);
        proof {
            assert(mask@ == canny_mask_spec(buf0, w, h, strength, stroke));
        }
        write_mask_back(buffer, width, height, &mask);
    }
}

/// Runs the pipeline with an explicit strength preset and the default
/// medium stroke.
pub fn edge_detection_canny_strength(buffer: &mut Vec<u8>, width: usize, height: usize, strength: Strength)
    requires
        old(buffer)@.len() == width * height * 4,
    ensures
        final(buffer)@.len() == old(buffer)@.len(),
        width < 3 || height < 3 ==> final(buffer)@ == old(buffer)@,
        width >= 3 && height >= 3 ==> renders_mask(
            final(buffer)@,
            canny_mask_spec(old(buffer)@, width as int, height as int, strength, Stroke::Medium),
            (width * height) as int,
        ),
{
    edge_detection_canny_strength_stroke(buffer, width, height, strength, Stroke::Medium);
}

/// Default pipeline: medium strength, medium stroke.
pub fn edge_detection_canny(buffer: &mut Vec<u8>, width: usize, height: usize)
    requires
        old(buffer)@.len() == width * height * 4,
    ensures
        final(buffer)@.len() == old(buffer)@.len(),
        width < 3 || height < 3 ==> final(buffer)@ == old(buffer)@,
        width >= 3 && height >= 3 ==> renders_mask(
            final(buffer)@,
            canny_mask_spec(old(buffer)@, width as int, height as int, Strength::Medium, Stroke::Medium),
            (width * height) as int,
        ),
{
    edge_detection_canny_strength_stroke(buffer, width, height, Strength::Medium, Stroke::Medium);
}

/// The strength preset selected by a legacy smoothing level, given in
/// hundredths: at or above 1.80 selects low, below 1.00 selects high,
/// anything between selects medium.
pub open spec fn strength_for_sigma(sigma_centi: int) -> Strength {
    if sigma_centi >= 180 {
        Strength::Low
    } else if sigma_centi < 100 {
        Strength::High
    } else {
        Strength::Medium
    }
}

/// Compatibility shim.  The percentile and ratio arguments are accepted and
/// ignored; the smoothing level `sigma_centi` (hundredths) picks the
/// strength preset and the stroke is fixed to medium, so a level of 2.00
/// behaves exactly like the pipeline at low strength and medium stroke.
pub fn edge_detection_canny_cfg(buffer: &mut Vec<u8>, width: usize, height: usize, _high_percentile_centi: i64, _low_ratio_centi: i64, sigma_centi: i64)
    requires
        old(buffer)@.len() == width * height * 4,
    ensures
        final(buffer)@.len() == old(buffer)@.len(),
        width < 3 || height < 3 ==> final(buffer)@ == old(buffer)@,
        width >= 3 && height >= 3 ==> renders_mask(
            final(buffer)@,
            canny_mask_spec(
                old(buffer)@,
                width as int,
                height as int,
                strength_for_sigma(sigma_centi as int),
                Stroke::Medium,
            ),
            (width * height) as int,
        ),
{
    let strength = if sigma_centi >= 180 {
        Strength::Low
    } else if sigma_centi < 100 {
        Strength::High
    } else {
        Strength::Medium
    };
    edge_detection_canny_strength_stroke(buffer, width, height, strength, Stroke::Medium);
}

} // verus!
