//! Single-pass Sobel detectors on the raw luma field: no smoothing, no
//! suppression, no hysteresis.
//!
//! The adaptive detector thresholds the squared gradient magnitudes at the
//! 85th percentile of their nonzero values; a perfectly flat image has no
//! nonzero magnitude and yields an all-false mask.  The fixed-threshold
//! variant is kept only for compatibility: it marks interior pixels whose
//! squared magnitude reaches a built-in constant and, unlike the other
//! entry points, clears the whole border pixel including its alpha byte.

use vstd::prelude::*;
use crate::grid::{as_ints, interior};
use crate::luma::{gray_spec, grayscale_intensity};
use crate::gradient::{sobel_mag_spec, sobel_mag_dir};
use crate::percentile::{percentile_spec, percentile_threshold};
use crate::canny::{mask_pixel_ok, renders_mask, write_mask_back};

verus! {

/// Squared-magnitude threshold of the fixed-threshold legacy detector.
pub const SOBEL_FIXED_THRESHOLD_SQ: i64 = 4000;

/// The squared Sobel magnitude field of a buffer's raw luma projection.
pub open spec fn sobel_field_spec(buf: Seq<u8>, w: int, h: int) -> Seq<int> {
    sobel_mag_spec(gray_spec(buf, w, h), w, h)
}

/// The adaptive detector's mask: pixels whose squared magnitude reaches the
/// percentile threshold of the nonzero magnitudes; all false when every
/// magnitude is zero (the threshold is then zero).
pub open spec fn sobel_adaptive_mask_spec(buf: Seq<u8>, w: int, h: int) -> Seq<bool> {
    let mag = sobel_field_spec(buf, w, h);
    let t = percentile_spec(mag);
    Seq::new((w * h) as nat, |i: int| t != 0 && mag[i] >= t)
}

/// The legacy detector's mask: interior pixels whose squared magnitude
/// reaches the built-in threshold.
pub open spec fn sobel_fixed_mask_spec(buf: Seq<u8>, w: int, h: int) -> Seq<bool> {
    let mag = sobel_field_spec(buf, w, h);
    Seq::new((w * h) as nat, |i: int| interior(w, h, i) && mag[i] >= SOBEL_FIXED_THRESHOLD_SQ as int)
}

/// Pixel `i` as the legacy detector writes it: mask value over R, G and B
/// with alpha 255 on the interior; every byte zero on the border.
pub open spec fn sobel_fixed_pixel_ok(buf: Seq<u8>, mask: Seq<bool>, w: int, h: int, i: int) -> bool {
    if interior(w, h, i) {
        &&& buf[4 * i] == (if mask[i] { 255u8 } else { 0u8 })
        &&& buf[4 * i + 1] == (if mask[i] { 255u8 } else { 0u8 })
        &&& buf[4 * i + 2] == (if mask[i] { 255u8 } else { 0u8 })
        &&& buf[4 * i + 3] == 255u8
    } else {
        &&& buf[4 * i] == 0u8
        &&& buf[4 * i + 1] == 0u8
        &&& buf[4 * i + 2] == 0u8
        &&& buf[4 * i + 3] == 0u8
    }
}

/// Single-pass adaptive detector: squared Sobel magnitudes of the raw luma
/// field thresholded at the 85th percentile of their nonzero values, the
/// mask written back over R, G and B with alpha forced to 255.  Degenerate
/// geometry (width or height below 3) is a guarded no-op.
pub fn sobel_adaptive(buffer: &mut Vec<u8>, width: usize, height: usize)
    requires
        old(buffer)@.len() == width * height * 4,
    ensures
        final(buffer)@.len() == old(buffer)@.len(),
        width < 3 || height < 3 ==> final(buffer)@ == old(buffer)@,
        width >= 3 && height >= 3 ==> renders_mask(
            final(buffer)@,
            sobel_adaptive_mask_spec(old(buffer)@, width as int, height as int),
            (width * height) as int,
        ),
{
    if width < 3 || height < 3 {
        return ;
    }
    let ghost w = width as int;
    let ghost h = height as int;
    let ghost buf0 = buffer@;

    let gray = grayscale_intensity(buffer, width, height);
    proof {
        assert(as_ints(gray@) =~= gray_spec(buf0, w, h));
    }
    let (mag, _dir) = sobel_mag_dir(&gray, width, height);
    let ghost field = sobel_field_spec(buf0, w, h);
    proof {
        assert(as_ints(mag@) =~= field);
    }
    let t = percentile_threshold(&mag);
    proof {
        assert(t as int == percentile_spec(field));
    }

    let n = mag.len();
    let mut mask: Vec<bool> = Vec::new();
    let mut i: usize = 0;
    while i < n
        invariant
            n == width * height,
            mag@.len() == n,
            i <= n,
            mask@.len() == i,
            forall|s: int| 0 <= s < i ==> mask@[s] == (t != 0 && mag@[s] >= t),
        decreases n - i,
    {
        mask.push(t != 0 && mag[i] >= t);
        i = i + 1;
    }
    proof {
        assert(mask@ =~= sobel_adaptive_mask_spec(buf0, w, h));
    }
    write_mask_back(buffer, width, height, &mask);
}

/// Fixed-threshold legacy detector: marks interior pixels whose squared
/// Sobel magnitude reaches the built-in constant, writing the mask over
/// R, G and B with alpha 255 on the interior and zeroing every border
/// byte, alpha included.  Degenerate geometry is a guarded no-op.
pub fn edge_detection_sobel(buffer: &mut Vec<u8>, width: usize, height: usize)
    requires
        old(buffer)@.len() == width * height * 4,
    ensures
        final(buffer)@.len() == old(buffer)@.len(),
        width < 3 || height < 3 ==> final(buffer)@ == old(buffer)@,
        width >= 3 && height >= 3 ==> forall|i: int| 0 <= i < width * height ==> #[trigger] sobel_fixed_pixel_ok(
            final(buffer)@,
            sobel_fixed_mask_spec(old(buffer)@, width as int, height as int),
            width as int,
            height as int,
            i,
        ),
{
    if width < 3 || height < 3 {
        return ;
    }
    let ghost w = width as int;
    let ghost h = height as int;
    let ghost buf0 = buffer@;

    let gray = grayscale_intensity(buffer, width, height);
    proof {
        assert(as_ints(gray@) =~= gray_spec(buf0, w, h));
    }
    let (mag, _dir) = sobel_mag_dir(&gray, width, height);
    let ghost msk = sobel_fixed_mask_spec(buf0, w, h);
    proof {
        assert(as_ints(mag@) =~= sobel_field_spec(buf0, w, h));
    }

    let n = mag.len();
    let mut i: usize = 0;
    while i < n
        invariant
            3 <= width,
            3 <= height,
            n == width * height,
            w == width as int,
            h == height as int,
            buffer.len() == n * 4,
            mag@.len() == n,
            forall|s: int| 0 <= s < n ==> mag@[s] as int == sobel_field_spec(buf0, w, h)[s],
            msk == sobel_fixed_mask_spec(buf0, w, h),
            i <= n,
            forall|s: int| 0 <= s < i ==> #[trigger] sobel_fixed_pixel_ok(buffer@, msk, w, h, s),
        decreases n - i,
    {
        let x = i % width;
        let y = i / width;
        proof {
            vstd::arithmetic::div_mod::lemma_fundamental_div_mod(i as int, w);
            assert((i as int) / w < h) by (nonlinear_arith)
                requires
                    (i as int) == w * ((i as int) / w) + (i as int) % w,
                    0 <= (i as int) % w < w,
                    0 <= (i as int) < w * h,
                    1 <= w,
                    1 <= h;
        }
        let ghost pre = buffer@;
        if 1 <= x && x < width - 1 && 1 <= y && y < height - 1 {
            let v: u8 = if mag[i] >= SOBEL_FIXED_THRESHOLD_SQ {
                255
            } else {
                0
            };
            buffer[4 * i] = v;
            buffer[4 * i + 1] = v;
            buffer[4 * i + 2] = v;
            buffer[4 * i + 3] = 255;
        } else {
            buffer[4 * i] = 0;
            buffer[4 * i + 1] = 0;
            buffer[4 * i + 2] = 0;
            buffer[4 * i + 3] = 0;
        }
        proof {
            assert forall|s: int| 0 <= s < i + 1 implies #[trigger] sobel_fixed_pixel_ok(buffer@, msk, w, h, s) by {
                if s < i as int {
                    assert(sobel_fixed_pixel_ok(pre, msk, w, h, s));
                    assert(4 * s + 3 < 4 * (i as int));
                }
            }
        }
        i = i + 1;
    }
}

} // verus!
