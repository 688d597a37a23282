use edgemask::convolve::gaussian_blur_separable_with_kernel;
use edgemask::gradient::sobel_mag_dir;
use edgemask::grid::clamp_i32;
use edgemask::hysteresis::double_threshold_and_hysteresis_abs;
use edgemask::luma::grayscale_intensity;
use edgemask::morphology::{dilate_binary_bool, post_thicken_bool};
use edgemask::percentile::{percentile_threshold, sort_ascending};
use edgemask::preset::{preset_for_strength, Strength, Stroke};
use edgemask::suppress::non_maximum_suppression;

#[test]
fn preset_table_is_exact() {
    let (k, norm, high, low) = preset_for_strength(Strength::Low);
    assert_eq!(k, vec![1, 6, 15, 20, 15, 6, 1]);
    assert_eq!(norm, 64);
    assert_eq!(high, 25);
    assert_eq!(low, 10);

    let (k, norm, high, low) = preset_for_strength(Strength::Medium);
    assert_eq!(k, vec![1, 4, 6, 4, 1]);
    assert_eq!(norm, 16);
    assert_eq!(high, 20);
    assert_eq!(low, 8);

    let (k, norm, high, low) = preset_for_strength(Strength::High);
    assert_eq!(k, vec![1, 2, 1]);
    assert_eq!(norm, 4);
    assert_eq!(high, 15);
    assert_eq!(low, 6);
}

#[test]
fn grayscale_uses_integer_luma_weights() {
    // intensity = (77*R + 150*G + 29*B) / 256, truncated
    let buf: Vec<u8> = vec![
        10, 20, 30, 255, // (770 + 3000 + 870) / 256 = 18
        255, 255, 255, 0, // 65280 / 256 = 255
        0, 0, 0, 9, // 0
        1, 1, 1, 1, // 256 / 256 = 1
        0, 255, 0, 2, // 38250 / 256 = 149
        255, 0, 0, 3, // 19635 / 256 = 76
    ];
    let g = grayscale_intensity(&buf, 3, 2);
    assert_eq!(g, vec![18, 255, 0, 1, 149, 76]);
}

#[test]
fn blur_keeps_uniform_field() {
    let src: Vec<i64> = vec![42; 20];
    let k: Vec<i64> = vec![1, 4, 6, 4, 1];
    let out = gaussian_blur_separable_with_kernel(&src, 5, 4, &k, 16);
    assert_eq!(out, vec![42; 20]);
}

#[test]
fn blur_single_row_exact_values() {
    // One row, kernel [1,2,1]/4 with edge replication:
    // x = 1: (0 + 0 + 255) / 4 = 63;  x = 2: (0 + 510 + 255) / 4 = 191.
    let src: Vec<i64> = vec![0, 0, 255];
    let k: Vec<i64> = vec![1, 2, 1];
    let out = gaussian_blur_separable_with_kernel(&src, 3, 1, &k, 4);
    assert_eq!(out, vec![0, 63, 191]);
}

#[test]
fn sobel_exact_horizontal_step() {
    // Rows 0 and 1 are 0, row 2 is 255: the centre pixel sees
    // gy = 255 * (1 + 2 + 1) = 1020, gx = 0, squared magnitude 1040400,
    // direction bin 2 (vertical gradient).
    let src: Vec<i64> = vec![0, 0, 0, 0, 0, 0, 255, 255, 255];
    let (mag, dir) = sobel_mag_dir(&src, 3, 3);
    assert_eq!(mag, vec![0, 0, 0, 0, 1040400, 0, 0, 0, 0]);
    assert_eq!(dir, vec![0, 0, 0, 0, 2, 0, 0, 0, 0]);
}

#[test]
fn sobel_exact_vertical_step() {
    // Columns 0 and 1 are 0, column 2 is 255: gx = 1020, gy = 0, bin 0.
    let src: Vec<i64> = vec![0, 0, 255, 0, 0, 255, 0, 0, 255];
    let (mag, dir) = sobel_mag_dir(&src, 3, 3);
    assert_eq!(mag[4], 1040400);
    assert_eq!(dir[4], 0);
}

#[test]
fn sobel_diagonal_directions() {
    // A diagonal step from the top-left corner: gx and gy are equal and
    // positive, a 45-degree gradient in bin 1.
    let src: Vec<i64> = vec![0, 0, 100, 0, 100, 100, 100, 100, 100];
    let (_, dir) = sobel_mag_dir(&src, 3, 3);
    assert_eq!(dir[4], 1);
}

#[test]
fn sobel_opposite_diagonal_direction() {
    // An upper-right triangle of high intensity: gx = 300, gy = -300, a
    // 135-degree gradient in bin 3.
    let src: Vec<i64> = vec![0, 100, 100, 0, 0, 100, 0, 0, 0];
    let (mag, dir) = sobel_mag_dir(&src, 3, 3);
    assert_eq!(dir[4], 3);
    assert_eq!(mag[4], 180000);
}

#[test]
fn nms_keeps_local_maximum_and_ties() {
    // Direction 0 compares left and right neighbours.  The centre of the
    // first field ties with its right neighbour and is kept with its own
    // magnitude; the centre of the second is smaller and is zeroed.
    let dir: Vec<u8> = vec![0; 9];
    let keep: Vec<i64> = vec![0, 0, 0, 50, 100, 100, 0, 0, 0];
    let out = non_maximum_suppression(&keep, &dir, 3, 3);
    assert_eq!(out, vec![0, 0, 0, 0, 100, 0, 0, 0, 0]);

    let drop: Vec<i64> = vec![0, 0, 0, 50, 80, 100, 0, 0, 0];
    let out = non_maximum_suppression(&drop, &dir, 3, 3);
    assert_eq!(out, vec![0, 0, 0, 0, 0, 0, 0, 0, 0]);
}

#[test]
fn hysteresis_promotes_weak_chain_to_strong() {
    // One strong seed at (1,1) and a chain of weak pixels to its right:
    // the whole chain is promoted.
    let w = 5;
    let h = 3;
    let mut nms: Vec<i64> = vec![0; w * h];
    nms[1 * w + 1] = 100; // strong
    nms[1 * w + 2] = 50; // weak, adjacent to strong
    nms[1 * w + 3] = 45; // weak, adjacent to promoted weak
    let edges = double_threshold_and_hysteresis_abs(&nms, w, h, 100, 40);
    let mut expected = vec![false; w * h];
    expected[1 * w + 1] = true;
    expected[1 * w + 2] = true;
    expected[1 * w + 3] = true;
    assert_eq!(edges, expected);
}

#[test]
fn hysteresis_drops_isolated_weak_pixels() {
    // Weak pixels with no strong pixel anywhere stay out of the mask.
    let w = 5;
    let h = 3;
    let mut nms: Vec<i64> = vec![0; w * h];
    nms[1 * w + 1] = 50;
    nms[1 * w + 3] = 60;
    let edges = double_threshold_and_hysteresis_abs(&nms, w, h, 100, 40);
    assert_eq!(edges, vec![false; w * h]);
}

#[test]
fn hysteresis_does_not_cross_gaps() {
    // A strong pixel promotes only weak pixels connected to it; a weak
    // pixel separated by a gap of pixels below the low threshold stays out.
    let w = 7;
    let h = 3;
    let mut nms: Vec<i64> = vec![0; w * h];
    nms[1 * w + 1] = 100; // strong
    nms[1 * w + 2] = 50; // weak, promoted
    // (1,3) is 0: below low, breaks the chain
    nms[1 * w + 4] = 50; // weak, isolated from the strong seed
    let edges = double_threshold_and_hysteresis_abs(&nms, w, h, 100, 40);
    assert!(edges[1 * w + 1]);
    assert!(edges[1 * w + 2]);
    assert!(!edges[1 * w + 3]);
    assert!(!edges[1 * w + 4]);
}

#[test]
fn dilate_single_pixel_radius_one() {
    let w = 5;
    let h = 5;
    let mut mask = vec![false; w * h];
    mask[2 * w + 2] = true;
    let out = dilate_binary_bool(&mask, w, h, 1, 1);
    for y in 0..h {
        for x in 0..w {
            let expected = (1..=3).contains(&x) && (1..=3).contains(&y);
            assert_eq!(out[y * w + x], expected, "pixel ({}, {})", x, y);
        }
    }
}

#[test]
fn dilate_twice_radius_one_equals_radius_two_once() {
    let w = 7;
    let h = 7;
    let mut mask = vec![false; w * h];
    mask[3 * w + 3] = true;
    let twice = dilate_binary_bool(&mask, w, h, 1, 2);
    let once_r2 = dilate_binary_bool(&mask, w, h, 2, 1);
    assert_eq!(twice, once_r2);
}

#[test]
fn dilation_is_monotone_on_an_arbitrary_mask() {
    // mask subset of dilate(mask), radius 1 and 2, one and three passes.
    let w = 6;
    let h = 5;
    let mut mask = vec![false; w * h];
    for i in [0, 7, 13, 22, 29] {
        mask[i] = true;
    }
    for (r, iters) in [(1, 1), (1, 3), (2, 1), (2, 2)] {
        let out = dilate_binary_bool(&mask, w, h, r, iters);
        for i in 0..w * h {
            if mask[i] {
                assert!(out[i], "radius {} iters {} lost pixel {}", r, iters, i);
            }
        }
    }
}

#[test]
fn post_thicken_thin_is_identity() {
    let w = 4;
    let h = 4;
    let mut mask = vec![false; w * h];
    mask[5] = true;
    mask[10] = true;
    let out = post_thicken_bool(&mask, w, h, Stroke::Thin);
    assert_eq!(out, mask);
}

#[test]
fn post_thicken_medium_is_one_radius_one_pass() {
    let w = 5;
    let h = 5;
    let mut mask = vec![false; w * h];
    mask[2 * w + 2] = true;
    let thick = post_thicken_bool(&mask, w, h, Stroke::Medium);
    let direct = dilate_binary_bool(&mask, w, h, 1, 1);
    assert_eq!(thick, direct);
}

#[test]
fn post_thicken_thick_is_two_radius_two_passes() {
    let w = 9;
    let h = 9;
    let mut mask = vec![false; w * h];
    mask[4 * w + 4] = true;
    let thick = post_thicken_bool(&mask, w, h, Stroke::Thick);
    let direct = dilate_binary_bool(&mask, w, h, 2, 2);
    assert_eq!(thick, direct);
}

#[test]
fn percentile_of_known_sorted_magnitudes() {
    // n = 10: index floor(10 * 0.85) = 8, value 90.
    let v: Vec<i64> = vec![10, 20, 30, 40, 50, 60, 70, 80, 90, 100];
    assert_eq!(percentile_threshold(&v), 90);
}

#[test]
fn percentile_ignores_order_and_zeros() {
    let v: Vec<i64> = vec![100, 0, 30, 90, 0, 20, 50, 10, 80, 0, 60, 40, 70];
    // nonzero sorted: 10..=100, same as the sorted case above
    assert_eq!(percentile_threshold(&v), 90);
}

#[test]
fn percentile_small_and_degenerate_samples() {
    let one: Vec<i64> = vec![7];
    assert_eq!(percentile_threshold(&one), 7); // floor(0.85) = 0
    let two: Vec<i64> = vec![5, 9];
    assert_eq!(percentile_threshold(&two), 9); // floor(1.7) = 1
    let zeros: Vec<i64> = vec![0, 0, 0];
    assert_eq!(percentile_threshold(&zeros), 0);
    let empty: Vec<i64> = vec![];
    assert_eq!(percentile_threshold(&empty), 0);
}

#[test]
fn sort_ascending_orders_a_permutation() {
    let mut v: Vec<i64> = vec![5, 3, 9, 1, 9, 0, 2];
    sort_ascending(&mut v);
    assert_eq!(v, vec![0, 1, 2, 3, 5, 9, 9]);
}

#[test]
fn clamp_bounds_values() {
    assert_eq!(clamp_i32(-5, 0, 9), 0);
    assert_eq!(clamp_i32(4, 0, 9), 4);
    assert_eq!(clamp_i32(12, 0, 9), 9);
}
