use edgemask::canny::{
    edge_detection_canny, edge_detection_canny_cfg, edge_detection_canny_strength,
    edge_detection_canny_strength_stroke,
};
use edgemask::preset::{Strength, Stroke};
use edgemask::sobel::{edge_detection_sobel, sobel_adaptive};

fn uniform_image(w: usize, h: usize, r: u8, g: u8, b: u8, a: u8) -> Vec<u8> {
    let mut buf = Vec::new();
    for _ in 0..w * h {
        buf.push(r);
        buf.push(g);
        buf.push(b);
        buf.push(a);
    }
    buf
}

/// Left half value 0, right half value 255, boundary at column `split`.
fn split_image(w: usize, h: usize, split: usize) -> Vec<u8> {
    let mut buf = Vec::new();
    for _y in 0..h {
        for x in 0..w {
            let v = if x < split { 0 } else { 255 };
            buf.push(v);
            buf.push(v);
            buf.push(v);
            buf.push(255);
        }
    }
    buf
}

fn mask_at(buf: &Vec<u8>, w: usize, x: usize, y: usize) -> bool {
    let i = (y * w + x) * 4;
    assert_eq!(buf[i], buf[i + 1]);
    assert_eq!(buf[i], buf[i + 2]);
    assert!(buf[i] == 0 || buf[i] == 255);
    buf[i] == 255
}

#[test]
fn uniform_image_yields_empty_mask() {
    let strengths = [Strength::Low, Strength::Medium, Strength::High];
    let strokes = [Stroke::Thin, Stroke::Medium, Stroke::Thick];
    for &st in strengths.iter() {
        for &sk in strokes.iter() {
            let mut buf = uniform_image(5, 5, 100, 150, 200, 7);
            edge_detection_canny_strength_stroke(&mut buf, 5, 5, st, sk);
            assert_eq!(buf.len(), 5 * 5 * 4);
            for i in 0..25 {
                assert_eq!(buf[4 * i], 0);
                assert_eq!(buf[4 * i + 1], 0);
                assert_eq!(buf[4 * i + 2], 0);
                assert_eq!(buf[4 * i + 3], 255);
            }
        }
    }
}

#[test]
fn buffer_length_unchanged_for_all_entry_points() {
    for (w, h) in [(3usize, 3usize), (5, 4), (10, 10), (7, 3)] {
        let orig = split_image(w, h, w / 2);

        let mut b = orig.clone();
        edge_detection_canny(&mut b, w, h);
        assert_eq!(b.len(), w * h * 4);

        let mut b = orig.clone();
        edge_detection_canny_strength(&mut b, w, h, Strength::Low);
        assert_eq!(b.len(), w * h * 4);

        let mut b = orig.clone();
        edge_detection_canny_strength_stroke(&mut b, w, h, Strength::High, Stroke::Thick);
        assert_eq!(b.len(), w * h * 4);

        let mut b = orig.clone();
        edge_detection_canny_cfg(&mut b, w, h, 85, 40, 150);
        assert_eq!(b.len(), w * h * 4);

        let mut b = orig.clone();
        sobel_adaptive(&mut b, w, h);
        assert_eq!(b.len(), w * h * 4);

        let mut b = orig.clone();
        edge_detection_sobel(&mut b, w, h);
        assert_eq!(b.len(), w * h * 4);
    }
}

#[test]
fn degenerate_width_is_noop() {
    let orig = uniform_image(2, 5, 10, 20, 30, 40);
    let mut buf = orig.clone();
    edge_detection_canny(&mut buf, 2, 5);
    assert_eq!(buf, orig);

    let mut buf = orig.clone();
    edge_detection_canny_strength_stroke(&mut buf, 2, 5, Strength::High, Stroke::Thick);
    assert_eq!(buf, orig);

    let mut buf = orig.clone();
    sobel_adaptive(&mut buf, 2, 5);
    assert_eq!(buf, orig);

    let mut buf = orig.clone();
    edge_detection_sobel(&mut buf, 2, 5);
    assert_eq!(buf, orig);
}

#[test]
fn degenerate_height_is_noop() {
    let orig = split_image(7, 2, 3);
    let mut buf = orig.clone();
    edge_detection_canny(&mut buf, 7, 2);
    assert_eq!(buf, orig);
}

#[test]
fn vertical_boundary_marks_column_five() {
    // A sharp vertical boundary at column 5 of a 10x10 image: at high
    // strength the interior pixels of column 5, and only they, are marked
    // before any thickening.
    let mut buf = split_image(10, 10, 5);
    edge_detection_canny_strength_stroke(&mut buf, 10, 10, Strength::High, Stroke::Thin);
    for y in 0..10 {
        for x in 0..10 {
            let interior = (1..9).contains(&x) && (1..9).contains(&y);
            let expected = interior && x == 5;
            assert_eq!(mask_at(&buf, 10, x, y), expected, "pixel ({}, {})", x, y);
            assert_eq!(buf[(y * 10 + x) * 4 + 3], 255);
        }
    }
}

#[test]
fn vertical_boundary_tie_keeps_double_ridge() {
    // At medium strength the blurred boundary is symmetric around columns
    // 4 and 5, and equal magnitudes are kept on both sides: suppression
    // retains the documented double-wide ridge.
    let mut buf = split_image(10, 10, 5);
    edge_detection_canny_strength_stroke(&mut buf, 10, 10, Strength::Medium, Stroke::Thin);
    for y in 1..9 {
        for x in 1..9 {
            let expected = x == 4 || x == 5;
            assert_eq!(mask_at(&buf, 10, x, y), expected, "pixel ({}, {})", x, y);
        }
    }
}

#[test]
fn legacy_shim_sigma_matches_low_strength() {
    // A legacy smoothing level of 2.00 selects the low-strength preset with
    // a medium stroke.
    let orig = split_image(10, 10, 5);
    let mut shim = orig.clone();
    edge_detection_canny_cfg(&mut shim, 10, 10, 85, 40, 200);
    let mut direct = orig.clone();
    edge_detection_canny_strength_stroke(&mut direct, 10, 10, Strength::Low, Stroke::Medium);
    assert_eq!(shim, direct);
}

#[test]
fn legacy_shim_sigma_buckets() {
    let orig = split_image(8, 8, 4);

    let mut shim = orig.clone();
    edge_detection_canny_cfg(&mut shim, 8, 8, 0, 0, 50);
    let mut direct = orig.clone();
    edge_detection_canny_strength_stroke(&mut direct, 8, 8, Strength::High, Stroke::Medium);
    assert_eq!(shim, direct);

    let mut shim = orig.clone();
    edge_detection_canny_cfg(&mut shim, 8, 8, 0, 0, 179);
    let mut direct = orig.clone();
    edge_detection_canny_strength_stroke(&mut direct, 8, 8, Strength::Medium, Stroke::Medium);
    assert_eq!(shim, direct);

    let mut shim = orig.clone();
    edge_detection_canny_cfg(&mut shim, 8, 8, 0, 0, 180);
    let mut direct = orig.clone();
    edge_detection_canny_strength_stroke(&mut direct, 8, 8, Strength::Low, Stroke::Medium);
    assert_eq!(shim, direct);
}

#[test]
fn canny_default_is_medium_strength_medium_stroke() {
    let orig = split_image(10, 10, 5);
    let mut a = orig.clone();
    edge_detection_canny(&mut a, 10, 10);
    let mut b = orig.clone();
    edge_detection_canny_strength_stroke(&mut b, 10, 10, Strength::Medium, Stroke::Medium);
    assert_eq!(a, b);

    let mut c = orig.clone();
    edge_detection_canny_strength(&mut c, 10, 10, Strength::Medium);
    assert_eq!(a, c);
}

#[test]
fn thickening_grows_the_boundary_mask() {
    // Same image, thin against medium stroke: every thin pixel stays set
    // after thickening, and the medium stroke widens the ridge.
    let orig = split_image(10, 10, 5);
    let mut thin = orig.clone();
    edge_detection_canny_strength_stroke(&mut thin, 10, 10, Strength::High, Stroke::Thin);
    let mut med = orig.clone();
    edge_detection_canny_strength_stroke(&mut med, 10, 10, Strength::High, Stroke::Medium);
    let mut grew = false;
    for y in 0..10 {
        for x in 0..10 {
            if mask_at(&thin, 10, x, y) {
                assert!(mask_at(&med, 10, x, y));
            } else if mask_at(&med, 10, x, y) {
                grew = true;
            }
        }
    }
    assert!(grew);
}

#[test]
fn sobel_adaptive_boundary_marks_two_columns() {
    // The raw (unsmoothed) gradient of the sharp boundary is 1020 at the
    // interior pixels of columns 4 and 5 and zero elsewhere, so the
    // percentile threshold is 1020^2 and exactly those pixels are marked.
    let mut buf = split_image(10, 10, 5);
    sobel_adaptive(&mut buf, 10, 10);
    for y in 0..10 {
        for x in 0..10 {
            let interior = (1..9).contains(&x) && (1..9).contains(&y);
            let expected = interior && (x == 4 || x == 5);
            assert_eq!(mask_at(&buf, 10, x, y), expected, "pixel ({}, {})", x, y);
            assert_eq!(buf[(y * 10 + x) * 4 + 3], 255);
        }
    }
}

#[test]
fn sobel_adaptive_flat_image_is_all_false() {
    // A flat image has no nonzero gradient magnitude; the guarded
    // threshold yields an all-false mask instead of marking everything.
    let mut buf = uniform_image(6, 6, 77, 77, 77, 255);
    sobel_adaptive(&mut buf, 6, 6);
    for i in 0..36 {
        assert_eq!(buf[4 * i], 0);
        assert_eq!(buf[4 * i + 1], 0);
        assert_eq!(buf[4 * i + 2], 0);
        assert_eq!(buf[4 * i + 3], 255);
    }
}

#[test]
fn sobel_fixed_boundary_and_border_bytes() {
    // The legacy fixed-threshold detector marks interior pixels of columns
    // 4 and 5 (squared magnitude 1040400 >= 4000) and clears every border
    // byte including alpha.
    let mut buf = split_image(10, 10, 5);
    edge_detection_sobel(&mut buf, 10, 10);
    for y in 0..10 {
        for x in 0..10 {
            let i = (y * 10 + x) * 4;
            let interior = (1..9).contains(&x) && (1..9).contains(&y);
            if interior {
                let v = if x == 4 || x == 5 { 255 } else { 0 };
                assert_eq!(buf[i], v);
                assert_eq!(buf[i + 1], v);
                assert_eq!(buf[i + 2], v);
                assert_eq!(buf[i + 3], 255);
            } else {
                assert_eq!(buf[i], 0);
                assert_eq!(buf[i + 1], 0);
                assert_eq!(buf[i + 2], 0);
                assert_eq!(buf[i + 3], 0);
            }
        }
    }
}

#[test]
fn sobel_fixed_flat_image() {
    let mut buf = uniform_image(5, 5, 200, 100, 50, 9);
    edge_detection_sobel(&mut buf, 5, 5);
    for y in 0..5 {
        for x in 0..5 {
            let i = (y * 5 + x) * 4;
            let interior = (1..4).contains(&x) && (1..4).contains(&y);
            assert_eq!(buf[i], 0);
            assert_eq!(buf[i + 1], 0);
            assert_eq!(buf[i + 2], 0);
            assert_eq!(buf[i + 3], if interior { 255 } else { 0 });
        }
    }
}
