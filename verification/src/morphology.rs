//! Morphological thickening: dilation of a boolean mask with a square
//! structuring element, clamped at the image edges, repeated a given number
//! of iterations.  Dilation only ever grows the true set.

use vstd::prelude::*;
use crate::grid::pix;
use crate::preset::Stroke;

verus! {

/// Some pixel of the rectangle `[x0, x1] x [y0, y1]` is true.
pub open spec fn any_in_rect(m: Seq<bool>, w: int, x0: int, x1: int, y0: int, y1: int) -> bool {
    exists|nx: int, ny: int| x0 <= nx <= x1 && y0 <= ny <= y1 && m[pix(w, nx, ny)]
}

/// Dilated value at `(x, y)`: true when any pixel within Chebyshev distance
/// `r`, clamped to the image, is true.
pub open spec fn dilate_at(m: Seq<bool>, w: int, h: int, r: int, x: int, y: int) -> bool {
    exists|nx: int, ny: int|
        0 <= nx < w && 0 <= ny < h && x - r <= nx <= x + r && y - r <= ny <= y + r && m[pix(
            w,
            nx,
            ny,
        )]
}

/// One dilation pass over the whole mask.
pub open spec fn dilate_spec(m: Seq<bool>, w: int, h: int, r: int) -> Seq<bool> {
    Seq::new((w * h) as nat, |i: int| dilate_at(m, w, h, r, i % w, i / w))
}

/// `iters` dilation passes.
pub open spec fn dilate_iter_spec(m: Seq<bool>, w: int, h: int, r: int, iters: nat) -> Seq<bool>
    decreases iters,
{
    if iters == 0 {
        m
    } else {
        dilate_spec(dilate_iter_spec(m, w, h, r, (iters - 1) as nat), w, h, r)
    }
}

/// The thickened mask for a stroke preset: unchanged for thin, one radius-1
/// pass for medium, two radius-2 passes for thick.
pub open spec fn thicken_spec(m: Seq<bool>, w: int, h: int, stroke: Stroke) -> Seq<bool> {
    match stroke {
        Stroke::Thin => m,
        Stroke::Medium => dilate_iter_spec(m, w, h, 1, 1),
        Stroke::Thick => dilate_iter_spec(m, w, h, 2, 2),
    }
}

/// Dilation monotonicity: every true pixel of a mask stays true after any
/// number of dilation passes of any non-negative radius.
pub proof fn lemma_dilate_monotone(m: Seq<bool>, w: int, h: int, r: int, iters: nat, i: int)
    requires
        m.len() == w * h,
        1 <= w,
        1 <= h,
        0 <= r,
        0 <= i < w * h,
        m[i],
    ensures
        dilate_iter_spec(m, w, h, r, iters).len() == w * h,
        dilate_iter_spec(m, w, h, r, iters)[i],
    decreases iters,
{
    if iters > 0 {
        lemma_dilate_monotone(m, w, h, r, (iters - 1) as nat, i);
        let d = dilate_iter_spec(m, w, h, r, (iters - 1) as nat);
        vstd::arithmetic::div_mod::lemma_fundamental_div_mod(i, w);
        assert(i / w < h) by (nonlinear_arith)
            requires
                i == w * (i / w) + i % w,
                0 <= i % w < w,
                0 <= i < w * h,
                1 <= w,
                1 <= h;
        let x = i % w;
        let y = i / w;
        assert(0 <= x < w && 0 <= y < h && x - r <= x <= x + r && y - r <= y <= y + r && d[pix(w, x, y)]);
        assert(dilate_at(d, w, h, r, x, y));
    }
}

/// Thickening monotonicity: every true pixel of a mask is still true after
/// the thickening pass of any stroke preset.
pub proof fn lemma_thicken_monotone(m: Seq<bool>, w: int, h: int, stroke: Stroke, i: int)
    requires
        m.len() == w * h,
        1 <= w,
        1 <= h,
        0 <= i < w * h,
        m[i],
    ensures
        thicken_spec(m, w, h, stroke).len() == w * h,
        thicken_spec(m, w, h, stroke)[i],
{
    match stroke {
        Stroke::Thin => {
        },
        Stroke::Medium => {
            lemma_dilate_monotone(m, w, h, 1, 1, i);
        },
        Stroke::Thick => {
            lemma_dilate_monotone(m, w, h, 2, 2, i);
        },
    }
}

/// One exec dilation pass.
fn dilate_once(src: &Vec<bool>, width: usize, height: usize, r: usize) -> (out: Vec<bool>)
    requires
        1 <= width,
        1 <= height,
        src@.len() == width * height,
    ensures
        out@ == dilate_spec(src@, width as int, height as int, r as int),
{
    let ghost w = width as int;
    let ghost h = height as int;
    let ghost rr = r as int;
    let n = src.len();
    let mut out: Vec<bool> = Vec::new();
    let mut i: usize = 0;
    while i < n
        invariant
            1 <= width,
            1 <= height,
            n == width * height,
            src@.len() == n,
            w == width as int,
            h == height as int,
            rr == r as int,
            i <= n,
            out@.len() == i,
            forall|t: int| 0 <= t < i ==> out@[t] == dilate_spec(src@, w, h, rr)[t],
        decreases n - i,
    {
        let x = i % width;
        let y = i / width;
        proof {
            vstd::arithmetic::div_mod::lemma_fundamental_div_mod(i as int, w);
            assert((i as int) / w < h) by (nonlinear_arith)
                requires
                    (i as int) == w * ((i as int) / w) + (i as int) % w,
                    0 <= (i as int) % w < w,
                    0 <= (i as int) < w * h,
                    1 <= w,
                    1 <= h;
        }
        let x0: usize = if x <= r { 0 } else { x - r };
        let x1: usize = if width - 1 - x <= r { width - 1 } else { x + r };
        let y0: usize = if y <= r { 0 } else { y - r };
        let y1: usize = if height - 1 - y <= r { height - 1 } else { y + r };
        let mut v = false;
        let mut ny = y0;
        while ny <= y1
            invariant
                1 <= width,
                1 <= height,
                n == width * height,
                src@.len() == n,
                w == width as int,
                h == height as int,
                x0 <= x1 < width,
                y0 <= ny,
                y0 <= y1 < height,
                ny <= y1 + 1,
                v == any_in_rect(src@, w, x0 as int, x1 as int, y0 as int, ny as int - 1),
            decreases y1 + 1 - ny,
        {
            let mut nx = x0;
            while nx <= x1
                invariant
                    1 <= width,
                    1 <= height,
                    n == width * height,
                    src@.len() == n,
                    w == width as int,
                    h == height as int,
                    x0 <= x1 < width,
                    y0 <= ny <= y1 < height,
                    x0 <= nx,
                    nx <= x1 + 1,
                    v == (any_in_rect(src@, w, x0 as int, x1 as int, y0 as int, ny as int - 1)
                        || any_in_rect(src@, w, x0 as int, nx as int - 1, ny as int, ny as int)),
                decreases x1 + 1 - nx,
            {
                proof {
                    assert((ny as int) * w + (nx as int) < w * h) by (nonlinear_arith)
                        requires
                            0 <= (nx as int) < w,
                            0 <= (ny as int) < h,
                            1 <= w;
                }
                let cur = src[ny * width + nx];
                if cur {
                    v = true;
                }
                proof {
                    let xa = x0 as int;
                    let ya = y0 as int;
                    let nxi = nx as int;
                    let nyi = ny as int;
                    assert(v == (any_in_rect(src@, w, xa, x1 as int, ya, nyi - 1) || any_in_rect(src@, w, xa, nxi, nyi, nyi))) by {
                        if cur {
                            assert(xa <= nxi <= nxi && nyi <= nyi <= nyi && src@[pix(w, nxi, nyi)]);
                            assert(any_in_rect(src@, w, xa, nxi, nyi, nyi));
                        } else {
                            if any_in_rect(src@, w, xa, nxi, nyi, nyi) {
                                let (a, b) = choose|a: int, b: int| xa <= a <= nxi && nyi <= b <= nyi && src@[pix(w, a, b)];
                                if a == nxi {
                                    assert(false);
                                } else {
                                    assert(any_in_rect(src@, w, xa, nxi - 1, nyi, nyi));
                                }
                            }
                        }
                    }
                }
                nx = nx + 1;
            }
            proof {
                let xa = x0 as int;
                let ya = y0 as int;
                let nyi = ny as int;
                assert(v == any_in_rect(src@, w, xa, x1 as int, ya, nyi)) by {
                    if v {
                        if any_in_rect(src@, w, xa, x1 as int, ya, nyi - 1) {
                            let (a, b) = choose|a: int, b: int| xa <= a <= x1 as int && ya <= b <= nyi - 1 && src@[pix(w, a, b)];
                            assert(xa <= a <= x1 as int && ya <= b <= nyi && src@[pix(w, a, b)]);
                        } else {
                            let (a, b) = choose|a: int, b: int| xa <= a <= x1 as int && nyi <= b <= nyi && src@[pix(w, a, b)];
                            assert(xa <= a <= x1 as int && ya <= b <= nyi && src@[pix(w, a, b)]);
                        }
                    } else {
                        if any_in_rect(src@, w, xa, x1 as int, ya, nyi) {
                            let (a, b) = choose|a: int, b: int| xa <= a <= x1 as int && ya <= b <= nyi && src@[pix(w, a, b)];
                            if b <= nyi - 1 {
                                assert(any_in_rect(src@, w, xa, x1 as int, ya, nyi - 1));
                            } else {
                                assert(any_in_rect(src@, w, xa, x1 as int, nyi, nyi));
                            }
                        }
                    }
                }
            }
            ny = ny + 1;
        }
        proof {
            let xi = x as int;
            let yi = y as int;
            assert(v == dilate_at(src@, w, h, rr, xi, yi)) by {
                if v {
                    let (a, b) = choose|a: int, b: int| x0 as int <= a <= x1 as int && y0 as int <= b <= y1 as int && src@[pix(w, a, b)];
                    assert(0 <= a < w && 0 <= b < h && xi - rr <= a <= xi + rr && yi - rr <= b <= yi + rr && src@[pix(w, a, b)]);
                } else {
                    if dilate_at(src@, w, h, rr, xi, yi) {
                        let (a, b) = choose|a: int, b: int|
                            0 <= a < w && 0 <= b < h && xi - rr <= a <= xi + rr && yi - rr <= b <= yi + rr && src@[pix(w, a, b)];
                        assert(x0 as int <= a <= x1 as int && y0 as int <= b <= y1 as int && src@[pix(w, a, b)]);
                        assert(any_in_rect(src@, w, x0 as int, x1 as int, y0 as int, y1 as int));
                    }
                }
            }
        }
        out.push(v);
        i = i + 1;
    }
    proof {
        assert(out@ =~= dilate_spec(src@, w, h, rr));
    }
    out
}

/// Dilates a mask `iters` times with a radius-`r` square structuring
/// element clamped at the image edges.
pub fn dilate_binary_bool(src: &Vec<bool>, width: usize, height: usize, r: usize, iters: usize) -> (out: Vec<bool>)
    requires
        1 <= width,
        1 <= height,
        src@.len() == width * height,
    ensures
        out@ == dilate_iter_spec(src@, width as int, height as int, r as int, iters as nat),
{
    let ghost w = width as int;
    let ghost h = height as int;
    let mut cur = clone_mask(src);
    let mut it: usize = 0;
    while it < iters
        invariant
            1 <= width,
            1 <= height,
            src@.len() == width * height,
            w == width as int,
            h == height as int,
            it <= iters,
            cur@ == dilate_iter_spec(src@, w, h, r as int, it as nat),
        decreases iters - it,
    {
        cur = dilate_once(&cur, width, height, r);
        it = it + 1;
        assert(cur@ == dilate_iter_spec(src@, w, h, r as int, it as nat));
    }
    cur
}

/// Copies a mask.
fn clone_mask(src: &Vec<bool>) -> (out: Vec<bool>)
    ensures
        out@ == src@,
{
    let mut out: Vec<bool> = Vec::new();
    let mut i: usize = 0;
    while i < src.len()
        invariant
            i <= src@.len(),
            out@.len() == i,
            forall|t: int| 0 <= t < i ==> out@[t] == src@[t],
        decreases src@.len() - i,
    {
        out.push(src[i]);
        i = i + 1;
    }
    proof {
        assert(out@ =~= src@);
    }
    out
}

/// Applies the stroke preset to an edge mask: identity for thin, one
/// radius-1 dilation for medium, two radius-2 dilations for thick.
pub fn post_thicken_bool(src: &Vec<bool>, width: usize, height: usize, stroke: Stroke) -> (out: Vec<bool>)
    requires
        1 <= width,
        1 <= height,
        src@.len() == width * height,
    ensures
        out@ == thicken_spec(src@, width as int, height as int, stroke),
{
    match stroke {
        Stroke::Thin => clone_mask(src),
        Stroke::Medium => dilate_binary_bool(src, width, height, 1, 1),
        Stroke::Thick => dilate_binary_bool(src, width, height, 2, 2),
    }
}

} // verus!
