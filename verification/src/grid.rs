//! Pixel grid geometry: linear indexing, the interior region, and the
//! 8-connectivity relation used by hysteresis linking.

use vstd::prelude::*;

verus! {

/// Linear index of the pixel at column `x`, row `y` in a row-major grid of
/// width `w`.
pub open spec fn pix(w: int, x: int, y: int) -> int {
    y * w + x
}

/// The pixel at linear index `i` lies strictly inside the 1-pixel border of a
/// `w` by `h` grid.
pub open spec fn interior(w: int, h: int, i: int) -> bool {
    &&& 0 <= i < w * h
    &&& 1 <= i % w < w - 1
    &&& 1 <= i / w < h - 1
}

/// Linear indices `i` and `j` denote distinct pixels of the `w` by `h` grid
/// whose columns and rows each differ by at most one: the 8-neighbour
/// relation (four orthogonal and four diagonal neighbours).
pub open spec fn adj8(w: int, h: int, i: int, j: int) -> bool {
    &&& 0 <= i < w * h
    &&& 0 <= j < w * h
    &&& i != j
    &&& -1 <= i % w - j % w <= 1
    &&& -1 <= i / w - j / w <= 1
}

/// The mathematical-integer view of a field of `i64` samples.
pub open spec fn as_ints(s: Seq<i64>) -> Seq<int> {
    s.map_values(|v: i64| v as int)
}

/// Clamps `v` into the inclusive range `[lo, hi]`.
pub open spec fn clamp_spec(v: int, lo: int, hi: int) -> int {
    if v < lo {
        lo
    } else if v > hi {
        hi
    } else {
        v
    }
}

/// Clamps `v` into `[lo, hi]`.
pub fn clamp_i32(v: i32, lo: i32, hi: i32) -> (r: i32)
    requires
        lo <= hi,
    ensures
        r == clamp_spec(v as int, lo as int, hi as int),
{
    if v < lo {
        lo
    } else if v > hi {
        hi
    } else {
        v
    }
}

} // verus!
