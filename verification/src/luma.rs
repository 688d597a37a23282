//! Grayscale projection: interleaved RGBA8 to a single-channel intensity
//! field using fixed integer luma weights.

use vstd::prelude::*;

verus! {

/// Integer luma approximation: `(77*R + 150*G + 29*B) / 256`, always in
/// `[0, 255]` for byte inputs.
pub open spec fn luma_val(r: int, g: int, b: int) -> int {
    (77 * r + 150 * g + 29 * b) / 256
}

/// The intensity field of an RGBA8 buffer: one luma sample per pixel, in
/// pixel index order.
pub open spec fn gray_spec(buf: Seq<u8>, w: int, h: int) -> Seq<int> {
    Seq::new((w * h) as nat, |i: int| luma_val(buf[4 * i] as int, buf[4 * i + 1] as int, buf[4 * i + 2] as int))
}

/// Converts an RGBA8 buffer to its intensity field.  Reads only; the buffer
/// is not modified.  Every sample lies in `[0, 255]`.
pub fn grayscale_intensity(buffer: &Vec<u8>, width: usize, height: usize) -> (g: Vec<i64>)
    requires
        buffer.len() == width * height * 4,
    ensures
        g@.len() == width * height,
        forall|i: int| 0 <= i < width * height ==> g@[i] as int == gray_spec(buffer@, width as int, height as int)[i],
        forall|i: int| 0 <= i < width * height ==> 0 <= #[trigger] g@[i] <= 255,
{
    let n = width * height;
    let mut g: Vec<i64> = Vec::new();
    let mut i: usize = 0;
    while i < n
        invariant
            n == width * height,
            buffer.len() == n * 4,
            i <= n,
            g@.len() == i,
            forall|t: int| 0 <= t < i ==> g@[t] as int == gray_spec(buffer@, width as int, height as int)[t],
            forall|t: int| 0 <= t < i ==> 0 <= #[trigger] g@[t] <= 255,
        decreases n - i,
    {
        let r = buffer[4 * i] as i64;
        let gg = buffer[4 * i + 1] as i64;
        let b = buffer[4 * i + 2] as i64;
        let v = (77 * r + 150 * gg + 29 * b) / 256;
        assert(0 <= v <= 255);
        g.push(v);
        i = i + 1;
    }
    g
}

} // verus!
