//! The blur of a whole raster, one pixel after another. How the samples of
//! a pixel are blended into one colour is the caller's: it is handed in as a
//! function, and every pixel of the result is what that function returned
//! for the samples of its coordinate.

use vstd::prelude::*;
use crate::convolve::{Sample, samples, gather_samples};
use crate::kernel::{Matrix, matrix_of, kernel, distance_matrix};
use crate::raster::{Raster, RasterView, Color};

verus! {

/// Whether `blend`, handed the samples `s`, may return `color`.
pub open spec fn blends_to<F: Fn(Vec<Sample>) -> Color>(blend: F, s: Seq<Sample>, color: Color) -> bool {
    exists|v: Vec<Sample>| v@ == s && call_ensures(blend, (v,), color)
}

/// Whether `blend` may be called on the samples `s`.
pub open spec fn accepts<F: Fn(Vec<Sample>) -> Color>(blend: F, s: Seq<Sample>) -> bool {
    forall|v: Vec<Sample>| v@ == s ==> call_requires(blend, (v,))
}

/// Whether `blend` may be called on the samples of every pixel of `img`
/// under the kernel `m`.
pub open spec fn accepts_all<F: Fn(Vec<Sample>) -> Color>(blend: F, m: Matrix, img: RasterView) -> bool {
    forall|x: int, y: int| img.contains(x, y) ==> accepts(blend, #[trigger] samples(m, img, x, y))
}

/// Whether every pixel of `out` is a blend of the samples of its coordinate
/// in `img` under the kernel `m`.
pub open spec fn blurred_from<F: Fn(Vec<Sample>) -> Color>(
    out: RasterView,
    blend: F,
    m: Matrix,
    img: RasterView,
) -> bool {
    forall|x: int, y: int|
        img.contains(x, y) ==> blends_to(blend, samples(m, img, x, y), #[trigger] out.pixels[(x, y)])
}

/// Computes the new colour of the pixel `(x, y)`: the blend of its samples
/// under the kernel `matrix`.
pub fn calculate_new_pixel<F: Fn(Vec<Sample>) -> Color>(
    x: u32,
    y: u32,
    matrix: &grid::Grid<u32>,
    img: &Raster,
    blend: &F,
) -> (color: Color)
    requires
        accepts(*blend, samples(matrix_of(*matrix), img@, x as int, y as int)),
    ensures
        blends_to(*blend, samples(matrix_of(*matrix), img@, x as int, y as int), color),
{
    let taken = gather_samples(x, y, matrix, img);
    blend(taken)
}

/// Blurs `original` one pixel at a time, row by row. The result has the
/// dimensions of `original`, and each of its pixels is the blend of the
/// samples of the same coordinate under the kernel of `radius`.
pub fn blur_sync<F: Fn(Vec<Sample>) -> Color>(radius: u8, original: &Raster, blend: F) -> (blurred:
    Raster)
    requires
        accepts_all(blend, kernel(radius), original@),
    ensures
        blurred@.width == original@.width,
        blurred@.height == original@.height,
        blurred@.well_formed(),
        blurred_from(blurred@, blend, kernel(radius), original@),
{
    let matrix = distance_matrix(radius);
    let width = original.width();
    let height = original.height();
    let mut blurred = Raster::blank_like(original);
    let mut y: u32 = 0;
    while y < height
        invariant
            matrix_of(matrix) == kernel(radius),
            accepts_all(blend, kernel(radius), original@),
            width == original@.width,
            height == original@.height,
            blurred@.width == width,
            blurred@.height == height,
            blurred@.well_formed(),
            y <= height,
            forall|a: int, b: int|
                0 <= a < width && 0 <= b < y ==> blends_to(
                    blend,
                    samples(kernel(radius), original@, a, b),
                    #[trigger] blurred@.pixels[(a, b)],
                ),
        decreases height - y,
    {
        let mut x: u32 = 0;
        while x < width
            invariant
                matrix_of(matrix) == kernel(radius),
                accepts_all(blend, kernel(radius), original@),
                width == original@.width,
                height == original@.height,
                blurred@.width == width,
                blurred@.height == height,
                blurred@.well_formed(),
                y < height,
                x <= width,
                forall|a: int, b: int|
                    0 <= a < width && 0 <= b < y ==> blends_to(
                        blend,
                        samples(kernel(radius), original@, a, b),
                        #[trigger] blurred@.pixels[(a, b)],
                    ),
                forall|a: int|
                    0 <= a < x ==> blends_to(
                        blend,
                        samples(kernel(radius), original@, a, y as int),
                        #[trigger] blurred@.pixels[(a, y as int)],
                    ),
            decreases width - x,
        {
            assert(original@.contains(x as int, y as int));
            let color = calculate_new_pixel(x, y, &matrix, original, &blend);
            blurred.put_pixel(x, y, color);
            x += 1;
        }
        y += 1;
    }
    blurred
}

} // verus!
