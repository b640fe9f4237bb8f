use vstd::prelude::*;
use crate::geometry::ImageBounds;

verus! {

/// Gray level of one pixel: 0 when the point never escaped within the
/// iteration limit of 255, otherwise 255 minus the escape iteration, so
/// points that escape at once are white and slow ones are near black.
pub open spec fn spec_shade(t: Option<u32>) -> u8 {
    match t {
        Option::None => 0u8,
        Option::Some(i) => (255 - i) as u8,
    }
}

/// Turns an escape-time result into the gray level of its pixel.
pub fn shade(t: Option<u32>) -> (r: u8)
    requires
        t matches Some(i) ==> i < 255,
    ensures
        r == spec_shade(t),
        t is None ==> r == 0,
        t matches Some(i) ==> r == 255 - i,
{
    match t {
        Option::None => 0u8,
        Option::Some(count) => (255 - count) as u8,
    }
}

/// Position of pixel (row, col) in the row-major buffer for `bounds`.
pub fn pixel_index(bounds: &ImageBounds, row: usize, col: usize) -> (idx: usize)
    requires
        bounds.wf(),
        row < bounds.height,
        col < bounds.width,
    ensures
        idx == row * bounds.width + col,
        idx < bounds.width * bounds.height,
{
    proof {
        assert(row * bounds.width + col < bounds.width * bounds.height) by (nonlinear_arith)
            requires
                row < bounds.height,
                col < bounds.width,
                bounds.width > 0,
        ;
    }
    row * bounds.width + col
}

} // verus!
