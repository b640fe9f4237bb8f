use vstd::prelude::*;

verus! {

/// Pixel-space dimensions of the output image.
#[derive(Clone, Copy, PartialEq, Eq, Structural, Debug)]
pub struct ImageBounds {
    pub width: usize,
    pub height: usize,
}

impl ImageBounds {
    /// Well-formed bounds describe a non-empty image whose pixel count
    /// fits in `usize`, so a row-major byte buffer for it can exist.
    pub open spec fn wf(self) -> bool {
        &&& self.width > 0
        &&& self.height > 0
        &&& self.width * self.height <= usize::MAX
    }

    /// Dimensions are accepted exactly when both sides are positive and
    /// the pixel count fits in `usize`.
    pub fn new(width: usize, height: usize) -> (r: Option<ImageBounds>)
        ensures
            match r {
                Some(b) => b.width == width && b.height == height && b.wf(),
                None => width == 0 || height == 0 || width * height > usize::MAX,
            },
    {
        if width == 0 || height == 0 {
            return None;
        }
        match width.checked_mul(height) {
            Some(_) => Some(ImageBounds { width, height }),
            None => None,
        }
    }

    /// The length a row-major pixel buffer for these bounds must have.
    pub fn pixel_count(&self) -> (n: usize)
        requires
            self.wf(),
        ensures
            n == self.width * self.height,
    {
        self.width * self.height
    }
}

/// A point of the complex plane, held as its two components.
#[derive(Clone, Copy, PartialEq, Debug)]
pub struct Complex<T> {
    pub re: T,
    pub im: T,
}

impl<T> Complex<T> {
    pub fn new(re: T, im: T) -> (r: Complex<T>)
        ensures
            r.re == re,
            r.im == im,
    {
        Complex { re, im }
    }
}

} // verus!
