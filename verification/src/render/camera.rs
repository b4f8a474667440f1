use vstd::prelude::*;

verus! {

/// The size of an image in pixels.
#[derive(Clone, Copy, Debug, PartialEq, Eq, Structural)]
pub struct Resolution {
    pub width: u32,
    pub height: u32,
}

impl Resolution {
    pub fn new(width: u32, height: u32) -> (resolution: Self)
        ensures
            resolution.width == width,
            resolution.height == height,
    {
        Self { width, height }
    }

    /// An image as high as it is wide.
    pub fn square(width: u32) -> (resolution: Self)
        ensures
            resolution.width == width,
            resolution.height == width,
    {
        let height = width;
        Self { width, height }
    }

    /// The number of pixels of the image.
    pub fn pixel_count(&self) -> (count: u64)
        ensures
            count == self.width * self.height,
    {
        proof {
            assert(self.width * self.height <= u32::MAX * u32::MAX) by (nonlinear_arith)
                requires
                    self.width <= u32::MAX,
                    self.height <= u32::MAX,
            ;
        }
        self.width as u64 * self.height as u64
    }

    /// The number that names sample `s` of the pixel in column `i` of row
    /// `j` to a sampler of the shutter time: the sample number added to the
    /// place of the pixel when pixels are counted row by row. `None` where
    /// that number does not fit in 32 bits.
    pub fn sample_index(&self, s: u32, i: u32, j: u32) -> (index: Option<u32>)
        ensures
            index is Some <==> s + i + j * self.width <= u32::MAX,
            index matches Some(at) ==> at == s + i + j * self.width,
    {
        proof {
            assert(0 <= j * self.width <= u32::MAX * u32::MAX) by (nonlinear_arith)
                requires
                    0 <= self.width <= u32::MAX,
                    0 <= j <= u32::MAX,
            ;
        }
        let total: u64 = j as u64 * self.width as u64 + i as u64 + s as u64;
        if total <= u32::MAX as u64 {
            Some(total as u32)
        } else {
            None
        }
    }
}

impl Default for Resolution {
    /// 800 by 600 pixels.
    fn default() -> (resolution: Self)
        ensures
            resolution.width == 800,
            resolution.height == 600,
    {
        Self { width: 800, height: 600 }
    }
}

} // verus!
