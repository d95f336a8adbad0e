//! Plain images of a fixed size.

use crate::raster::{channel_pixel, into_channels, new_raster, raster_pixels};
use vstd::prelude::*;

verus! {

/// Makes images of one size.
pub struct ImageGenerator {
    width: u32,
    height: u32,
}

impl View for ImageGenerator {
    /// (width, height)
    type V = (u32, u32);

    closed spec fn view(&self) -> (u32, u32) {
        (self.width, self.height)
    }
}

impl ImageGenerator {
    /// A generator of `width` by `height` images.
    pub fn new(width: u32, height: u32) -> (r: Self)
        ensures
            r@ == (width, height),
    {
        Self { width, height }
    }

    /// The (width, height) of the images this generator makes.
    pub fn size(&self) -> (r: (u32, u32))
        ensures
            r == self@,
    {
        (self.width, self.height)
    }

    /// The channels of a black image of this size: three zero bytes per
    /// pixel.
    pub fn black_image(&self) -> (r: Vec<u8>)
        requires
            3 * (self@.0 as int) <= usize::MAX,
            self@.0 as int * self@.1 as int * 3 <= usize::MAX,
        ensures
            r@.len() == 3 * (self@.0 as int * self@.1 as int),
            forall|i: int| 0 <= i < r@.len() ==> #[trigger] r@[i] == 0u8,
    {
        let raster = new_raster(self.width, self.height);
        let bytes = into_channels(raster);
        assert forall|i: int| 0 <= i < bytes@.len() implies #[trigger] bytes@[i] == 0u8 by {
            let k = i / 3;
            assert(0 <= k < raster_pixels(raster).len());
            assert(channel_pixel(bytes@, k) == raster_pixels(raster)[k]);
        }
        bytes
    }
}

} // verus!
