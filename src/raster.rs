//! The output raster: an RGB image of 8-bit channels from the image crate,
//! seen by its size and its pixels in row-major order from the top left.

use vstd::prelude::*;

verus! {

/// An RGB image being filled in. It holds an `image::RgbImage`, which Verus
/// cannot declare, and is seen only through `raster_size` and
/// `raster_pixels`.
#[verifier::external_body]
pub struct Raster {
    image: image::RgbImage,
}

/// The (width, height) of a raster.
pub uninterp spec fn raster_size(r: Raster) -> (u32, u32);

/// The pixels of a raster, row by row from the top left.
pub uninterp spec fn raster_pixels(r: Raster) -> Seq<(u8, u8, u8)>;

/// The pixel at position `k` of a row-major buffer of 8-bit RGB channels.
pub open spec fn channel_pixel(bytes: Seq<u8>, k: int) -> (u8, u8, u8) {
    (bytes[3 * k], bytes[3 * k + 1], bytes[3 * k + 2])
}

/// Relies on `ImageBuffer::new`: an image of the given size whose channels
/// are all zero. It panics where the buffer length, worked out as
/// `3 * width` and then times `height`, overflows `usize` at either step.
#[verifier::external_body]
pub(crate) fn new_raster(width: u32, height: u32) -> (r: Raster)
    requires
        3 * (width as int) <= usize::MAX,
        width as int * height as int * 3 <= usize::MAX,
    ensures
        raster_size(r) == (width, height),
        raster_pixels(r) == Seq::new(width as nat * height as nat, |k: int| (0u8, 0u8, 0u8)),
{
    Raster { image: image::RgbImage::new(width, height) }
}

/// Relies on `ImageBuffer::put_pixel`: the pixel in column `x` of row `y`,
/// and no other, becomes `p`. It panics outside the image.
#[verifier::external_body]
pub(crate) fn put_pixel(r: &mut Raster, x: u32, y: u32, p: (u8, u8, u8))
    requires
        x < raster_size(*old(r)).0,
        y < raster_size(*old(r)).1,
    ensures
        raster_size(*final(r)) == raster_size(*old(r)),
        raster_pixels(*final(r)) == raster_pixels(*old(r)).update(
            y as int * raster_size(*old(r)).0 as int + x as int,
            p,
        ),
{
    r.image.put_pixel(x, y, image::Rgb([p.0, p.1, p.2]));
}

/// Relies on `ImageBuffer::into_raw`: the channel buffer, three bytes per
/// pixel in the pixels' order.
#[verifier::external_body]
pub(crate) fn into_channels(r: Raster) -> (bytes: Vec<u8>)
    ensures
        bytes@.len() == 3 * raster_pixels(r).len(),
        forall|k: int|
            0 <= k < raster_pixels(r).len() ==> channel_pixel(bytes@, k) == #[trigger] raster_pixels(
                r,
            )[k],
{
    r.image.into_raw()
}

} // verus!
