use vstd::prelude::*;

verus! {

/// An RGB image with eight bits per channel, held by the `image` crate.
///
/// Verus cannot take `image::ImageBuffer` as a declared type (its pixel
/// parameter is bound by the crate's own `Pixel` trait), so the buffer sits
/// behind this struct; `raster_size` and `raster_pixels` say what it holds.
#[verifier::external_body]
pub struct RgbRaster {
    img: image::RgbImage,
}

/// Width and height of the raster, in pixels.
pub uninterp spec fn raster_size(r: RgbRaster) -> (u32, u32);

/// The pixels of the raster: one `(red, green, blue)` triple for each in-bounds
/// `(x, y)`, with `x` counted from the left and `y` from the top.
pub uninterp spec fn raster_pixels(r: RgbRaster) -> Map<(u32, u32), (u8, u8, u8)>;

/// A `width` by `height` raster of black pixels.
pub open spec fn black_raster(width: u32, height: u32) -> Map<(u32, u32), (u8, u8, u8)> {
    Map::new(|p: (u32, u32)| p.0 < width && p.1 < height, |p: (u32, u32)| (0u8, 0u8, 0u8))
}

/// Channel `c` (0 red, 1 green, 2 blue) of a pixel.
pub open spec fn channel(rgb: (u8, u8, u8), c: int) -> u8 {
    if c == 0 {
        rgb.0
    } else if c == 1 {
        rgb.1
    } else {
        rgb.2
    }
}

/// Where the `k`-th pixel of a raster `width` pixels wide stands, counting
/// row by row from the top left: `(column, row)`.
pub open spec fn pixel_of(width: u32, k: int) -> (u32, u32) {
    ((k % (width as int)) as u32, (k / (width as int)) as u32)
}

/// Whether `bytes` lays out `pixels`, a `width` by `height` raster, row by
/// row from the top, three channels per pixel.
pub open spec fn row_major_bytes(
    bytes: Seq<u8>,
    pixels: Map<(u32, u32), (u8, u8, u8)>,
    width: u32,
    height: u32,
) -> bool {
    &&& bytes.len() == 3 * (width as int) * (height as int)
    &&& forall|k: int, c: int|
        0 <= k < (width as int) * (height as int) && 0 <= c < 3 ==> #[trigger] bytes[3 * k + c]
            == channel(pixels[pixel_of(width, k)], c)
}

impl RgbRaster {
    /// Relies on `image::ImageBuffer::new`: a `width` by `height` image whose
    /// channels are all zero. It panics only when the buffer length, three
    /// channels per pixel, overflows `usize`.
    #[verifier::external_body]
    pub(crate) fn new(width: u32, height: u32) -> (r: RgbRaster)
        requires
            crate::plan::raster_fits(width, height),
        ensures
            raster_size(r) == (width, height),
            raster_pixels(r) == black_raster(width, height),
    {
        RgbRaster { img: image::RgbImage::new(width, height) }
    }

    /// Relies on `image::ImageBuffer::put_pixel`: overwrites the three channels
    /// of the pixel at `(x, y)` and nothing else. It panics when `(x, y)` is
    /// out of bounds.
    #[verifier::external_body]
    pub(crate) fn put(&mut self, x: u32, y: u32, rgb: (u8, u8, u8))
        requires
            x < raster_size(*old(self)).0,
            y < raster_size(*old(self)).1,
        ensures
            raster_size(*final(self)) == raster_size(*old(self)),
            raster_pixels(*final(self)) == raster_pixels(*old(self)).insert((x, y), rgb),
    {
        self.img.put_pixel(x, y, image::Rgb([rgb.0, rgb.1, rgb.2]));
    }

    /// Relies on `image::ImageBuffer::into_raw`: the buffer that holds the
    /// channels, pixel `(x, y)` at offset `3 * (y * width + x)`.
    #[verifier::external_body]
    pub(crate) fn into_raw(self) -> (r: Vec<u8>)
        ensures
            row_major_bytes(r@, raster_pixels(self), raster_size(self).0, raster_size(self).1),
    {
        self.img.into_raw()
    }
}

} // verus!
