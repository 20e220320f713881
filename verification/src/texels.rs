//! Grids of 8-bit RGBA values, as the `image` crate holds them: the texels of
//! a texture, and the pixels of a finished picture.
use vstd::prelude::*;

verus! {

/// A picture of the `image` crate.
#[verifier::external_type_specification]
#[verifier::external_body]
pub struct ExDynamicImage(image::DynamicImage);

/// The number of pixels in a row of the picture.
pub uninterp spec fn image_width(img: image::DynamicImage) -> u32;

/// The number of rows of the picture.
pub uninterp spec fn image_height(img: image::DynamicImage) -> u32;

/// The bytes of a picture of 8-bit RGBA pixels: four for each pixel, row
/// after row from the top, each row from the left.
pub uninterp spec fn image_bytes(img: image::DynamicImage) -> Seq<u8>;

/// A grid of RGBA texels of 8 bits per channel: an `image::ImageBuffer` of
/// `image::Rgba<u8>` over a `Vec<u8>`.
#[verifier::external_body]
pub struct Texels {
    inner: image::ImageBuffer<image::Rgba<u8>, Vec<u8>>,
}

/// The number of texels in a row of the grid.
pub uninterp spec fn texels_width(t: Texels) -> u32;

/// The number of rows of the grid.
pub uninterp spec fn texels_height(t: Texels) -> u32;

/// The bytes of the grid: four for each texel, row after row from the top,
/// each row from the left.
pub uninterp spec fn texels_bytes(t: Texels) -> Seq<u8>;

impl Texels {
    /// The place in the bytes of the first channel of the texel at `(x, y)`.
    pub open spec fn offset(self, x: u32, y: u32) -> int {
        (y * texels_width(self) + x) * 4
    }

    /// The four channels of the texel at `(x, y)`.
    pub open spec fn texel_at(self, x: u32, y: u32) -> Seq<u8> {
        texels_bytes(self).subrange(self.offset(x, y), self.offset(x, y) + 4)
    }

    /// The grid of the given width and height over `bytes`, four for each
    /// texel, row after row from the top. There is none where the bytes are too
    /// few; bytes beyond the last texel are kept and never read.
    pub fn new(width: u32, height: u32, bytes: Vec<u8>) -> (r: Option<Texels>)
        ensures
            r is Some <==> 4 * width * height <= bytes@.len(),
            r is Some ==> texels_width(r->0) == width && texels_height(r->0) == height
                && texels_bytes(r->0) == bytes@,
    {
        Texels::from_raw(width, height, bytes)
    }

    /// The width and the height of the grid.
    pub fn dimensions(&self) -> (d: (u32, u32))
        ensures
            d.0 == texels_width(*self),
            d.1 == texels_height(*self),
    {
        (self.width(), self.height())
    }

    /// The four channels of the texel in column `x` of row `y`, and nothing
    /// outside the grid.
    pub fn texel(&self, x: u32, y: u32) -> (p: Option<[u8; 4]>)
        ensures
            p is Some <==> x < texels_width(*self) && y < texels_height(*self),
            p is Some ==> p->0@ == self.texel_at(x, y),
    {
        if x < self.width() && y < self.height() {
            Some(self.get_pixel(x, y))
        } else {
            None
        }
    }

    /// `ImageBuffer::from_raw`: the grid of the given width and height over
    /// `bytes`, which it keeps whole. It is made exactly when the bytes are
    /// enough for four channels of every texel.
    #[verifier::external_body]
    pub(crate) fn from_raw(width: u32, height: u32, bytes: Vec<u8>) -> (r: Option<Texels>)
        ensures
            r is Some <==> 4 * width * height <= bytes@.len(),
            r is Some ==> texels_width(r->0) == width && texels_height(r->0) == height
                && texels_bytes(r->0) == bytes@,
    {
        match image::ImageBuffer::from_raw(width, height, bytes) {
            Some(inner) => Some(Texels { inner }),
            None => None,
        }
    }

    /// `ImageBuffer::width`.
    #[verifier::external_body]
    pub(crate) fn width(&self) -> (w: u32)
        ensures
            w == texels_width(*self),
    {
        self.inner.width()
    }

    /// `ImageBuffer::height`.
    #[verifier::external_body]
    pub(crate) fn height(&self) -> (h: u32)
        ensures
            h == texels_height(*self),
    {
        self.inner.height()
    }

    /// `ImageBuffer::get_pixel`: the four channels of the texel in column `x`
    /// of row `y`. `get_pixel` panics on a place that is not in the grid.
    #[verifier::external_body]
    pub(crate) fn get_pixel(&self, x: u32, y: u32) -> (p: [u8; 4])
        requires
            x < texels_width(*self),
            y < texels_height(*self),
        ensures
            p@ == self.texel_at(x, y),
    {
        self.inner.get_pixel(x, y).0
    }

    /// `DynamicImage::ImageRgba8`: the picture that holds the grid, unchanged.
    #[verifier::external_body]
    pub(crate) fn into_image(self) -> (img: image::DynamicImage)
        ensures
            image_width(img) == texels_width(self),
            image_height(img) == texels_height(self),
            image_bytes(img) == texels_bytes(self),
    {
        image::DynamicImage::ImageRgba8(self.inner)
    }
}

} // verus!
