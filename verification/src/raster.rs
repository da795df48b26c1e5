//! The images that payloads are hidden in. The pixel buffers are those of
//! the image crate; the codec reaches them through the few operations
//! declared here, and reasons about them through [`PixelGrid`].

use vstd::prelude::*;

verus! {

/// One pixel of a colour image.
#[derive(Clone, Copy, Debug, PartialEq, Eq, Structural)]
pub struct RgbPixel {
    pub red: u8,
    pub green: u8,
    pub blue: u8,
}

/// A colour image with eight bits per channel.
#[verifier::external_body]
pub struct RgbImage {
    inner: image::RgbImage,
}

/// A single-channel image with eight bits per pixel.
#[verifier::external_body]
pub struct GrayImage {
    inner: image::GrayImage,
}

/// Width and height of a colour image, in pixels.
pub uninterp spec fn rgb_extent(image: &RgbImage) -> (nat, nat);

/// The pixels of a colour image by column and row.
pub uninterp spec fn rgb_pixels(image: &RgbImage) -> Map<(int, int), RgbPixel>;

/// Width and height of a single-channel image, in pixels.
pub uninterp spec fn gray_extent(image: &GrayImage) -> (nat, nat);

/// The pixels of a single-channel image by column and row.
pub uninterp spec fn gray_pixels(image: &GrayImage) -> Map<(int, int), u8>;

/// The pixel that `samples` holds for column `x` and row `y` of a colour
/// image `width` pixels wide: three samples per pixel, rows from the top,
/// each from left to right.
pub open spec fn rgb_sample_pixel(samples: Seq<u8>, width: nat, x: int, y: int) -> RgbPixel {
    RgbPixel {
        red: samples[3 * (y * width + x)],
        green: samples[3 * (y * width + x) + 1],
        blue: samples[3 * (y * width + x) + 2],
    }
}

/// `ImageBuffer::from_raw` of the image crate for three-channel pixels. It
/// accepts a buffer that holds at least three samples for each pixel and
/// reads the pixels from its front, row by row.
#[verifier::external_body]
fn rgb_from_raw(width: u32, height: u32, samples: Vec<u8>) -> (made: Option<RgbImage>)
    ensures
        made is Some <==> 3 * width * height <= samples@.len(),
        made matches Some(image) ==> rgb_extent(&image) == (width as nat, height as nat),
        made matches Some(image) ==> forall|x: int, y: int|
            0 <= x < width && 0 <= y < height ==> #[trigger] rgb_pixels(&image)[(x, y)]
                == rgb_sample_pixel(samples@, width as nat, x, y),
{
    match image::RgbImage::from_raw(width, height, samples) {
        Some(inner) => Some(RgbImage { inner }),
        None => None,
    }
}

/// `ImageBuffer::into_raw` for three-channel pixels: the buffer that holds
/// the pixels at its front.
#[verifier::external_body]
fn rgb_into_raw(image: RgbImage) -> (samples: Vec<u8>)
    ensures
        samples@.len() >= 3 * rgb_extent(&image).0 * rgb_extent(&image).1,
        forall|x: int, y: int|
            0 <= x < rgb_extent(&image).0 && 0 <= y < rgb_extent(&image).1 ==> rgb_pixels(
                &image,
            )[(x, y)] == #[trigger] rgb_sample_pixel(samples@, rgb_extent(&image).0, x, y),
{
    image.inner.into_raw()
}

/// `ImageBuffer::width`. An image buffer never has more samples than a
/// buffer can hold; the second clause states this.
#[verifier::external_body]
fn rgb_width(image: &RgbImage) -> (width: u32)
    ensures
        width == rgb_extent(image).0,
        3 * width * rgb_extent(image).1 <= usize::MAX,
{
    image.inner.width()
}

/// `ImageBuffer::height`.
#[verifier::external_body]
fn rgb_height(image: &RgbImage) -> (height: u32)
    ensures
        height == rgb_extent(image).1,
{
    image.inner.height()
}

/// `ImageBuffer::get_pixel`, which panics outside the image.
#[verifier::external_body]
fn rgb_get_pixel(image: &RgbImage, x: u32, y: u32) -> (pixel: RgbPixel)
    requires
        x < rgb_extent(image).0,
        y < rgb_extent(image).1,
    ensures
        pixel == rgb_pixels(image)[(x as int, y as int)],
{
    let samples = image.inner.get_pixel(x, y).0;
    RgbPixel { red: samples[0], green: samples[1], blue: samples[2] }
}

/// `ImageBuffer::put_pixel`, which panics outside the image. It replaces
/// one pixel and leaves the rest as it was.
#[verifier::external_body]
fn rgb_put_pixel(image: &mut RgbImage, x: u32, y: u32, pixel: RgbPixel)
    requires
        x < rgb_extent(old(image)).0,
        y < rgb_extent(old(image)).1,
    ensures
        rgb_extent(final(image)) == rgb_extent(old(image)),
        rgb_pixels(final(image)) == rgb_pixels(old(image)).insert((x as int, y as int), pixel),
{
    image.inner.put_pixel(x, y, image::Rgb([pixel.red, pixel.green, pixel.blue]));
}

/// `Clone::clone` of an image buffer: the same size and the same pixels.
#[verifier::external_body]
fn rgb_clone(image: &RgbImage) -> (copy: RgbImage)
    ensures
        rgb_extent(&copy) == rgb_extent(image),
        rgb_pixels(&copy) == rgb_pixels(image),
{
    RgbImage { inner: image.inner.clone() }
}

/// `ImageBuffer::from_raw` for single-channel pixels. It accepts a buffer
/// that holds at least one sample for each pixel and reads the pixels from
/// its front, row by row.
#[verifier::external_body]
fn gray_from_raw(width: u32, height: u32, samples: Vec<u8>) -> (made: Option<GrayImage>)
    ensures
        made is Some <==> width * height <= samples@.len(),
        made matches Some(image) ==> gray_extent(&image) == (width as nat, height as nat),
        made matches Some(image) ==> forall|x: int, y: int|
            0 <= x < width && 0 <= y < height ==> #[trigger] gray_pixels(&image)[(x, y)]
                == samples@[y * width + x],
{
    match image::GrayImage::from_raw(width, height, samples) {
        Some(inner) => Some(GrayImage { inner }),
        None => None,
    }
}

/// `ImageBuffer::into_raw` for single-channel pixels.
#[verifier::external_body]
fn gray_into_raw(image: GrayImage) -> (samples: Vec<u8>)
    ensures
        samples@.len() >= gray_extent(&image).0 * gray_extent(&image).1,
        forall|x: int, y: int|
            0 <= x < gray_extent(&image).0 && 0 <= y < gray_extent(&image).1 ==> gray_pixels(
                &image,
            )[(x, y)] == #[trigger] samples@[y * gray_extent(&image).0 + x],
{
    image.inner.into_raw()
}

/// `ImageBuffer::width`, with the bound that every image buffer keeps.
#[verifier::external_body]
fn gray_width(image: &GrayImage) -> (width: u32)
    ensures
        width == gray_extent(image).0,
        width * gray_extent(image).1 <= usize::MAX,
{
    image.inner.width()
}

/// `ImageBuffer::height`.
#[verifier::external_body]
fn gray_height(image: &GrayImage) -> (height: u32)
    ensures
        height == gray_extent(image).1,
{
    image.inner.height()
}

/// `ImageBuffer::get_pixel`, which panics outside the image.
#[verifier::external_body]
fn gray_get_pixel(image: &GrayImage, x: u32, y: u32) -> (pixel: u8)
    requires
        x < gray_extent(image).0,
        y < gray_extent(image).1,
    ensures
        pixel == gray_pixels(image)[(x as int, y as int)],
{
    image.inner.get_pixel(x, y).0[0]
}

/// `ImageBuffer::put_pixel`, which panics outside the image.
#[verifier::external_body]
fn gray_put_pixel(image: &mut GrayImage, x: u32, y: u32, pixel: u8)
    requires
        x < gray_extent(old(image)).0,
        y < gray_extent(old(image)).1,
    ensures
        gray_extent(final(image)) == gray_extent(old(image)),
        gray_pixels(final(image)) == gray_pixels(old(image)).insert((x as int, y as int), pixel),
{
    image.inner.put_pixel(x, y, image::Luma([pixel]));
}

/// `Clone::clone` of an image buffer.
#[verifier::external_body]
fn gray_clone(image: &GrayImage) -> (copy: GrayImage)
    ensures
        gray_extent(&copy) == gray_extent(image),
        gray_pixels(&copy) == gray_pixels(image),
{
    GrayImage { inner: image.inner.clone() }
}

/// A rectangle of pixels that the codec can read and overwrite one pixel at
/// a time.
pub trait PixelGrid: Sized {
    /// What one pixel holds.
    type Pixel: Copy;

    /// Pixels per row.
    spec fn columns(&self) -> nat;

    /// Rows.
    spec fn rows(&self) -> nat;

    /// The pixel in column `x` of row `y`.
    spec fn pixel_at(&self, x: int, y: int) -> Self::Pixel;

    /// The pixel that fills those cells of a block that lie outside it.
    spec fn blank_pixel() -> Self::Pixel;

    /// Pixels per row; the pixel count fits the machine.
    fn width(&self) -> (width: u32)
        ensures
            width == self.columns(),
            width * self.rows() <= usize::MAX,
    ;

    /// Rows.
    fn height(&self) -> (height: u32)
        ensures
            height == self.rows(),
    ;

    /// Reads one pixel.
    fn get_pixel(&self, x: u32, y: u32) -> (pixel: Self::Pixel)
        requires
            x < self.columns(),
            y < self.rows(),
        ensures
            pixel == self.pixel_at(x as int, y as int),
    ;

    /// Overwrites one pixel and leaves the others alone.
    fn put_pixel(&mut self, x: u32, y: u32, pixel: Self::Pixel)
        requires
            x < old(self).columns(),
            y < old(self).rows(),
        ensures
            final(self).columns() == old(self).columns(),
            final(self).rows() == old(self).rows(),
            final(self).pixel_at(x as int, y as int) == pixel,
            forall|u: int, v: int|
                u != x || v != y ==> final(self).pixel_at(u, v) == old(self).pixel_at(u, v),
    ;

    /// A copy with the same size and pixels.
    fn duplicate(&self) -> (copy: Self)
        ensures
            copy.columns() == self.columns(),
            copy.rows() == self.rows(),
            forall|u: int, v: int| copy.pixel_at(u, v) == self.pixel_at(u, v),
    ;

    /// The pixel that fills those cells of a block that lie outside it.
    fn blank() -> (pixel: Self::Pixel)
        ensures
            pixel == Self::blank_pixel(),
    ;
}

impl PixelGrid for RgbImage {
    type Pixel = RgbPixel;

    open spec fn columns(&self) -> nat {
        rgb_extent(self).0
    }

    open spec fn rows(&self) -> nat {
        rgb_extent(self).1
    }

    open spec fn pixel_at(&self, x: int, y: int) -> RgbPixel {
        rgb_pixels(self)[(x, y)]
    }

    open spec fn blank_pixel() -> RgbPixel {
        RgbPixel { red: 0, green: 0, blue: 0 }
    }

    fn width(&self) -> (width: u32) {
        let width = rgb_width(self);
        assert(width * self.rows() <= 3 * width * self.rows()) by (nonlinear_arith);
        width
    }

    fn height(&self) -> (height: u32) {
        rgb_height(self)
    }

    fn get_pixel(&self, x: u32, y: u32) -> (pixel: RgbPixel) {
        rgb_get_pixel(self, x, y)
    }

    fn put_pixel(&mut self, x: u32, y: u32, pixel: RgbPixel) {
        rgb_put_pixel(self, x, y, pixel)
    }

    fn duplicate(&self) -> (copy: Self) {
        rgb_clone(self)
    }

    fn blank() -> (pixel: RgbPixel) {
        RgbPixel { red: 0, green: 0, blue: 0 }
    }
}

impl PixelGrid for GrayImage {
    type Pixel = u8;

    open spec fn columns(&self) -> nat {
        gray_extent(self).0
    }

    open spec fn rows(&self) -> nat {
        gray_extent(self).1
    }

    open spec fn pixel_at(&self, x: int, y: int) -> u8 {
        gray_pixels(self)[(x, y)]
    }

    open spec fn blank_pixel() -> u8 {
        0
    }

    fn width(&self) -> (width: u32) {
        gray_width(self)
    }

    fn height(&self) -> (height: u32) {
        gray_height(self)
    }

    fn get_pixel(&self, x: u32, y: u32) -> (pixel: u8) {
        gray_get_pixel(self, x, y)
    }

    fn put_pixel(&mut self, x: u32, y: u32, pixel: u8) {
        gray_put_pixel(self, x, y, pixel)
    }

    fn duplicate(&self) -> (copy: Self) {
        gray_clone(self)
    }

    fn blank() -> (pixel: u8) {
        0
    }
}

impl RgbImage {
    /// An image of `width` by `height` pixels over `samples`, which holds
    /// three samples per pixel, row by row; `None` if it holds too few.
    pub fn from_raw(width: u32, height: u32, samples: Vec<u8>) -> (made: Option<RgbImage>)
        ensures
            made is Some <==> 3 * width * height <= samples@.len(),
            made matches Some(image) ==> image.columns() == width && image.rows() == height
                && forall|x: int, y: int|
                0 <= x < width && 0 <= y < height ==> #[trigger] image.pixel_at(x, y)
                    == rgb_sample_pixel(samples@, width as nat, x, y),
    {
        rgb_from_raw(width, height, samples)
    }

    /// The sample buffer of the image, pixels at its front.
    pub fn into_raw(self) -> (samples: Vec<u8>)
        ensures
            samples@.len() >= 3 * self.columns() * self.rows(),
            forall|x: int, y: int|
                0 <= x < self.columns() && 0 <= y < self.rows() ==> self.pixel_at(x, y)
                    == #[trigger] rgb_sample_pixel(samples@, self.columns(), x, y),
    {
        rgb_into_raw(self)
    }
}

impl GrayImage {
    /// An image of `width` by `height` pixels over `samples`, which holds
    /// one sample per pixel, row by row; `None` if it holds too few.
    pub fn from_raw(width: u32, height: u32, samples: Vec<u8>) -> (made: Option<GrayImage>)
        ensures
            made is Some <==> width * height <= samples@.len(),
            made matches Some(image) ==> image.columns() == width && image.rows() == height
                && forall|x: int, y: int|
                0 <= x < width && 0 <= y < height ==> #[trigger] image.pixel_at(x, y)
                    == samples@[y * width + x],
    {
        gray_from_raw(width, height, samples)
    }

    /// The sample buffer of the image, pixels at its front.
    pub fn into_raw(self) -> (samples: Vec<u8>)
        ensures
            samples@.len() >= self.columns() * self.rows(),
            forall|x: int, y: int|
                0 <= x < self.columns() && 0 <= y < self.rows() ==> self.pixel_at(x, y)
                    == #[trigger] samples@[y * self.columns() + x],
    {
        gray_into_raw(self)
    }
}

} // verus!
