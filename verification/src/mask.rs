//! The alpha image of a sprite, held as a grey image of the `image` crate.

use vstd::prelude::*;

verus! {

/// A grey image with one byte for each pixel. It only tells its size and
/// its pixels.
#[verifier::external_body]
pub struct AlphaMask {
    image: image::GrayImage,
}

/// The bytes of the image, row after row from the top.
pub uninterp spec fn mask_samples(mask: AlphaMask) -> Seq<u8>;

/// Width and height of the image.
pub uninterp spec fn mask_dimensions(mask: AlphaMask) -> (u32, u32);

/// `image::ImageBuffer::from_raw` on a grey image: the image of the given
/// size over the given bytes, where these are at least as many as its
/// pixels, and `None` where they are fewer.
#[verifier::external_body]
fn from_raw(width: u32, height: u32, samples: Vec<u8>) -> (r: Option<AlphaMask>)
    ensures
        r.is_some() == (width * height <= samples@.len()),
        r matches Some(mask) ==> mask_dimensions(mask) == (width, height) && mask_samples(mask)
            == samples@,
{
    match image::GrayImage::from_raw(width, height, samples) {
        Some(image) => Some(AlphaMask { image }),
        None => None,
    }
}

/// `image::ImageBuffer::width`: the width that the image was made with.
#[verifier::external_body]
fn image_width(mask: &AlphaMask) -> (w: u32)
    ensures
        w == mask_dimensions(*mask).0,
{
    mask.image.width()
}

/// `image::ImageBuffer::height`: the height that the image was made with.
#[verifier::external_body]
fn image_height(mask: &AlphaMask) -> (h: u32)
    ensures
        h == mask_dimensions(*mask).1,
{
    mask.image.height()
}

/// `image::ImageBuffer::get_pixel` on a grey image: the byte of the pixel
/// in column `x` of row `y`, which stands at `y * width + x` among the
/// bytes of the image. Outside the image the call would panic.
#[verifier::external_body]
fn get_pixel(mask: &AlphaMask, x: u32, y: u32) -> (v: u8)
    requires
        x < mask_dimensions(*mask).0,
        y < mask_dimensions(*mask).1,
    ensures
        v == mask_samples(*mask)[y * mask_dimensions(*mask).0 + x],
{
    mask.image.get_pixel(x, y).0[0]
}

/// The byte of the pixel in column `x` of row `y` of an image of width `w`.
pub open spec fn sample(samples: Seq<u8>, w: int, x: int, y: int) -> u8 {
    samples[y * w + x]
}

impl AlphaMask {
    /// The bytes of the image, row after row from the top.
    pub open spec fn samples(&self) -> Seq<u8> {
        mask_samples(*self)
    }

    /// The width of the image.
    pub open spec fn spec_width(&self) -> int {
        mask_dimensions(*self).0 as int
    }

    /// The height of the image.
    pub open spec fn spec_height(&self) -> int {
        mask_dimensions(*self).1 as int
    }

    /// The image of the given size over the given bytes, or `None` where
    /// the bytes are fewer than its pixels.
    pub fn new(width: u32, height: u32, samples: Vec<u8>) -> (r: Option<AlphaMask>)
        ensures
            r.is_some() == (width * height <= samples@.len()),
            r matches Some(mask) ==> mask.spec_width() == width && mask.spec_height() == height
                && mask.samples() == samples@,
    {
        from_raw(width, height, samples)
    }

    pub fn width(&self) -> (w: u32)
        ensures
            w == self.spec_width(),
    {
        image_width(self)
    }

    pub fn height(&self) -> (h: u32)
        ensures
            h == self.spec_height(),
    {
        image_height(self)
    }

    /// The byte of the pixel in column `x` of row `y`, or `None` outside
    /// the image.
    pub fn get(&self, x: u32, y: u32) -> (r: Option<u8>)
        ensures
            r.is_some() == (x < self.spec_width() && y < self.spec_height()),
            r matches Some(v) ==> v == sample(self.samples(), self.spec_width(), x as int, y as int),
    {
        if x < image_width(self) && y < image_height(self) {
            Some(get_pixel(self, x, y))
        } else {
            None
        }
    }

    /// Tells whether column `x` holds a pixel that is not zero.
    pub fn column_has_ink(&self, x: u32) -> (r: bool)
        requires
            x < self.spec_width(),
        ensures
            r == column_inked(self.samples(), self.spec_width(), self.spec_height(), x as int),
    {
        let h: u32 = image_height(self);
        let mut y: u32 = 0;
        while y < h
            invariant
                x < self.spec_width(),
                h == self.spec_height(),
                y <= h,
                forall|k: int|
                    0 <= k < y ==> sample(self.samples(), self.spec_width(), x as int, k) == 0,
            decreases h - y,
        {
            if get_pixel(self, x, y) != 0 {
                assert(sample(self.samples(), self.spec_width(), x as int, y as int) != 0);
                return true;
            }
            y += 1;
        }
        false
    }

    /// Tells whether row `y` holds a pixel that is not zero.
    pub fn row_has_ink(&self, y: u32) -> (r: bool)
        requires
            y < self.spec_height(),
        ensures
            r == row_inked(self.samples(), self.spec_width(), y as int),
    {
        let w: u32 = image_width(self);
        let mut x: u32 = 0;
        while x < w
            invariant
                y < self.spec_height(),
                w == self.spec_width(),
                x <= w,
                forall|k: int|
                    0 <= k < x ==> sample(self.samples(), self.spec_width(), k, y as int) == 0,
            decreases w - x,
        {
            if get_pixel(self, x, y) != 0 {
                assert(sample(self.samples(), self.spec_width(), x as int, y as int) != 0);
                return true;
            }
            x += 1;
        }
        false
    }
}

/// Column `x` of an image of `w` by `h` pixels holds a pixel that is not
/// zero.
pub open spec fn column_inked(samples: Seq<u8>, w: int, h: int, x: int) -> bool {
    exists|y: int| 0 <= y < h && sample(samples, w, x, y) != 0
}

/// Row `y` of an image of width `w` holds a pixel that is not zero.
pub open spec fn row_inked(samples: Seq<u8>, w: int, y: int) -> bool {
    exists|x: int| 0 <= x < w && sample(samples, w, x, y) != 0
}

} // verus!
