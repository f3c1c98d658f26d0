//! A coverage mask: a grayscale image of the `image` crate, as the drawing
//! code sees it: a width, a height, and one byte per pixel position.
use vstd::prelude::*;
use image::{GrayImage, ImageBuffer, Luma};

verus! {

/// A grayscale image (`image::GrayImage`) on which lines are drawn before
/// they are blended onto a color image.
#[verifier::external_body]
pub struct Mask {
    img: GrayImage,
}

/// The width of the mask, as it was made.
pub uninterp spec fn mask_width(m: Mask) -> u32;

/// The height of the mask, as it was made.
pub uninterp spec fn mask_height(m: Mask) -> u32;

/// The value of each pixel of the mask, by position `(x, y)`.
pub uninterp spec fn mask_pixels(m: Mask) -> Map<(int, int), u8>;

/// The positions of an image of the given size.
pub open spec fn positions(w: int, h: int) -> Set<(int, int)> {
    Set::new(|k: (int, int)| 0 <= k.0 < w && 0 <= k.1 < h)
}

impl Mask {
    /// `ImageBuffer::from_pixel` with the pixel `Luma([fill])`: a mask of
    /// the given size with every pixel `fill`. The call panics when the
    /// buffer would be larger than a vector can be.
    #[verifier::external_body]
    pub(crate) fn new(width: u32, height: u32, fill: u8) -> (m: Mask)
        requires
            width as int * height as int <= isize::MAX as int,
        ensures
            mask_width(m) == width,
            mask_height(m) == height,
            mask_pixels(m).dom() == positions(width as int, height as int),
            forall|k: (int, int)| #[trigger] mask_pixels(m).contains_key(k) ==> mask_pixels(m)[k] == fill,
    {
        Mask { img: ImageBuffer::from_pixel(width, height, Luma([fill])) }
    }

    /// `ImageBuffer::width`: the mask's width. A mask has one pixel at each
    /// position inside its width and height, and none elsewhere.
    #[verifier::external_body]
    pub(crate) fn width(&self) -> (w: u32)
        ensures
            w == mask_width(*self),
            mask_pixels(*self).dom() == positions(w as int, mask_height(*self) as int),
    {
        self.img.width()
    }

    /// `ImageBuffer::height`: the mask's height.
    #[verifier::external_body]
    pub(crate) fn height(&self) -> (h: u32)
        ensures
            h == mask_height(*self),
    {
        self.img.height()
    }

    /// `ImageBuffer::get_pixel`: the value of the pixel at `(x, y)`, which
    /// must be inside the mask (the call panics otherwise).
    #[verifier::external_body]
    pub(crate) fn pixel(&self, x: u32, y: u32) -> (v: u8)
        requires
            x < mask_width(*self),
            y < mask_height(*self),
        ensures
            v == mask_pixels(*self)[(x as int, y as int)],
    {
        self.img.get_pixel(x, y).0[0]
    }

    /// `ImageBuffer::put_pixel`: sets the pixel at `(x, y)`, which must be
    /// inside the mask (the call panics otherwise), and nothing else.
    #[verifier::external_body]
    pub(crate) fn put_pixel(&mut self, x: u32, y: u32, value: u8)
        requires
            x < mask_width(*old(self)),
            y < mask_height(*old(self)),
        ensures
            mask_width(*final(self)) == mask_width(*old(self)),
            mask_height(*final(self)) == mask_height(*old(self)),
            mask_pixels(*final(self)) == mask_pixels(*old(self)).insert(
                (x as int, y as int),
                value,
            ),
    {
        self.img.put_pixel(x, y, Luma([value]));
    }

    /// A mask of the given size with every pixel 0.
    pub fn blank(width: u32, height: u32) -> (m: Mask)
        requires
            width as int * height as int <= isize::MAX as int,
        ensures
            mask_width(m) == width,
            mask_height(m) == height,
            mask_pixels(m).dom() == positions(width as int, height as int),
            forall|k: (int, int)| #[trigger] mask_pixels(m).contains_key(k) ==> mask_pixels(m)[k] == 0,
    {
        Mask::new(width, height, 0)
    }

    /// The width and height of the mask.
    pub fn dimensions(&self) -> (r: (u32, u32))
        ensures
            r == (mask_width(*self), mask_height(*self)),
            mask_pixels(*self).dom() == positions(r.0 as int, r.1 as int),
    {
        (self.width(), self.height())
    }
}

} // verus!
