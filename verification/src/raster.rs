//! The RGB image buffers of the `image` crate, as the library sees them.
use vstd::prelude::*;
use image::{ImageBuffer, Rgb};

verus! {

/// A picture: an 8-bit RGB image of the `image` crate, whose size and pixels the
/// functions below read and change.
#[verifier::external_body]
pub struct RgbBuffer {
    pub image: image::RgbImage,
}

/// A pixel as its red, green and blue components.
pub type Px = (u8, u8, u8);

/// What an RGB image holds: the colour at each coordinate `(x, y)` inside it.
pub uninterp spec fn image_pixels(img: RgbBuffer) -> Map<(u32, u32), (u8, u8, u8)>;

/// The width and height an RGB image was made with.
pub uninterp spec fn image_dimensions(img: RgbBuffer) -> (u32, u32);

/// The coordinates inside a `w` by `h` image.
pub open spec fn in_bounds(p: (u32, u32), w: u32, h: u32) -> bool {
    p.0 < w && p.1 < h
}

/// A `w` by `h` image in which every pixel is black.
pub open spec fn black_canvas(w: u32, h: u32) -> Map<(u32, u32), Px> {
    Map::new(|p: (u32, u32)| in_bounds(p, w, h), |p: (u32, u32)| (0u8, 0u8, 0u8))
}

/// Whether a `w` by `h` RGB buffer's length, computed as `3 * w` and then times `h`,
/// fits in `usize` at every step.
pub open spec fn fits_in_memory(w: u32, h: u32) -> bool {
    3 * w <= usize::MAX && 3 * w * h <= usize::MAX
}

/// `ImageBuffer::new`: a `width` by `height` image whose samples are all zero, that is,
/// every pixel black. It computes the buffer length as `3 * width`, then times
/// `height`, and panics when either product overflows `usize`, which `requires` leaves out.
#[verifier::external_body]
pub(crate) fn new_image(width: u32, height: u32) -> (img: RgbBuffer)
    requires
        fits_in_memory(width, height),
    ensures
        image_dimensions(img) == (width, height),
        image_pixels(img) == black_canvas(width, height),
{
    RgbBuffer { image: ImageBuffer::new(width, height) }
}

/// `ImageBuffer::dimensions`: the width and height the image was made with. Every
/// coordinate inside them holds a pixel, and no other coordinate does.
#[verifier::external_body]
pub(crate) fn image_size(img: &RgbBuffer) -> (r: (u32, u32))
    ensures
        r == image_dimensions(*img),
        forall|p: (u32, u32)| #[trigger] image_pixels(*img).dom().contains(p) <==> in_bounds(p, r.0, r.1),
{
    img.image.dimensions()
}

/// `ImageBuffer::get_pixel`: the pixel at `(x, y)`. It panics outside the image,
/// which `requires` leaves out.
#[verifier::external_body]
pub(crate) fn pixel_at(img: &RgbBuffer, x: u32, y: u32) -> (p: Px)
    requires
        in_bounds((x, y), image_dimensions(*img).0, image_dimensions(*img).1),
    ensures
        p == image_pixels(*img)[(x, y)],
{
    let Rgb([r, g, b]) = *img.image.get_pixel(x, y);
    (r, g, b)
}

/// `ImageBuffer::put_pixel`: replaces the pixel at `(x, y)` and nothing else. It
/// panics outside the image, which `requires` leaves out.
#[verifier::external_body]
pub(crate) fn set_pixel(img: &mut RgbBuffer, x: u32, y: u32, p: Px)
    requires
        in_bounds((x, y), image_dimensions(*old(img)).0, image_dimensions(*old(img)).1),
    ensures
        image_dimensions(*final(img)) == image_dimensions(*old(img)),
        image_pixels(*final(img)) == image_pixels(*old(img)).insert((x, y), p),
{
    img.image.put_pixel(x, y, Rgb([p.0, p.1, p.2]))
}

} // verus!
