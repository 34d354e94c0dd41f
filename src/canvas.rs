//! The RGB pixel buffer of the `image` crate, as the rendering code sees it:
//! its dimensions and its row-major samples, three per pixel.
use image::{ImageBuffer, Rgb, RgbImage};
use vstd::prelude::*;

verus! {

/// An RGB image buffer of 8-bit samples under construction.
#[verifier::external_body]
pub struct Canvas {
    img: RgbImage,
}

/// The samples that a canvas holds, in the order of its buffer.
pub uninterp spec fn canvas_samples(c: Canvas) -> Seq<u8>;

/// The width and height that a canvas was made with.
pub uninterp spec fn canvas_size(c: Canvas) -> (u32, u32);

/// Index of the first sample of pixel (x, y) in a row-major buffer of
/// width `w` with three samples per pixel.
pub open spec fn sample_index(w: int, x: int, y: int) -> int {
    3 * (y * w + x)
}

/// A canvas whose buffer holds exactly three samples for each of its pixels.
pub open spec fn well_formed(c: Canvas) -> bool {
    canvas_samples(c).len() == 3 * canvas_size(c).0 * canvas_size(c).1
}

/// Relies on `ImageBuffer::new`: an image of the given size whose buffer is
/// `3 * width * height` zero samples. It computes that length as
/// `3 * width` first, then times `height`, and panics when either product
/// overflows.
#[verifier::external_body]
pub(crate) fn blank_canvas(width: u32, height: u32) -> (r: Canvas)
    requires
        3 * width <= usize::MAX,
        3 * width * height <= usize::MAX,
    ensures
        canvas_size(r) == (width, height),
        canvas_samples(r) == Seq::new((3 * width * height) as nat, |i: int| 0u8),
{
    Canvas { img: ImageBuffer::new(width, height) }
}

/// Relies on `ImageBuffer::put_pixel`: it overwrites the three samples that
/// start at index `3 * (y * width + x)` and nothing else; it panics when
/// (x, y) lies outside the image.
#[verifier::external_body]
pub(crate) fn put_pixel(canvas: &mut Canvas, x: u32, y: u32, c: [u8; 3])
    requires
        well_formed(*old(canvas)),
        x < canvas_size(*old(canvas)).0,
        y < canvas_size(*old(canvas)).1,
    ensures
        canvas_size(*final(canvas)) == canvas_size(*old(canvas)),
        canvas_samples(*final(canvas)) == canvas_samples(*old(canvas)).update(
            sample_index(canvas_size(*old(canvas)).0 as int, x as int, y as int),
            c@[0],
        ).update(
            sample_index(canvas_size(*old(canvas)).0 as int, x as int, y as int) + 1,
            c@[1],
        ).update(
            sample_index(canvas_size(*old(canvas)).0 as int, x as int, y as int) + 2,
            c@[2],
        ),
{
    canvas.img.put_pixel(x, y, Rgb(c));
}

/// Relies on `ImageBuffer::into_raw`: it hands back the sample buffer itself.
#[verifier::external_body]
pub(crate) fn into_samples(canvas: Canvas) -> (r: Vec<u8>)
    ensures
        r@ == canvas_samples(canvas),
{
    canvas.img.into_raw()
}

} // verus!
