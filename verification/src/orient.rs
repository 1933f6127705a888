//! Turning images so that they lie or stand.

use crate::pixels::{image_height, image_pixels, image_width};
use image::DynamicImage;
use vstd::prelude::*;

verus! {

/// `turned` is `img` after a quarter turn clockwise.
pub open spec fn is_quarter_turn(turned: DynamicImage, img: DynamicImage) -> bool {
    &&& image_width(turned) == image_height(img)
    &&& image_height(turned) == image_width(img)
    &&& forall|i: int, j: int|
        0 <= i < image_width(turned) && 0 <= j < image_height(turned) ==> #[trigger] image_pixels(
            turned,
        )[(i, j)] == image_pixels(img)[(j, image_height(img) - 1 - i)]
}

/// Whether an image stands: it is higher than wide.
pub fn is_portrait(width: u32, height: u32) -> (b: bool)
    ensures
        b == (width < height),
{
    width < height
}

/// Whether an image lies: it is wider than high.
pub fn is_landscape(width: u32, height: u32) -> (b: bool)
    ensures
        b == (width > height),
{
    width > height
}

/// Lays a standing image down by a quarter turn clockwise. An image that
/// is at least as wide as high comes back as it is.
pub fn to_landscape(img: DynamicImage) -> (out: DynamicImage)
    ensures
        image_width(img) >= image_height(img) ==> out == img,
        image_width(img) < image_height(img) ==> is_quarter_turn(out, img),
        image_width(out) >= image_height(out),
{
    if is_portrait(img.width(), img.height()) {
        img.rotate90()
    } else {
        img
    }
}

/// Stands a lying image up by a quarter turn clockwise. An image that is
/// at least as high as wide comes back as it is.
pub fn to_portrait(img: DynamicImage) -> (out: DynamicImage)
    ensures
        image_width(img) <= image_height(img) ==> out == img,
        image_width(img) > image_height(img) ==> is_quarter_turn(out, img),
        image_width(out) <= image_height(out),
{
    if is_landscape(img.width(), img.height()) {
        img.rotate90()
    } else {
        img
    }
}

} // verus!
