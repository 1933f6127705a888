//! Decoded images as the planner sees them: a width, a height, and a pixel
//! at every position. The buffers themselves belong to the `image` crate.

use vstd::prelude::*;

verus! {

/// `image::DynamicImage`: a decoded image in one of several pixel formats.
/// Nothing of its inside is known here but what the names below say.
#[verifier::external_type_specification]
#[verifier::external_body]
pub struct ExDynamicImage(image::DynamicImage);

/// Number of pixel columns of an image.
pub uninterp spec fn image_width(img: image::DynamicImage) -> nat;

/// Number of pixel rows of an image.
pub uninterp spec fn image_height(img: image::DynamicImage) -> nat;

/// The pixels of an image by position `(x, y)`, column first, each as the
/// red, green, blue and alpha bytes that the image shows there.
pub uninterp spec fn image_pixels(img: image::DynamicImage) -> Map<(int, int), (u8, u8, u8, u8)>;

/// `DynamicImage::width`: the number of columns of the underlying buffer.
pub assume_specification[ image::DynamicImage::width ](img: &image::DynamicImage) -> (w: u32)
    ensures
        w == image_width(*img),
;

/// `DynamicImage::height`: the number of rows of the underlying buffer.
pub assume_specification[ image::DynamicImage::height ](img: &image::DynamicImage) -> (h: u32)
    ensures
        h == image_height(*img),
;

/// Where a crop asked for at `at` with length `len` really starts and how
/// far it really reaches on an axis of `extent` pixels: the start is pulled
/// back to the edge, and the length is cut to what is left from there.
pub open spec fn clamped(extent: nat, at: nat, len: nat) -> (nat, nat) {
    let start = if at < extent {
        at
    } else {
        extent
    };
    let rest = (extent - start) as nat;
    (start, if len < rest {
        len
    } else {
        rest
    })
}

/// `DynamicImage::crop_imm`: a new image that holds the rectangle of `img`
/// with its top left corner at column `x` and row `y`. The rectangle is
/// first clamped to the image on both axes; inside it every pixel is
/// copied as it is.
pub assume_specification[ image::DynamicImage::crop_imm ](
    img: &image::DynamicImage,
    x: u32,
    y: u32,
    width: u32,
    height: u32,
) -> (out: image::DynamicImage)
    ensures
        image_width(out) == clamped(image_width(*img), x as nat, width as nat).1,
        image_height(out) == clamped(image_height(*img), y as nat, height as nat).1,
        forall|i: int, j: int|
            0 <= i < image_width(out) && 0 <= j < image_height(out) ==> #[trigger] image_pixels(
                out,
            )[(i, j)] == image_pixels(*img)[(
                clamped(image_width(*img), x as nat, width as nat).0 + i,
                clamped(image_height(*img), y as nat, height as nat).0 + j,
            )],
;

/// `DynamicImage::rotate90`: a new image, the old one turned a quarter
/// clockwise. Width and height change places, and the pixel that stood in
/// column `x` and row `y` stands in column `height - 1 - y` and row `x`.
pub assume_specification[ image::DynamicImage::rotate90 ](img: &image::DynamicImage) -> (out:
    image::DynamicImage)
    ensures
        image_width(out) == image_height(*img),
        image_height(out) == image_width(*img),
        forall|i: int, j: int|
            0 <= i < image_width(out) && 0 <= j < image_height(out) ==> #[trigger] image_pixels(
                out,
            )[(i, j)] == image_pixels(*img)[(j, image_height(*img) - 1 - i)],
;

} // verus!
