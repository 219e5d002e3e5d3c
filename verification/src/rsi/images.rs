//! Atlas images. Decoding bytes into an image and cutting rectangles out of
//! it are the outside image library's work; this crate's logic only ever
//! reads an image's pixel dimensions, which these wrappers expose.

use vstd::prelude::*;

use image::DynamicImage;
use image::GenericImageView;

verus! {

#[verifier::external_type_specification]
#[verifier::external_body]
pub struct ExDynamicImage(DynamicImage);

/// What an image of the outside library holds that this crate's logic reads:
/// its pixel dimensions, width before height.
pub uninterp spec fn image_dims(img: DynamicImage) -> (u32, u32);

/// What decoding a byte sequence as an image yields: `None` when the bytes do
/// not decode, otherwise the decoded image's dimensions. Decoding is a
/// function of the bytes alone.
pub uninterp spec fn decoded_dims(bytes: Seq<u8>) -> Option<(u32, u32)>;

/// Relies on `image::load_from_memory`: it decodes the bytes, failing exactly
/// on bytes that are not a readable image, and the result depends on the
/// bytes alone.
#[verifier::external_body]
pub fn decode_image(bytes: &Vec<u8>) -> (r: Result<DynamicImage, String>)
    ensures
        r is Ok <==> decoded_dims(bytes@) is Some,
        r matches Ok(img) ==> Some(image_dims(img)) == decoded_dims(bytes@),
{
    match image::load_from_memory(bytes.as_slice()) {
        Ok(img) => Ok(img),
        Err(e) => Err(format!("{:?}", e)),
    }
}

/// Relies on `image::GenericImageView::dimensions` for `DynamicImage`: it
/// returns the image's width and height.
#[verifier::external_body]
pub fn image_dimensions(img: &DynamicImage) -> (r: (u32, u32))
    ensures
        r == image_dims(*img),
{
    img.dimensions()
}

/// The dimensions of a cut-out that the image library delimits by the
/// bounding rectangle: the rectangle is clamped to the image, so a rectangle
/// reaching past the image's edge comes back smaller than asked for.
pub open spec fn spec_crop_dims(dims: (u32, u32), x: u32, y: u32, w: u32, h: u32) -> (
    u32,
    u32,
) {
    let cx = if x < dims.0 {
        x
    } else {
        dims.0
    };
    let cy = if y < dims.1 {
        y
    } else {
        dims.1
    };
    let cw = if w < dims.0 - cx {
        w
    } else {
        (dims.0 - cx) as u32
    };
    let ch = if h < dims.1 - cy {
        h
    } else {
        (dims.1 - cy) as u32
    };
    (cw, ch)
}

/// Relies on `image::DynamicImage::crop_imm`: it returns a cut-out of the
/// image delimited by the bounding rectangle, clamping the rectangle to the
/// image's bounds.
#[verifier::external_body]
pub fn crop_image(img: &DynamicImage, x: u32, y: u32, w: u32, h: u32) -> (r: DynamicImage)
    ensures
        image_dims(r) == spec_crop_dims(image_dims(*img), x, y, w, h),
{
    img.crop_imm(x, y, w, h)
}

} // verus!
