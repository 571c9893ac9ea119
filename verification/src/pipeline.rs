//! The decode/resize pipeline: raw file bytes in, a downscaled RGBA pixel
//! buffer out. Decoding and resampling are delegated to the `image` crate
//! behind trusted wrappers; the target dimensions — long edge bounded,
//! never upscaled — are computed and proved here. Whether bytes decode, and
//! to which dimensions, depends on the bytes alone, so the decoder's result
//! is carried by the name `decoded_dims` and the pipeline's contract is
//! exact in terms of it.

use vstd::prelude::*;
use crate::entry::LoadedImage;
use crate::geometry::{scaled_dimensions, spec_scaled_width, spec_scaled_height, MAX_DISPLAY_EDGE};

verus! {

#[verifier::external_type_specification]
#[verifier::external_body]
pub struct ExDynamicImage(image::DynamicImage);

/// What `image::load_from_memory` makes of the bytes: `None` when they do
/// not decode, else the decoded image's width and height. Decoding depends
/// on the bytes alone.
pub uninterp spec fn decoded_dims(bytes: Seq<u8>) -> Option<(int, int)>;

/// Relies on image::load_from_memory and DynamicImage::width/height: an
/// unreadable, corrupt or unsupported buffer gives an error, never a panic,
/// and both the outcome and the decoded dimensions are a function of the
/// bytes alone.
#[verifier::external_body]
fn decode_bytes(bytes: &[u8]) -> (r: Option<(image::DynamicImage, u32, u32)>)
    ensures
        (r is Some) == (decoded_dims(bytes@) is Some),
        r is Some ==> ({
            let d = decoded_dims(bytes@)->Some_0;
            r->Some_0.1 as int == d.0 && r->Some_0.2 as int == d.1
        }),
{
    match image::load_from_memory(bytes) {
        Ok(img) => {
            let w = img.width();
            let h = img.height();
            Some((img, w, h))
        },
        Err(_) => None,
    }
}

/// Relies on image::DynamicImage::resize_exact with the Lanczos3 filter: the
/// result has exactly the requested dimensions, and its RGBA form holds four
/// bytes per pixel.
#[verifier::external_body]
fn resize_to_rgba(img: &image::DynamicImage, nw: u32, nh: u32) -> (r: Vec<u8>)
    requires
        1 <= nw <= MAX_DISPLAY_EDGE,
        1 <= nh <= MAX_DISPLAY_EDGE,
    ensures
        r@.len() == 4 * nw * nh,
{
    img.resize_exact(nw, nh, image::imageops::FilterType::Lanczos3).to_rgba8().into_raw()
}

/// The inputs on which the pipeline yields an image: the bytes decode, to
/// dimensions that are positive and stay positive after downscaling.
pub open spec fn decode_succeeds(bytes: Seq<u8>) -> bool {
    match decoded_dims(bytes) {
        Some(d) => {
            &&& 1 <= d.0
            &&& 1 <= d.1
            &&& 1 <= spec_scaled_width(d.0, d.1)
            &&& 1 <= spec_scaled_height(d.0, d.1)
        },
        None => false,
    }
}

/// Decodes raw file bytes and scales the image down so that its longest edge
/// is at most `MAX_DISPLAY_EDGE`, never scaling up: an image is returned
/// exactly when `decode_succeeds` holds of the bytes, and then its
/// dimensions are the decoded ones downscaled, with four buffer bytes per
/// pixel.
pub fn decode_and_resize(bytes: &[u8]) -> (r: Option<LoadedImage>)
    ensures
        (r is Some) == decode_succeeds(bytes@),
        r is Some ==> ({
            let d = decoded_dims(bytes@)->Some_0;
            &&& r->Some_0.wf()
            &&& r->Some_0.width == spec_scaled_width(d.0, d.1)
            &&& r->Some_0.height == spec_scaled_height(d.0, d.1)
        }),
{
    let decoded = decode_bytes(bytes);
    match decoded {
        Some((img, w, h)) => {
            if w == 0 || h == 0 {
                return None;
            }
            let (nw, nh) = scaled_dimensions(w, h);
            if nw == 0 || nh == 0 {
                // an extreme aspect ratio scales one edge below a pixel
                return None;
            }
            let pixels = resize_to_rgba(&img, nw, nh);
            Some(LoadedImage { pixels, width: nw, height: nh })
        },
        None => None,
    }
}

} // verus!
