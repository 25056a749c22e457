//! Resize: an image whose longer side exceeds the wanted size is scaled down
//! so that its longer side has that size; a smaller image is left as it is.
use crate::bitmap::{Bitmap, Layout};
use crate::rounding::round_half_up;
use vstd::arithmetic::div_mod::{lemma_div_is_ordered, lemma_fundamental_div_mod_converse};
use vstd::prelude::*;

verus! {

/// The longer side of an image.
pub open spec fn longest_side(width: int, height: int) -> int {
    if width >= height {
        width
    } else {
        height
    }
}

/// A side scaled by `output_size / longest`, to the nearest pixel.
pub open spec fn scaled_side(side: int, output_size: int, longest: int) -> int {
    round_half_up(side * output_size, longest)
}

/// A scaled side is no longer than the wanted size.
pub proof fn lemma_scaled_side_fits(side: int, output_size: int, longest: int)
    requires
        0 <= side <= longest,
        0 <= output_size,
        0 < longest,
    ensures
        0 <= scaled_side(side, output_size, longest) <= output_size,
{
    let n = side * output_size;
    assert(0 <= n <= longest * output_size) by (nonlinear_arith)
        requires
            n == side * output_size,
            0 <= side <= longest,
            0 <= output_size,
    ;
    lemma_div_is_ordered(0, 2 * n + longest, 2 * longest);
    lemma_div_is_ordered(2 * n + longest, 2 * (longest * output_size) + longest, 2 * longest);
    assert(2 * (longest * output_size) + longest == output_size * (2 * longest) + longest)
        by (nonlinear_arith);
    lemma_fundamental_div_mod_converse(
        2 * (longest * output_size) + longest,
        2 * longest,
        output_size,
        longest,
    );
    assert(0int / (2 * longest) == 0) by (nonlinear_arith)
        requires
            longest > 0,
    ;
}

/// The size that an image is to be brought to, or nothing where it is small
/// enough already.
pub fn target_size(width: u32, height: u32, output_size: u32) -> (r: Option<(u32, u32)>)
    ensures
        r.is_none() <==> longest_side(width as int, height as int) <= output_size,
        r matches Some(size) ==> size.0 == scaled_side(
            width as int,
            output_size as int,
            longest_side(width as int, height as int),
        ) && size.1 == scaled_side(
            height as int,
            output_size as int,
            longest_side(width as int, height as int),
        ),
{
    let longest: u32 = if width >= height {
        width
    } else {
        height
    };
    if longest <= output_size {
        None
    } else {
        Some((scale_side(width, output_size, longest), scale_side(height, output_size, longest)))
    }
}

fn scale_side(side: u32, output_size: u32, longest: u32) -> (r: u32)
    requires
        side <= longest,
        0 < longest,
    ensures
        r == scaled_side(side as int, output_size as int, longest as int),
{
    proof {
        lemma_scaled_side_fits(side as int, output_size as int, longest as int);
        assert(side * output_size <= 0xffff_ffff * 0xffff_ffff) by (nonlinear_arith)
            requires
                0 <= side <= 0xffff_ffff,
                0 <= output_size <= 0xffff_ffff,
        ;
    }
    let n: u128 = (side as u128) * (output_size as u128);
    ((2 * n + (longest as u128)) / (2 * (longest as u128))) as u32
}

/// Resamples an image to the given size with the Lanczos filter of window 3,
/// by `image::DynamicImage::resize_exact`. The result has the size asked for
/// and the layout of the image. Its samples come out of floating-point
/// arithmetic and nothing is said of them.
#[verifier::external_body]
fn resample(img: &Bitmap, width: u32, height: u32) -> (out: Bitmap)
    ensures
        out@.width == width,
        out@.height == height,
        out@.layout == img@.layout,
        out@.well_formed(),
{
    let data = img.data().clone();
    let source = match img.layout() {
        Layout::Luma => image::GrayImage::from_raw(img.width(), img.height(), data).map(image::DynamicImage::ImageLuma8),
        Layout::Rgb => image::RgbImage::from_raw(img.width(), img.height(), data).map(image::DynamicImage::ImageRgb8),
        Layout::Rgba => image::RgbaImage::from_raw(img.width(), img.height(), data).map(image::DynamicImage::ImageRgba8),
    };
    let resized = source.unwrap().resize_exact(width, height, image::imageops::FilterType::Lanczos3);
    Bitmap::new(width, height, img.layout(), resized.into_bytes()).unwrap()
}

/// The image with its longer side brought down to `output_size`. An image
/// that is small enough comes back unchanged; of a larger one the result has
/// the scaled size and the same layout.
pub fn apply(img: Bitmap, output_size: u32) -> (out: Bitmap)
    ensures
        longest_side(img@.width, img@.height) <= output_size ==> out@ == img@,
        longest_side(img@.width, img@.height) > output_size ==> {
            &&& out@.width == scaled_side(
                img@.width,
                output_size as int,
                longest_side(img@.width, img@.height),
            )
            &&& out@.height == scaled_side(
                img@.height,
                output_size as int,
                longest_side(img@.width, img@.height),
            )
            &&& out@.layout == img@.layout
            &&& out@.well_formed()
        },
{
    match target_size(img.width(), img.height(), output_size) {
        None => img,
        Some(size) => resample(&img, size.0, size.1),
    }
}

} // verus!
