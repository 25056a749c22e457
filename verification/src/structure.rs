//! Structure: local contrast is raised or lowered by moving every channel
//! away from, or towards, a blurred copy of the image.
//!
//! The blur itself is not done here. `blur_radius` says how wide it is to be,
//! and `apply` takes the blurred copy beside the image.
use crate::bitmap::{Bitmap, BitmapView, Layout};
use crate::rounding::{lemma_to_byte_exact, quantize, to_byte};
use vstd::prelude::*;

verus! {

/// Denominator of the blur radius.
pub const RADIUS_DEN: u32 = 54;

/// Numerator of the blur radius over `RADIUS_DEN`: the radius is 20 pixels
/// for an image whose shorter side is 1080 pixels, in proportion for others,
/// and never below 4 pixels.
pub open spec fn radius_num(width: int, height: int) -> int {
    let shorter = if width <= height {
        width
    } else {
        height
    };
    if shorter < 216 {
        216
    } else {
        shorter
    }
}

/// The radius of the blur for an image of the given size, as numerator and
/// denominator.
pub fn blur_radius(width: u32, height: u32) -> (r: (u32, u32))
    ensures
        r.0 == radius_num(width as int, height as int),
        r.1 == RADIUS_DEN,
{
    let shorter: u32 = if width <= height {
        width
    } else {
        height
    };
    if shorter < 216 {
        (216, RADIUS_DEN)
    } else {
        (shorter, RADIUS_DEN)
    }
}

/// A channel moved away from its blurred value:
/// `v + amount / 100 * (v - blurred)`, as the nearest byte.
pub open spec fn sharpened(v: int, blurred: int, amount: int) -> int {
    to_byte(100 * v + amount * (v - blurred), 100)
}

/// Sample `k` of the result over the RGBA samples of image and blurred copy:
/// colour channels are sharpened, alpha is kept.
pub open spec fn structured_sample(rgba: Seq<u8>, blurred: Seq<u8>, amount: int, k: int) -> int {
    if k % 4 == 3 {
        rgba[k] as int
    } else {
        sharpened(rgba[k] as int, blurred[k] as int, amount)
    }
}

/// The bitmap that `apply` returns where the amount is not zero.
pub open spec fn structured(img: BitmapView, blurred: BitmapView, amount: int) -> BitmapView {
    BitmapView {
        width: img.width,
        height: img.height,
        layout: Layout::Rgba,
        data: Seq::new(
            img.rgba_data().len(),
            |k: int| structured_sample(img.rgba_data(), blurred.rgba_data(), amount, k) as u8,
        ),
    }
}

/// A channel that the blur left alone is left alone.
pub proof fn lemma_flat_channel_is_kept(v: int, amount: int)
    requires
        0 <= v <= 255,
    ensures
        sharpened(v, v, amount) == v,
{
    assert(amount * (v - v) == 0) by (nonlinear_arith);
    assert(100 * v == v * 100);
    lemma_to_byte_exact(v, 100);
}

/// The image with its structure changed by `amount`, given its blurred copy.
/// An amount of zero returns the image as it is; otherwise the copy has to
/// have the size of the image.
pub fn apply(img: Bitmap, blurred: &Bitmap, amount: i32) -> (out: Option<Bitmap>)
    ensures
        out.is_some() <==> amount == 0 || (blurred@.width == img@.width && blurred@.height
            == img@.height),
        out matches Some(b) ==> b@ == if amount == 0 {
            img@
        } else {
            structured(img@, blurred@, amount as int)
        },
{
    if amount == 0 {
        return Some(img);
    }
    let width: u32 = img.width();
    let height: u32 = img.height();
    if blurred.width() != width || blurred.height() != height {
        return None;
    }
    let rgba: Vec<u8> = img.to_rgba8();
    let soft: Vec<u8> = blurred.to_rgba8();
    let total: usize = rgba.len();
    let mut data: Vec<u8> = Vec::new();
    let mut k: usize = 0;
    while k < total
        invariant
            k <= total,
            rgba@.len() == total,
            soft@.len() == total,
            data@.len() == k,
            forall|i: int|
                0 <= i < k ==> data@[i] as int == structured_sample(rgba@, soft@, amount as int, i),
        decreases total - k,
    {
        let v: u8 = rgba[k];
        if k % 4 == 3 {
            data.push(v);
        } else {
            let spread: i128 = (v as i128) - (soft[k] as i128);
            assert(-255 * 0x8000_0000 <= amount * spread <= 255 * 0x8000_0000) by (nonlinear_arith)
                requires
                    -0x8000_0000 <= amount <= 0x8000_0000,
                    -255 <= spread <= 255,
            ;
            data.push(quantize(100 * (v as i128) + (amount as i128) * spread, 100));
        }
        k = k + 1;
    }
    proof {
        assert(data@ =~= structured(img@, blurred@, amount as int).data);
    }
    Some(Bitmap::from_rgba8(width, height, data))
}

} // verus!
