//! One colour channel of an image as a grey image.
use crate::bitmap::{Bitmap, BitmapView, Layout};
use vstd::prelude::*;

verus! {

/// The channel to take.
#[derive(Clone, Copy, PartialEq, Eq, Debug, Structural)]
pub enum ChannelColor {
    Red,
    Green,
    Blue,
}

impl ChannelColor {
    /// Position of the channel within an RGB pixel.
    pub open spec fn position(self) -> int {
        match self {
            ChannelColor::Red => 0,
            ChannelColor::Green => 1,
            ChannelColor::Blue => 2,
        }
    }

    /// Position of the channel within an RGB pixel.
    pub fn index(self) -> (r: usize)
        ensures
            r == self.position(),
    {
        match self {
            ChannelColor::Red => 0,
            ChannelColor::Green => 1,
            ChannelColor::Blue => 2,
        }
    }
}

/// The bitmap that `apply` returns: a grey bitmap of the same size whose
/// sample at each pixel is the chosen channel of that pixel.
pub open spec fn extracted(img: BitmapView, color: ChannelColor) -> BitmapView {
    BitmapView {
        width: img.width,
        height: img.height,
        layout: Layout::Luma,
        data: Seq::new(img.pixels() as nat, |p: int| img.rgb_data()[3 * p + color.position()]),
    }
}

/// The chosen channel of every pixel, as a grey image.
pub fn apply(img: Bitmap, color: ChannelColor) -> (out: Bitmap)
    ensures
        out@ == extracted(img@, color),
        out@.well_formed(),
{
    let rgb: Vec<u8> = img.to_rgb8();
    let width: u32 = img.width();
    let height: u32 = img.height();
    let count: usize = img.pixel_count();
    let total: usize = rgb.len();
    let idx: usize = color.index();
    let mut data: Vec<u8> = Vec::new();
    let mut p: usize = 0;
    while p < count
        invariant
            p <= count,
            total == 3 * count,
            rgb@.len() == total,
            idx == color.position(),
            data@.len() == p,
            forall|k: int| 0 <= k < p ==> data@[k] == rgb@[3 * k + idx],
        decreases count - p,
    {
        data.push(rgb[3 * p + idx]);
        p = p + 1;
    }
    proof {
        assert(data@ =~= extracted(img@, color).data);
    }
    Bitmap::from_luma8(width, height, data)
}

} // verus!
