//! Colour balance: temperature and tint scale the channels, then vibrance and
//! saturation stretch each channel away from the pixel's luminance.
//!
//! All quantities are exact fractions. A channel after temperature and tint
//! is a multiple of `1 / 10^4`, its luminance a multiple of `1 / 10^8`.
use crate::bitmap::{Bitmap, BitmapView, Layout};
use crate::rounding::{lemma_to_byte_exact, limited, quantize, to_byte};
use vstd::prelude::*;

verus! {

/// The four settings, each kept within `-100..=100`.
pub struct Balance {
    pub temperature: int,
    pub tint: int,
    pub vibrance: int,
    pub saturation: int,
}

/// The settings as `apply` uses them.
pub open spec fn balance_of(temperature: int, tint: int, vibrance: int, saturation: int) -> Balance {
    Balance {
        temperature: limited(temperature, -100, 100),
        tint: limited(tint, -100, 100),
        vibrance: limited(vibrance, -100, 100),
        saturation: limited(saturation, -100, 100),
    }
}

/// Scale factor of channel `c` in units of `1 / 10^4`:
/// red `1 + (0.15 temp + 0.05 tint) / 100`, green `1 + (0.05 temp - 0.15 tint) / 100`,
/// blue `1 - (0.15 temp - 0.05 tint) / 100`.
pub open spec fn channel_scale(b: Balance, c: int) -> int {
    if c == 0 {
        10000 + 15 * b.temperature + 5 * b.tint
    } else if c == 1 {
        10000 + 5 * b.temperature - 15 * b.tint
    } else {
        10000 - 15 * b.temperature + 5 * b.tint
    }
}

/// A channel after temperature and tint, limited to `0..=255`, in units of
/// `1 / 10^4`.
pub open spec fn scaled_channel(v: int, scale: int) -> int {
    let s = v * scale;
    if s > 2550000 {
        2550000
    } else {
        s
    }
}

/// Rec. 709 luminance of three scaled channels, in units of `1 / 10^8`.
pub open spec fn luminance(r: int, g: int, b: int) -> int {
    2126 * r + 7152 * g + 722 * b
}

/// The largest of three.
pub open spec fn max3(a: int, b: int, c: int) -> int {
    if a >= b && a >= c {
        a
    } else if b >= c {
        b
    } else {
        c
    }
}

/// The smallest of three.
pub open spec fn min3(a: int, b: int, c: int) -> int {
    if a <= b && a <= c {
        a
    } else if b <= c {
        b
    } else {
        c
    }
}

/// Numerator of the chroma factor
/// `(1 + saturation) * (1 + vibrance * (1 - s))`, where `s = (max - min) / max`
/// is the pixel's own saturation (0 for black), so that `1 - s = min / max`.
pub open spec fn chroma_num(b: Balance, max: int, min: int) -> int {
    if max > 0 {
        (100 + b.saturation) * (100 * max + b.vibrance * min)
    } else {
        (100 + b.saturation) * (100 + b.vibrance)
    }
}

/// Denominator of the chroma factor.
pub open spec fn chroma_den(max: int) -> int {
    if max > 0 {
        10000 * max
    } else {
        10000
    }
}

/// Numerator of `lum + factor * (channel - lum)` over
/// `10^8 * chroma_den`, for the scaled channel `v`.
pub open spec fn pivot_num(lum: int, v: int, fnum: int, fden: int) -> int {
    lum * fden + fnum * (10000 * v - lum)
}

/// Channel `c` of the balanced pixel `(r, g, b)`.
pub open spec fn balanced_channel(b: Balance, r: int, g: int, bl: int, c: int) -> int {
    let sr = scaled_channel(r, channel_scale(b, 0));
    let sg = scaled_channel(g, channel_scale(b, 1));
    let sb = scaled_channel(bl, channel_scale(b, 2));
    let v = if c == 0 {
        sr
    } else if c == 1 {
        sg
    } else {
        sb
    };
    let lum = luminance(sr, sg, sb);
    let max = max3(sr, sg, sb);
    let min = min3(sr, sg, sb);
    to_byte(
        pivot_num(lum, v, chroma_num(b, max, min), chroma_den(max)),
        100000000 * chroma_den(max),
    )
}

/// Sample `k` of the balanced image over the RGB samples `rgb`.
pub open spec fn balanced_sample(b: Balance, rgb: Seq<u8>, k: int) -> int {
    let p = k / 3;
    balanced_channel(b, rgb[3 * p] as int, rgb[3 * p + 1] as int, rgb[3 * p + 2] as int, k % 3)
}

/// The bitmap that `apply` returns.
pub open spec fn balanced(img: BitmapView, b: Balance) -> BitmapView {
    BitmapView {
        width: img.width,
        height: img.height,
        layout: Layout::Rgb,
        data: Seq::new(img.rgb_data().len(), |k: int| balanced_sample(b, img.rgb_data(), k) as u8),
    }
}

/// With all four settings at zero every channel keeps its value.
pub proof fn lemma_neutral_balance_keeps_channel(r: int, g: int, bl: int, c: int)
    requires
        0 <= r <= 255,
        0 <= g <= 255,
        0 <= bl <= 255,
        0 <= c < 3,
    ensures
        balanced_channel(balance_of(0, 0, 0, 0), r, g, bl, c) == if c == 0 {
            r
        } else if c == 1 {
            g
        } else {
            bl
        },
{
    let b = balance_of(0, 0, 0, 0);
    let sr = scaled_channel(r, channel_scale(b, 0));
    let sg = scaled_channel(g, channel_scale(b, 1));
    let sb = scaled_channel(bl, channel_scale(b, 2));
    assert(channel_scale(b, 0) == 10000 && channel_scale(b, 1) == 10000 && channel_scale(b, 2)
        == 10000);
    assert(sr == 10000 * r && sg == 10000 * g && sb == 10000 * bl) by (nonlinear_arith)
        requires
            sr == scaled_channel(r, 10000),
            sg == scaled_channel(g, 10000),
            sb == scaled_channel(bl, 10000),
            0 <= r <= 255,
            0 <= g <= 255,
            0 <= bl <= 255,
    ;
    let orig = if c == 0 {
        r
    } else if c == 1 {
        g
    } else {
        bl
    };
    let v = 10000 * orig;
    let lum = luminance(sr, sg, sb);
    let max = max3(sr, sg, sb);
    let min = min3(sr, sg, sb);
    let fden = chroma_den(max);
    let fnum = chroma_num(b, max, min);
    assert(b.saturation == 0 && b.vibrance == 0);
    assert(fnum == fden) by (nonlinear_arith)
        requires
            fnum == chroma_num(b, max, min),
            fden == chroma_den(max),
            b.saturation == 0,
            b.vibrance == 0,
    ;
    assert(pivot_num(lum, v, fnum, fden) == orig * (100000000 * fden)) by (nonlinear_arith)
        requires
            fnum == fden,
            v == 10000 * orig,
    ;
    lemma_to_byte_exact(orig, 100000000 * fden);
}

/// With all four settings at zero `apply` returns the pixels it was given.
pub proof fn lemma_neutral_balance_keeps_pixels(img: BitmapView)
    requires
        img.well_formed(),
    ensures
        balanced(img, balance_of(0, 0, 0, 0)).data == img.rgb_data(),
{
    let rgb = img.rgb_data();
    let out = balanced(img, balance_of(0, 0, 0, 0)).data;
    assert forall|k: int| 0 <= k < out.len() implies out[k] == rgb[k] by {
        let p = k / 3;
        lemma_neutral_balance_keeps_channel(
            rgb[3 * p] as int,
            rgb[3 * p + 1] as int,
            rgb[3 * p + 2] as int,
            k % 3,
        );
    }
    assert(out =~= rgb);
}

fn limit(v: i32, lo: i32, hi: i32) -> (r: i32)
    requires
        lo <= hi,
    ensures
        r == limited(v as int, lo as int, hi as int),
{
    if v < lo {
        lo
    } else if v > hi {
        hi
    } else {
        v
    }
}

fn scale_channel(v: u8, scale: i128) -> (r: i128)
    requires
        8000 <= scale <= 12000,
    ensures
        r == scaled_channel(v as int, scale as int),
        0 <= r <= 2550000,
{
    assert(0 <= v * scale <= 255 * 12000) by (nonlinear_arith)
        requires
            0 <= v <= 255,
            8000 <= scale <= 12000,
    ;
    let s: i128 = (v as i128) * scale;
    if s > 2550000 {
        2550000
    } else {
        s
    }
}

fn largest(a: i128, b: i128, c: i128) -> (r: i128)
    ensures
        r == max3(a as int, b as int, c as int),
{
    if a >= b && a >= c {
        a
    } else if b >= c {
        b
    } else {
        c
    }
}

fn smallest(a: i128, b: i128, c: i128) -> (r: i128)
    ensures
        r == min3(a as int, b as int, c as int),
{
    if a <= b && a <= c {
        a
    } else if b <= c {
        b
    } else {
        c
    }
}

/// One channel pulled away from the luminance by the chroma factor.
fn pivot(lum: i128, v: i128, fnum: i128, fden: i128) -> (r: u8)
    requires
        0 <= lum <= 25500000000,
        0 <= v <= 2550000,
        0 <= fnum <= 200 * 200 * 2550000,
        0 < fden <= 25500000000,
    ensures
        r as int == to_byte(
            pivot_num(lum as int, v as int, fnum as int, fden as int),
            100000000 * fden,
        ),
{
    assert(0 <= lum * fden <= 25500000000 * 25500000000) by (nonlinear_arith)
        requires
            0 <= lum <= 25500000000,
            0 < fden <= 25500000000,
    ;
    let spread: i128 = 10000 * v - lum;
    assert(-(102000000000 * 25500000000) <= fnum * spread <= 102000000000 * 25500000000)
        by (nonlinear_arith)
        requires
            0 <= fnum <= 102000000000,
            -25500000000 <= spread <= 25500000000,
    ;
    quantize(lum * fden + fnum * spread, 100000000 * fden)
}

/// Temperature, tint, vibrance and saturation applied to every pixel.
pub fn apply(img: Bitmap, temperature: i32, tint: i32, vibrance: i32, saturation: i32) -> (out:
    Bitmap)
    ensures
        out@ == balanced(
            img@,
            balance_of(temperature as int, tint as int, vibrance as int, saturation as int),
        ),
        out@.well_formed(),
{
    let t: i128 = limit(temperature, -100, 100) as i128;
    let n: i128 = limit(tint, -100, 100) as i128;
    let vib: i128 = limit(vibrance, -100, 100) as i128;
    let sat: i128 = limit(saturation, -100, 100) as i128;
    let ghost b = balance_of(temperature as int, tint as int, vibrance as int, saturation as int);
    let r_scale: i128 = 10000 + 15 * t + 5 * n;
    let g_scale: i128 = 10000 + 5 * t - 15 * n;
    let b_scale: i128 = 10000 - 15 * t + 5 * n;
    let rgb: Vec<u8> = img.to_rgb8();
    let width: u32 = img.width();
    let height: u32 = img.height();
    let count: usize = img.pixel_count();
    let total: usize = rgb.len();
    let mut data: Vec<u8> = Vec::new();
    let mut p: usize = 0;
    while p < count
        invariant
            p <= count,
            total == 3 * count,
            rgb@.len() == total,
            data@.len() == 3 * p,
            b == balance_of(temperature as int, tint as int, vibrance as int, saturation as int),
            t == b.temperature,
            n == b.tint,
            vib == b.vibrance,
            sat == b.saturation,
            r_scale == channel_scale(b, 0),
            g_scale == channel_scale(b, 1),
            b_scale == channel_scale(b, 2),
            forall|k: int| 0 <= k < 3 * p ==> data@[k] as int == balanced_sample(b, rgb@, k),
        decreases count - p,
    {
        let sr: i128 = scale_channel(rgb[3 * p], r_scale);
        let sg: i128 = scale_channel(rgb[3 * p + 1], g_scale);
        let sb: i128 = scale_channel(rgb[3 * p + 2], b_scale);
        let lum: i128 = 2126 * sr + 7152 * sg + 722 * sb;
        let max: i128 = largest(sr, sg, sb);
        let min: i128 = smallest(sr, sg, sb);
        let fnum: i128;
        let fden: i128;
        if max > 0 {
            assert(-100 * min <= vib * min <= 100 * min) by (nonlinear_arith)
                requires
                    -100 <= vib <= 100,
                    0 <= min <= 2550000,
            ;
            assert(0 <= (100 + sat) * (100 * max + vib * min) <= 200 * (200 * 2550000))
                by (nonlinear_arith)
                requires
                    0 <= 100 + sat <= 200,
                    0 <= 100 * max + vib * min <= 200 * 2550000,
            ;
            fnum = (100 + sat) * (100 * max + vib * min);
            fden = 10000 * max;
        } else {
            assert(0 <= (100 + sat) * (100 + vib) <= 200 * 200) by (nonlinear_arith)
                requires
                    0 <= 100 + sat <= 200,
                    0 <= 100 + vib <= 200,
            ;
            fnum = (100 + sat) * (100 + vib);
            fden = 10000;
        }
        let o0: u8 = pivot(lum, sr, fnum, fden);
        let o1: u8 = pivot(lum, sg, fnum, fden);
        let o2: u8 = pivot(lum, sb, fnum, fden);
        data.push(o0);
        data.push(o1);
        data.push(o2);
        proof {
            let q = p as int;
            assert forall|k: int| 3 * q <= k < 3 * q + 3 implies data@[k] as int
                == balanced_sample(b, rgb@, k) by {
                assert(k / 3 == q);
            }
        }
        p = p + 1;
    }
    proof {
        assert(data@ =~= balanced(img@, b).data);
    }
    Bitmap::from_rgb8(width, height, data)
}

} // verus!
