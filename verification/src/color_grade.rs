//! Colour grading: shadows, midtones and highlights are tinted and lightened
//! independently, each band weighted by the pixel's luminance.
//!
//! All quantities are exact fractions. The luminance of a pixel is a multiple
//! of `1 / 1275000`; the weight of a band is a multiple of `1 / 637500^3`; the
//! tint direction of a hue is a multiple of `1 / 60`.
use crate::bigint::BigInt;
use crate::bitmap::{Bitmap, BitmapView, Layout};
use crate::rounding::{
    lemma_product_bound, lemma_to_byte_exact, limited, quantize_big, to_byte,
};
use crate::smoothblend::{
    blend_den, blend_num, lemma_blend_ends, lemma_blend_range, smoothblend,
};
use vstd::prelude::*;

verus! {

/// Half of the luminance scale: the luminance 0.5 in units of `1 / 1275000`.
pub const HALF_LUMA: i32 = 637500;

/// The position of `hue` within its pair of sectors, folded to a rise from 0
/// to 60 and back.
pub open spec fn hue_rise(hue: int) -> int {
    let f = (hue % 360) % 120;
    if f >= 60 {
        120 - f
    } else {
        f
    }
}

/// Channel `c` of the fully saturated colour of `hue`, in units of `1 / 60`:
/// the colour wheel in six sectors of 60 degrees.
pub open spec fn hue_level(hue: int, c: int) -> int {
    let sector = (hue % 360) / 60;
    let x = hue_rise(hue);
    if sector == 0 {
        if c == 0 {
            60
        } else if c == 1 {
            x
        } else {
            0
        }
    } else if sector == 1 {
        if c == 0 {
            x
        } else if c == 1 {
            60
        } else {
            0
        }
    } else if sector == 2 {
        if c == 0 {
            0
        } else if c == 1 {
            60
        } else {
            x
        }
    } else if sector == 3 {
        if c == 0 {
            0
        } else if c == 1 {
            x
        } else {
            60
        }
    } else if sector == 4 {
        if c == 0 {
            x
        } else if c == 1 {
            0
        } else {
            60
        }
    } else {
        if c == 0 {
            60
        } else if c == 1 {
            0
        } else {
            x
        }
    }
}

/// Tint direction of `hue` on channel `c`, from -1 to 1 in units of `1 / 60`.
pub open spec fn tint_direction(hue: int, c: int) -> int {
    2 * hue_level(hue, c) - 60
}

/// The settings of one band.
pub struct Band {
    pub hue: int,
    pub saturation: int,
    pub luminance: int,
}

/// The settings of a band as `apply` uses them: saturation at most 100,
/// luminance shift within `-100..=100`.
pub open spec fn band_of(hue: int, saturation: int, luminance: int) -> Band {
    Band {
        hue,
        saturation: if saturation > 100 {
            100
        } else {
            saturation
        },
        luminance: limited(luminance, -100, 100),
    }
}

/// The three bands: shadows, midtones, highlights.
pub struct Grade {
    pub shadows: Band,
    pub midtones: Band,
    pub highlights: Band,
}

impl Grade {
    /// Band `i`: 0 the shadows, 1 the midtones, 2 the highlights.
    pub open spec fn band(self, i: int) -> Band {
        if i == 0 {
            self.shadows
        } else if i == 1 {
            self.midtones
        } else {
            self.highlights
        }
    }
}

/// Rec. 709 luminance of a pixel, from 0 to 1 in units of `1 / 1275000`.
pub open spec fn luma(r: int, g: int, b: int) -> int {
    1063 * r + 3576 * g + 361 * b
}

/// Denominator of the band weights.
pub open spec fn weight_den() -> int {
    blend_den(0, HALF_LUMA as int)
}

/// Weight of band `i` at the luminance `l`: the shadows fade out over the
/// lower half, the highlights fade in over the upper half, the midtones take
/// what is left.
pub open spec fn band_weight(i: int, l: int) -> int {
    let low = blend_num(0, HALF_LUMA as int, l);
    let high = blend_num(HALF_LUMA as int, 2 * HALF_LUMA, l);
    if i == 0 {
        weight_den() - low
    } else if i == 1 {
        low - high
    } else {
        high
    }
}

/// Share of band `i` in the tint of channel `c`, in units of
/// `1 / (6000 * weight_den())`.
pub open spec fn band_tint(g: Grade, i: int, c: int, l: int) -> int {
    tint_direction(g.band(i).hue, c) * band_weight(i, l) * g.band(i).saturation
}

/// The tint added to channel `c`: the sum over the bands of
/// `direction * weight * saturation / 100 * 80`, in units of
/// `1 / (6000 * weight_den())`.
pub open spec fn tint_num(g: Grade, c: int, l: int) -> int {
    80 * (band_tint(g, 0, c, l) + band_tint(g, 1, c, l) + band_tint(g, 2, c, l))
}

/// The factor `1 + luminance / 100 * weight * 0.5` of band `i`, in units of
/// `1 / (200 * weight_den())`.
pub open spec fn band_gain(g: Grade, i: int, l: int) -> int {
    200 * weight_den() + g.band(i).luminance * band_weight(i, l)
}

/// Numerator of `(channel + tint) * gain`, the gain being the product of the
/// three band gains.
pub open spec fn graded_num(g: Grade, v: int, c: int, l: int) -> int {
    (v * (6000 * weight_den()) + tint_num(g, c, l)) * band_gain(g, 0, l) * band_gain(g, 1, l)
        * band_gain(g, 2, l)
}

/// Denominator that goes with `graded_num`.
pub open spec fn graded_den() -> int {
    (6000 * weight_den()) * (200 * weight_den()) * (200 * weight_den()) * (200 * weight_den())
}

/// Channel `c` of the graded pixel `(r, g, b)`.
pub open spec fn graded_channel(g: Grade, r: int, gr: int, b: int, c: int) -> int {
    let v = if c == 0 {
        r
    } else if c == 1 {
        gr
    } else {
        b
    };
    to_byte(graded_num(g, v, c, luma(r, gr, b)), graded_den())
}

/// Sample `k` of the graded image over the RGB samples `rgb`.
pub open spec fn graded_sample(g: Grade, rgb: Seq<u8>, k: int) -> int {
    let p = k / 3;
    graded_channel(g, rgb[3 * p] as int, rgb[3 * p + 1] as int, rgb[3 * p + 2] as int, k % 3)
}

/// The bitmap that `apply` returns.
pub open spec fn graded(img: BitmapView, g: Grade) -> BitmapView {
    BitmapView {
        width: img.width,
        height: img.height,
        layout: Layout::Rgb,
        data: Seq::new(img.rgb_data().len(), |k: int| graded_sample(g, img.rgb_data(), k) as u8),
    }
}

/// The three weights are fractions between 0 and 1 that add up to 1; in
/// particular the weight of the midtones is never negative.
pub proof fn lemma_band_weights(l: int)
    ensures
        weight_den() > 0,
        forall|i: int| 0 <= i < 3 ==> 0 <= #[trigger] band_weight(i, l) <= weight_den(),
        band_weight(0, l) + band_weight(1, l) + band_weight(2, l) == weight_den(),
{
    let h = HALF_LUMA as int;
    lemma_blend_range(0, h, l);
    lemma_blend_range(h, 2 * h, l);
    lemma_blend_ends(0, h, l);
    lemma_blend_ends(h, 2 * h, l);
    assert(blend_den(h, 2 * h) == blend_den(0, h));
}

/// The grade in which no band has saturation or luminance shift.
pub open spec fn is_neutral(g: Grade) -> bool {
    forall|i: int| 0 <= i < 3 ==> (#[trigger] g.band(i)).saturation == 0 && g.band(i).luminance == 0
}

/// Bands without saturation and luminance shift leave every channel as it
/// is, whatever their hues.
pub proof fn lemma_neutral_grade_keeps_channel(g: Grade, r: int, gr: int, b: int, c: int)
    requires
        is_neutral(g),
        0 <= r <= 255,
        0 <= gr <= 255,
        0 <= b <= 255,
        0 <= c < 3,
    ensures
        graded_channel(g, r, gr, b, c) == if c == 0 {
            r
        } else if c == 1 {
            gr
        } else {
            b
        },
{
    let v = if c == 0 {
        r
    } else if c == 1 {
        gr
    } else {
        b
    };
    let l = luma(r, gr, b);
    let q = weight_den();
    lemma_band_weights(l);
    assert(g.band(0).saturation == 0 && g.band(0).luminance == 0);
    assert(g.band(1).saturation == 0 && g.band(1).luminance == 0);
    assert(g.band(2).saturation == 0 && g.band(2).luminance == 0);
    assert forall|i: int| 0 <= i < 3 implies band_tint(g, i, c, l) == 0 && band_gain(g, i, l) == 200
        * q by {
        let d = tint_direction(g.band(i).hue, c);
        let w = band_weight(i, l);
        assert(d * w * 0 == 0) by (nonlinear_arith);
        assert(0 * w == 0) by (nonlinear_arith);
    }
    let a = 6000 * q;
    let f = 200 * q;
    assert(graded_num(g, v, c, l) == (v * a + 0) * f * f * f);
    assert((v * a + 0) * f * f * f == v * (a * f * f * f)) by (nonlinear_arith);
    assert(a * f * f * f > 0) by (nonlinear_arith)
        requires
            a > 0,
            f > 0,
    ;
    lemma_to_byte_exact(v, graded_den());
}

/// Bands without saturation and luminance shift leave the pixels as they
/// are.
pub proof fn lemma_neutral_grade_keeps_pixels(img: BitmapView, g: Grade)
    requires
        img.well_formed(),
        is_neutral(g),
    ensures
        graded(img, g).data == img.rgb_data(),
{
    let rgb = img.rgb_data();
    let out = graded(img, g).data;
    assert forall|k: int| 0 <= k < out.len() implies out[k] == rgb[k] by {
        let p = k / 3;
        lemma_neutral_grade_keeps_channel(
            g,
            rgb[3 * p] as int,
            rgb[3 * p + 1] as int,
            rgb[3 * p + 2] as int,
            k % 3,
        );
    }
    assert(out =~= rgb);
}

/// The fully saturated colour of `hue`, each channel in units of `1 / 60`.
pub fn hue_to_rgb(hue: u32) -> (rgb: (u8, u8, u8))
    ensures
        rgb.0 == hue_level(hue as int, 0),
        rgb.1 == hue_level(hue as int, 1),
        rgb.2 == hue_level(hue as int, 2),
        rgb.0 <= 60,
        rgb.1 <= 60,
        rgb.2 <= 60,
{
    let m: u32 = hue % 360;
    let sector: u32 = m / 60;
    let f: u32 = m % 120;
    let x: u8 = if f >= 60 {
        (120 - f) as u8
    } else {
        f as u8
    };
    if sector == 0 {
        (60, x, 0)
    } else if sector == 1 {
        (x, 60, 0)
    } else if sector == 2 {
        (0, 60, x)
    } else if sector == 3 {
        (0, x, 60)
    } else if sector == 4 {
        (x, 0, 60)
    } else {
        (60, 0, x)
    }
}

/// One band as the pixel loop reads it.
struct BandSetting {
    direction: [i128; 3],
    saturation: i128,
    luminance: i128,
}

impl BandSetting {
    spec fn stands_for(self, b: Band) -> bool {
        &&& forall|c: int|
            0 <= c < 3 ==> self.direction[c] == tint_direction(b.hue, c) && -60
                <= #[trigger] self.direction[c] <= 60
        &&& self.saturation == b.saturation
        &&& self.luminance == b.luminance
        &&& 0 <= b.saturation <= 100
        &&& -100 <= b.luminance <= 100
    }
}

fn band_setting(hue: u32, saturation: u32, luminance: i32) -> (r: BandSetting)
    ensures
        r.stands_for(band_of(hue as int, saturation as int, luminance as int)),
{
    let level: (u8, u8, u8) = hue_to_rgb(hue);
    let sat: u32 = if saturation > 100 {
        100
    } else {
        saturation
    };
    let lum: i32 = if luminance < -100 {
        -100
    } else if luminance > 100 {
        100
    } else {
        luminance
    };
    BandSetting {
        direction: [
            2 * (level.0 as i128) - 60,
            2 * (level.1 as i128) - 60,
            2 * (level.2 as i128) - 60,
        ],
        saturation: sat as i128,
        luminance: lum as i128,
    }
}

/// The three channels of one graded pixel.
fn grade_pixel(
    r: u8,
    g: u8,
    b: u8,
    shadows: &BandSetting,
    midtones: &BandSetting,
    highlights: &BandSetting,
    den: &BigInt,
    Ghost(grade): Ghost<Grade>,
) -> (out: (u8, u8, u8))
    requires
        shadows.stands_for(grade.shadows),
        midtones.stands_for(grade.midtones),
        highlights.stands_for(grade.highlights),
        den@ == graded_den(),
    ensures
        out.0 as int == graded_channel(grade, r as int, g as int, b as int, 0),
        out.1 as int == graded_channel(grade, r as int, g as int, b as int, 1),
        out.2 as int == graded_channel(grade, r as int, g as int, b as int, 2),
{
    let l: i32 = 1063 * (r as i32) + 3576 * (g as i32) + 361 * (b as i32);
    let low: (i128, i128) = smoothblend(0, HALF_LUMA, l);
    let high: (i128, i128) = smoothblend(HALF_LUMA, 2 * HALF_LUMA, l);
    let q: i128 = low.1;
    proof {
        lemma_band_weights(l as int);
        assert(blend_den(HALF_LUMA as int, 2 * HALF_LUMA) == blend_den(0, HALF_LUMA as int));
        assert(q == 637500int * 637500 * 637500) by (nonlinear_arith)
            requires
                q == blend_den(0, 637500),
        ;
        assert(q == 259083984375000000);
    }
    let w0: i128 = q - low.0;
    let w1: i128 = low.0 - high.0;
    let w2: i128 = high.0;
    assert(w0 == band_weight(0, l as int) && w1 == band_weight(1, l as int) && w2 == band_weight(
        2,
        l as int,
    ));
    proof {
        lemma_product_bound(shadows.luminance as int, w0 as int, 100, q as int);
        lemma_product_bound(midtones.luminance as int, w1 as int, 100, q as int);
        lemma_product_bound(highlights.luminance as int, w2 as int, 100, q as int);
    }
    let f0: i128 = 200 * q + shadows.luminance * w0;
    let f1: i128 = 200 * q + midtones.luminance * w1;
    let f2: i128 = 200 * q + highlights.luminance * w2;
    assert(f0 == band_gain(grade, 0, l as int) && f1 == band_gain(grade, 1, l as int) && f2
        == band_gain(grade, 2, l as int));
    let big0: BigInt = BigInt::from_i128(f0);
    let big1: BigInt = BigInt::from_i128(f1);
    let big2: BigInt = BigInt::from_i128(f2);
    let unit: i128 = 6000 * q;
    proof {
        let a = 6000 * q as int;
        let f = 200 * q as int;
        assert(a * f * f * f > 0) by (nonlinear_arith)
            requires
                a > 0,
                f > 0,
        ;
    }
    let mut out: [u8; 3] = [0, 0, 0];
    let rgb: [u8; 3] = [r, g, b];
    let mut c: usize = 0;
    while c < 3
        invariant
            c <= 3,
            rgb[0] == r,
            rgb[1] == g,
            rgb[2] == b,
            l == luma(r as int, g as int, b as int),
            q == weight_den(),
            q == 259083984375000000,
            unit == 6000 * q,
            w0 == band_weight(0, l as int),
            w1 == band_weight(1, l as int),
            w2 == band_weight(2, l as int),
            -q <= w0 <= q,
            -q <= w1 <= q,
            -q <= w2 <= q,
            shadows.stands_for(grade.shadows),
            midtones.stands_for(grade.midtones),
            highlights.stands_for(grade.highlights),
            big0@ == band_gain(grade, 0, l as int),
            big1@ == band_gain(grade, 1, l as int),
            big2@ == band_gain(grade, 2, l as int),
            den@ == graded_den(),
            den@ > 0,
            forall|k: int| 0 <= k < c ==> out[k] as int == graded_channel(
                grade,
                r as int,
                g as int,
                b as int,
                k,
            ),
        decreases 3 - c,
    {
        let d0: i128 = shadows.direction[c];
        let d1: i128 = midtones.direction[c];
        let d2: i128 = highlights.direction[c];
        proof {
            lemma_product_bound(d0 as int, w0 as int, 60, q as int);
            lemma_product_bound(d1 as int, w1 as int, 60, q as int);
            lemma_product_bound(d2 as int, w2 as int, 60, q as int);
            lemma_product_bound(d0 * w0, shadows.saturation as int, 60 * q, 100);
            lemma_product_bound(d1 * w1, midtones.saturation as int, 60 * q, 100);
            lemma_product_bound(d2 * w2, highlights.saturation as int, 60 * q, 100);
        }
        let t0: i128 = d0 * w0 * shadows.saturation;
        let t1: i128 = d1 * w1 * midtones.saturation;
        let t2: i128 = d2 * w2 * highlights.saturation;
        assert(t0 == band_tint(grade, 0, c as int, l as int));
        assert(t1 == band_tint(grade, 1, c as int, l as int));
        assert(t2 == band_tint(grade, 2, c as int, l as int));
        let tint: i128 = 80 * (t0 + t1 + t2);
        let base: i128 = (rgb[c] as i128) * unit + tint;
        let num: BigInt = BigInt::from_i128(base).times(&big0).times(&big1).times(&big2);
        let byte: u8 = quantize_big(&num, den);
        out[c] = byte;
        c = c + 1;
    }
    (out[0], out[1], out[2])
}

/// The denominator of every graded channel.
fn grade_denominator() -> (den: BigInt)
    ensures
        den@ == graded_den(),
{
    proof {
        assert(weight_den() == 637500int * 637500 * 637500) by (nonlinear_arith)
            requires
                weight_den() == blend_den(0, 637500),
        ;
    }
    let q: i128 = 259083984375000000;
    let tint_unit: BigInt = BigInt::from_i128(6000 * q);
    let gain_unit: BigInt = BigInt::from_i128(200 * q);
    tint_unit.times(&gain_unit).times(&gain_unit).times(&gain_unit)
}

/// The three bands applied to every pixel.
pub fn apply(
    img: Bitmap,
    shadows_hue: u32,
    shadows_sat: u32,
    shadows_lum: i32,
    midtones_hue: u32,
    midtones_sat: u32,
    midtones_lum: i32,
    highlights_hue: u32,
    highlights_sat: u32,
    highlights_lum: i32,
) -> (out: Bitmap)
    ensures
        out@ == graded(
            img@,
            Grade {
                shadows: band_of(shadows_hue as int, shadows_sat as int, shadows_lum as int),
                midtones: band_of(midtones_hue as int, midtones_sat as int, midtones_lum as int),
                highlights: band_of(
                    highlights_hue as int,
                    highlights_sat as int,
                    highlights_lum as int,
                ),
            },
        ),
        out@.well_formed(),
{
    let shadows: BandSetting = band_setting(shadows_hue, shadows_sat, shadows_lum);
    let midtones: BandSetting = band_setting(midtones_hue, midtones_sat, midtones_lum);
    let highlights: BandSetting = band_setting(highlights_hue, highlights_sat, highlights_lum);
    let ghost grade = Grade {
        shadows: band_of(shadows_hue as int, shadows_sat as int, shadows_lum as int),
        midtones: band_of(midtones_hue as int, midtones_sat as int, midtones_lum as int),
        highlights: band_of(highlights_hue as int, highlights_sat as int, highlights_lum as int),
    };
    let den: BigInt = grade_denominator();
    let rgb: Vec<u8> = img.to_rgb8();
    let width: u32 = img.width();
    let height: u32 = img.height();
    let count: usize = img.pixel_count();
    let total: usize = rgb.len();
    let mut data: Vec<u8> = Vec::new();
    let mut p: usize = 0;
    while p < count
        invariant
            p <= count,
            total == 3 * count,
            rgb@.len() == total,
            data@.len() == 3 * p,
            den@ == graded_den(),
            shadows.stands_for(grade.shadows),
            midtones.stands_for(grade.midtones),
            highlights.stands_for(grade.highlights),
            forall|k: int| 0 <= k < 3 * p ==> data@[k] as int == graded_sample(grade, rgb@, k),
        decreases count - p,
    {
        let px: (u8, u8, u8) = grade_pixel(
            rgb[3 * p],
            rgb[3 * p + 1],
            rgb[3 * p + 2],
            &shadows,
            &midtones,
            &highlights,
            &den,
            Ghost(grade),
        );
        data.push(px.0);
        data.push(px.1);
        data.push(px.2);
        proof {
            let q = p as int;
            assert forall|k: int| 3 * q <= k < 3 * q + 3 implies data@[k] as int == graded_sample(
                grade,
                rgb@,
                k,
            ) by {
                assert(k / 3 == q);
            }
        }
        p = p + 1;
    }
    proof {
        assert(data@ =~= graded(img@, grade).data);
    }
    Bitmap::from_rgb8(width, height, data)
}

} // verus!
