//! Film grain: a reproducible noise pattern laid over the image as a change
//! of density, strongest in the midtones.
//!
//! All quantities are exact fractions. A hash value is a multiple of
//! `1 / 4294967295` between -1 and 1; positions are hundredths of a pixel; the
//! size of a noise cell is `cell / 100` pixels.
use crate::bigint::BigInt;
use crate::bitmap::{Bitmap, BitmapView, Layout};
use crate::color_grade::luma;
use crate::rounding::{
    lemma_product_bound, lemma_to_byte_exact, limited, quantize_big, to_byte,
};
use crate::smoothblend::{
    blend_den, blend_num, lemma_blend_range, lemma_cubic_range, smoothblend,
};
use vstd::arithmetic::div_mod::lemma_fundamental_div_mod_converse;
use vstd::prelude::*;

verus! {

/// A quarter of the luminance scale: the luminance 0.25 in units of
/// `1 / 1275000`.
pub const QUARTER_LUMA: i32 = 318750;

/// Twice the largest hash value, less one: the denominator of a hash value
/// read as a number between -1 and 1.
pub const HASH_SPAN: i64 = 4294967295;

/// The 32 bits that the position `(x, y)` and the seed are mixed into.
#[verifier::opaque]
pub open spec fn hash_bits(x: i64, y: i64, seed: u64) -> u32 {
    let h0: u64 = (x as u64).wrapping_mul(374761393) ^ (y as u64).wrapping_mul(668265263)
        ^ seed.wrapping_mul(1274126177);
    let h1: u64 = h0.wrapping_mul(1274126177);
    let h2: u64 = h1 ^ (h1 >> 16);
    let h3: u64 = h2.wrapping_mul(0x85ebca6b);
    let h4: u64 = h3 ^ (h3 >> 13);
    let h5: u64 = h4.wrapping_mul(0xc2b2ae35);
    let h6: u64 = h5 ^ (h5 >> 16);
    (h6 & 0xFFFF_FFFF) as u32
}

/// The hash of `(x, y)` as a number between -1 and 1, in units of
/// `1 / HASH_SPAN`.
pub open spec fn hash_level(x: int, y: int, seed: u64) -> int {
    2 * hash_bits(x as i64, y as i64, seed) - HASH_SPAN
}

/// The settings of the grain, each number kept within `0..=100`.
pub struct Grain {
    pub amount: int,
    pub size: int,
    pub roughness: int,
    pub monochrome: bool,
}

/// The settings as `apply` uses them.
pub open spec fn grain_of(amount: int, size: int, roughness: int, monochrome: bool) -> Grain {
    Grain {
        amount: limited(amount, 0, 100),
        size: limited(size, 0, 100),
        roughness: limited(roughness, 0, 100),
        monochrome,
    }
}

impl Grain {
    /// Side of a noise cell, from 1 to 5 pixels, in hundredths of a pixel.
    pub open spec fn cell(self) -> int {
        100 + 4 * self.size
    }

    /// Seed of the noise of channel `c`: one per channel in colour, the
    /// first for all three in monochrome.
    pub open spec fn seed(self, c: int) -> u64 {
        if self.monochrome || c == 0 {
            42
        } else if c == 1 {
            137
        } else {
            251
        }
    }

    /// Horizontal offset of the noise of channel `c`, in hundredths of a
    /// pixel.
    pub open spec fn offset_x(self, c: int) -> int {
        if self.monochrome || c == 0 {
            0
        } else if c == 1 {
            37
        } else {
            -53
        }
    }

    /// Vertical offset of the noise of channel `c`, in hundredths of a
    /// pixel.
    pub open spec fn offset_y(self, c: int) -> int {
        if self.monochrome || c == 0 {
            0
        } else if c == 1 {
            71
        } else {
            29
        }
    }
}

/// The weight `f^2 (3 - 2 f)` of the far corner, for the fraction `f / cell`
/// of the way across a cell, in units of `1 / cell^3`.
pub open spec fn ease(f: int, cell: int) -> int {
    f * f * (3 * cell - 2 * f)
}

/// Value noise at the position `(px / 100, py / 100)`: the hash levels of the
/// four corners of the cell that holds the position, blended with eased
/// weights along both axes. In units of `1 / (HASH_SPAN * cell^6)`.
pub open spec fn value_noise_num(px: int, py: int, cell: int, seed: u64) -> int {
    let gx = px / cell;
    let gy = py / cell;
    let sx = ease(px % cell, cell);
    let sy = ease(py % cell, cell);
    let c3 = cell * cell * cell;
    let c00 = hash_level(gx, gy, seed);
    let c10 = hash_level(gx + 1, gy, seed);
    let c01 = hash_level(gx, gy + 1, seed);
    let c11 = hash_level(gx + 1, gy + 1, seed);
    let top = c00 * c3 + sx * (c10 - c00);
    let bot = c01 * c3 + sx * (c11 - c01);
    top * c3 + sy * (bot - top)
}

/// `cell^6`.
pub open spec fn sixth_power(cell: int) -> int {
    let c3 = cell * cell * cell;
    c3 * c3
}

/// Denominator that goes with `value_noise_num`.
pub open spec fn value_noise_den(cell: int) -> int {
    HASH_SPAN * sixth_power(cell)
}

/// The smallest of the hash levels at the four corners of the cell that holds
/// the position `(px / 100, py / 100)`.
pub open spec fn lowest_corner(px: int, py: int, cell: int, seed: u64) -> int {
    let gx = px / cell;
    let gy = py / cell;
    least(
        least(hash_level(gx, gy, seed), hash_level(gx + 1, gy, seed)),
        least(hash_level(gx, gy + 1, seed), hash_level(gx + 1, gy + 1, seed)),
    )
}

/// The largest of the hash levels at the four corners of that cell.
pub open spec fn highest_corner(px: int, py: int, cell: int, seed: u64) -> int {
    let gx = px / cell;
    let gy = py / cell;
    greatest(
        greatest(hash_level(gx, gy, seed), hash_level(gx + 1, gy, seed)),
        greatest(hash_level(gx, gy + 1, seed), hash_level(gx + 1, gy + 1, seed)),
    )
}

/// The smaller of two.
pub open spec fn least(a: int, b: int) -> int {
    if a <= b {
        a
    } else {
        b
    }
}

/// The larger of two.
pub open spec fn greatest(a: int, b: int) -> int {
    if a >= b {
        a
    } else {
        b
    }
}

/// The grain of channel `c` at the pixel `(x, y)`: smooth noise at the
/// channel's offset position, moved towards the pixel's own hash level by the
/// roughness. In units of `1 / (100 * HASH_SPAN * cell^6)`.
pub open spec fn grain_num(g: Grain, x: int, y: int, c: int) -> int {
    let cell = g.cell();
    let c3 = cell * cell * cell;
    let smooth = value_noise_num(100 * x + g.offset_x(c), 100 * y + g.offset_y(c), cell, g.seed(c));
    let fine = hash_level(x, y, g.seed(c));
    100 * smooth + g.roughness * (fine * (c3 * c3) - smooth)
}

/// Denominator that goes with `grain_num`.
pub open spec fn grain_den(g: Grain) -> int {
    let cell = g.cell();
    let c3 = cell * cell * cell;
    100 * (HASH_SPAN * (c3 * c3))
}

/// Numerator of the luminance mask
/// `smoothblend(0, 0.25, l) * (1 - smoothblend(0.75, 1, l))`.
pub open spec fn mask_num(l: int) -> int {
    blend_num(0, QUARTER_LUMA as int, l) * (mask_unit() - blend_num(
        3 * QUARTER_LUMA,
        4 * QUARTER_LUMA,
        l,
    ))
}

/// Denominator of one factor of the mask.
pub open spec fn mask_unit() -> int {
    blend_den(0, QUARTER_LUMA as int)
}

/// Numerator of the noise `grain * amount / 100 * mask` of channel `c`.
pub open spec fn noise_num(g: Grain, x: int, y: int, l: int, c: int) -> int {
    grain_num(g, x, y, c) * g.amount * mask_num(l)
}

/// Denominator that goes with `noise_num`.
pub open spec fn noise_den(g: Grain) -> int {
    grain_den(g) * 100 * (mask_unit() * mask_unit())
}

/// Numerator of the channel `v` under the noise `n / d`: positive noise
/// darkens, `v - v * noise`; other noise lightens, `v + (255 - v) * |noise|`.
pub open spec fn composite_num(v: int, n: int, d: int) -> int {
    if n > 0 {
        v * (d - n)
    } else {
        v * d + (255 - v) * (-n)
    }
}

/// Channel `c` of the pixel `(r, g, b)` at `(x, y)` under the grain.
pub open spec fn grained_channel(g: Grain, x: int, y: int, r: int, gr: int, b: int, c: int) -> int {
    let v = if c == 0 {
        r
    } else if c == 1 {
        gr
    } else {
        b
    };
    to_byte(composite_num(v, noise_num(g, x, y, luma(r, gr, b), c), noise_den(g)), noise_den(g))
}

/// Sample `k` of the grained image of width `width` over the RGB samples
/// `rgb`.
pub open spec fn grained_sample(g: Grain, width: int, rgb: Seq<u8>, k: int) -> int {
    let p = k / 3;
    grained_channel(
        g,
        p % width,
        p / width,
        rgb[3 * p] as int,
        rgb[3 * p + 1] as int,
        rgb[3 * p + 2] as int,
        k % 3,
    )
}

/// The bitmap that `apply` returns.
pub open spec fn grained(img: BitmapView, g: Grain) -> BitmapView {
    BitmapView {
        width: img.width,
        height: img.height,
        layout: Layout::Rgb,
        data: Seq::new(
            img.rgb_data().len(),
            |k: int| grained_sample(g, img.width, img.rgb_data(), k) as u8,
        ),
    }
}

/// The denominators of the grain are positive.
pub proof fn lemma_noise_den_positive(g: Grain)
    requires
        0 <= g.size <= 100,
    ensures
        grain_den(g) > 0,
        mask_unit() > 0,
        noise_den(g) > 0,
{
    let cell = g.cell();
    let c3 = cell * cell * cell;
    lemma_blend_range(0, QUARTER_LUMA as int, 0);
    let u = mask_unit();
    let gd = grain_den(g);
    assert(gd > 0) by (nonlinear_arith)
        requires
            cell >= 100,
            c3 == cell * cell * cell,
            gd == 100 * (4294967295 * (c3 * c3)),
    ;
    assert(gd * 100 * (u * u) > 0) by (nonlinear_arith)
        requires
            gd > 0,
            u > 0,
    ;
}

/// A hash level lies between -1 and 1.
pub proof fn lemma_hash_level_range(x: int, y: int, seed: u64)
    ensures
        -HASH_SPAN <= hash_level(x, y, seed) <= HASH_SPAN,
{
}

/// A value moved from `a` towards `b` by the fraction `s / c` lies between
/// the two.
pub proof fn lemma_mix_between(a: int, b: int, s: int, c: int, lo: int, hi: int)
    by (nonlinear_arith)
    requires
        0 <= s <= c,
        lo <= a <= hi,
        lo <= b <= hi,
    ensures
        lo * c <= a * c + s * (b - a) <= hi * c,
{
    assert(a * c + s * (b - a) == a * (c - s) + b * s);
    assert(lo * (c - s) <= a * (c - s) <= hi * (c - s));
    assert(lo * s <= b * s <= hi * s);
    assert(lo * (c - s) + lo * s == lo * c);
    assert(hi * (c - s) + hi * s == hi * c);
}

/// Value noise lies between the smallest and the largest of the hash levels
/// at the four corners of its cell, and so between -1 and 1.
pub proof fn lemma_value_noise_range(px: int, py: int, cell: int, seed: u64)
    requires
        cell > 0,
    ensures
        value_noise_den(cell) > 0,
        lowest_corner(px, py, cell, seed) * sixth_power(cell) <= value_noise_num(
            px,
            py,
            cell,
            seed,
        ) <= highest_corner(px, py, cell, seed) * sixth_power(cell),
        -value_noise_den(cell) <= value_noise_num(px, py, cell, seed) <= value_noise_den(cell),
{
    let gx = px / cell;
    let gy = py / cell;
    let fx = px % cell;
    let fy = py % cell;
    let sx = ease(fx, cell);
    let sy = ease(fy, cell);
    let c3 = cell * cell * cell;
    let c6 = c3 * c3;
    let c00 = hash_level(gx, gy, seed);
    let c10 = hash_level(gx + 1, gy, seed);
    let c01 = hash_level(gx, gy + 1, seed);
    let c11 = hash_level(gx + 1, gy + 1, seed);
    let lo = lowest_corner(px, py, cell, seed);
    let hi = highest_corner(px, py, cell, seed);
    let top = c00 * c3 + sx * (c10 - c00);
    let bot = c01 * c3 + sx * (c11 - c01);
    vstd::arithmetic::div_mod::lemma_mod_bound(px, cell);
    vstd::arithmetic::div_mod::lemma_mod_bound(py, cell);
    lemma_cubic_range(fx, cell);
    lemma_cubic_range(fy, cell);
    assert(c3 > 0 && c6 > 0) by (nonlinear_arith)
        requires
            cell > 0,
            c3 == cell * cell * cell,
            c6 == c3 * c3,
    ;
    lemma_mix_between(c00, c10, sx, c3, lo, hi);
    lemma_mix_between(c01, c11, sx, c3, lo, hi);
    lemma_mix_between(top, bot, sy, c3, lo * c3, hi * c3);
    assert(lo * c3 * c3 == lo * c6 && hi * c3 * c3 == hi * c6) by (nonlinear_arith)
        requires
            c6 == c3 * c3,
    ;
    let span = HASH_SPAN as int;
    assert(value_noise_den(cell) == span * c6);
    assert(span * c6 > 0) by (nonlinear_arith)
        requires
            span > 0,
            c6 > 0,
    ;
    lemma_hash_level_range(gx, gy, seed);
    lemma_hash_level_range(gx + 1, gy, seed);
    lemma_hash_level_range(gx, gy + 1, seed);
    lemma_hash_level_range(gx + 1, gy + 1, seed);
    assert(-(span * c6) <= lo * c6 && hi * c6 <= span * c6) by (nonlinear_arith)
        requires
            -span <= lo,
            hi <= span,
            c6 > 0,
    ;
}

/// The grain of a channel lies between -1 and 1.
pub proof fn lemma_grain_range(g: Grain, x: int, y: int, c: int)
    requires
        0 <= g.size <= 100,
        0 <= g.roughness <= 100,
    ensures
        -grain_den(g) <= grain_num(g, x, y, c) <= grain_den(g),
{
    let cell = g.cell();
    let c3 = cell * cell * cell;
    let c6 = c3 * c3;
    let span = HASH_SPAN as int;
    let smooth = value_noise_num(100 * x + g.offset_x(c), 100 * y + g.offset_y(c), cell, g.seed(c));
    let fine = hash_level(x, y, g.seed(c));
    lemma_value_noise_range(100 * x + g.offset_x(c), 100 * y + g.offset_y(c), cell, g.seed(c));
    lemma_hash_level_range(x, y, g.seed(c));
    let unit = span * c6;
    assert(c6 > 0) by (nonlinear_arith)
        requires
            cell >= 100,
            c3 == cell * cell * cell,
            c6 == c3 * c3,
    ;
    assert(-unit <= fine * c6 <= unit) by (nonlinear_arith)
        requires
            -span <= fine <= span,
            c6 > 0,
            unit == span * c6,
    ;
    lemma_mix_between(smooth, fine * c6, g.roughness, 100, -unit, unit);
    assert(smooth * 100 + g.roughness * (fine * c6 - smooth) == 100 * smooth + g.roughness * (fine
        * c6 - smooth));
    assert((-unit) * 100 == -(100 * unit) && unit * 100 == 100 * unit);
}

/// The luminance mask lies between 0 and 1.
pub proof fn lemma_mask_range(l: int)
    ensures
        0 <= mask_num(l) <= mask_unit() * mask_unit(),
{
    let u = mask_unit();
    let rise = blend_num(0, QUARTER_LUMA as int, l);
    let fall = blend_num(3 * QUARTER_LUMA, 4 * QUARTER_LUMA, l);
    lemma_blend_range(0, QUARTER_LUMA as int, l);
    lemma_blend_range(3 * QUARTER_LUMA, 4 * QUARTER_LUMA, l);
    assert(blend_den(3 * QUARTER_LUMA, 4 * QUARTER_LUMA) == u);
    assert(0 <= rise * (u - fall) <= u * u) by (nonlinear_arith)
        requires
            0 <= rise <= u,
            0 <= fall <= u,
    ;
}

/// The noise that a channel is composited with lies between -1 and 1.
pub proof fn lemma_noise_range(g: Grain, x: int, y: int, l: int, c: int)
    requires
        0 <= g.amount <= 100,
        0 <= g.size <= 100,
        0 <= g.roughness <= 100,
    ensures
        noise_den(g) > 0,
        -noise_den(g) <= noise_num(g, x, y, l, c) <= noise_den(g),
{
    lemma_grain_range(g, x, y, c);
    lemma_mask_range(l);
    lemma_noise_den_positive(g);
    let n = grain_num(g, x, y, c);
    let d = grain_den(g);
    let m = mask_num(l);
    let uu = mask_unit() * mask_unit();
    let a = g.amount;
    assert(-(d * 100) <= n * a <= d * 100) by (nonlinear_arith)
        requires
            -d <= n <= d,
            0 <= a <= 100,
    ;
    assert(-(d * 100 * uu) <= n * a * m <= d * 100 * uu) by (nonlinear_arith)
        requires
            -(d * 100) <= n * a <= d * 100,
            0 <= m <= uu,
    ;
}

/// Two grains of one image with the same settings are the same bitmap: the
/// pattern has no source but the pixel positions, the pixels and the
/// settings.
pub proof fn lemma_grain_is_reproducible(img: BitmapView, g: Grain, a: BitmapView, b: BitmapView)
    requires
        a == grained(img, g),
        b == grained(img, g),
    ensures
        a.data == b.data,
        a == b,
{
}

/// In monochrome the three channels of a pixel are composited with one and
/// the same noise value.
pub proof fn lemma_monochrome_shares_noise(g: Grain, x: int, y: int, l: int, c: int)
    requires
        g.monochrome,
    ensures
        noise_num(g, x, y, l, c) == noise_num(g, x, y, l, 0),
{
}

/// With the amount at zero every channel keeps its value, whatever the size
/// and the roughness.
pub proof fn lemma_no_grain_keeps_channel(
    g: Grain,
    x: int,
    y: int,
    r: int,
    gr: int,
    b: int,
    c: int,
)
    requires
        g.amount == 0,
        0 <= g.size <= 100,
        0 <= r <= 255,
        0 <= gr <= 255,
        0 <= b <= 255,
        0 <= c < 3,
    ensures
        grained_channel(g, x, y, r, gr, b, c) == if c == 0 {
            r
        } else if c == 1 {
            gr
        } else {
            b
        },
{
    let v = if c == 0 {
        r
    } else if c == 1 {
        gr
    } else {
        b
    };
    let l = luma(r, gr, b);
    let n = noise_num(g, x, y, l, c);
    let d = noise_den(g);
    lemma_noise_den_positive(g);
    assert(n == 0) by (nonlinear_arith)
        requires
            n == grain_num(g, x, y, c) * g.amount * mask_num(l),
            g.amount == 0,
    ;
    assert(composite_num(v, n, d) == v * d) by (nonlinear_arith)
        requires
            n == 0,
            composite_num(v, n, d) == v * d + (255 - v) * (-n),
    ;
    lemma_to_byte_exact(v, d);
}

/// With the amount at zero `apply` returns the pixels it was given.
pub proof fn lemma_no_grain_keeps_pixels(img: BitmapView, g: Grain)
    requires
        img.well_formed(),
        g.amount == 0,
        0 <= g.size <= 100,
    ensures
        grained(img, g).data == img.rgb_data(),
{
    let rgb = img.rgb_data();
    let out = grained(img, g).data;
    assert forall|k: int| 0 <= k < out.len() implies out[k] == rgb[k] by {
        let p = k / 3;
        lemma_no_grain_keeps_channel(
            g,
            p % img.width,
            p / img.width,
            rgb[3 * p] as int,
            rgb[3 * p + 1] as int,
            rgb[3 * p + 2] as int,
            k % 3,
        );
    }
    assert(out =~= rgb);
}

/// The 32 bits that the position and the seed are mixed into: rounds of
/// multiplication, shift and exclusive or on 64 bits.
pub fn hash(x: i64, y: i64, seed: u64) -> (bits: u32)
    ensures
        bits == hash_bits(x, y, seed),
{
    proof {
        reveal(hash_bits);
    }
    let mut h: u64 = (x as u64).wrapping_mul(374761393) ^ (y as u64).wrapping_mul(668265263)
        ^ seed.wrapping_mul(1274126177);
    h = h.wrapping_mul(1274126177);
    h = h ^ (h >> 16);
    h = h.wrapping_mul(0x85ebca6b);
    h = h ^ (h >> 13);
    h = h.wrapping_mul(0xc2b2ae35);
    h = h ^ (h >> 16);
    let low: u64 = h & 0xFFFF_FFFF;
    assert(low <= 0xFFFF_FFFF) by (bit_vector)
        requires
            low == h & 0xFFFF_FFFF,
    ;
    low as u32
}

/// The hash of the position as a number between -1 and 1, in units of
/// `1 / HASH_SPAN`.
fn hash_signed(x: i64, y: i64, seed: u64) -> (level: i128)
    ensures
        level == hash_level(x as int, y as int, seed),
        -4294967295 <= level <= 4294967295,
{
    2 * (hash(x, y, seed) as i128) - (HASH_SPAN as i128)
}

/// Quotient and remainder of `a` by `d`, the quotient rounded down.
fn floor_div(a: i64, d: i64) -> (r: (i64, i64))
    requires
        d > 0,
        a > -0x4000_0000_0000_0000,
    ensures
        r.0 == a as int / d as int,
        r.1 == a as int % d as int,
        0 <= r.1 < d,
{
    if a >= 0 {
        (a / d, a % d)
    } else {
        let m: i64 = -a;
        let above: i64 = (m - 1) / d;
        let q: i64 = -1 - above;
        assert(0 <= above * d <= m - 1 && m - 1 - above * d < d) by (nonlinear_arith)
            requires
                above as int == (m - 1) as int / d as int,
                m >= 1,
                d > 0,
        ;
        let rem: i64 = d - 1 - (m - 1 - above * d);
        proof {
            assert(a == q * d + rem) by (nonlinear_arith)
                requires
                    a == -m,
                    q == -1 - above,
                    rem == d - 1 - (m - 1 - above * d),
            ;
            lemma_fundamental_div_mod_converse(a as int, d as int, q as int, rem as int);
        }
        (q, rem)
    }
}

/// The eased weight of the fraction `f / cell`.
fn eased(f: i64, cell: i64) -> (r: i128)
    requires
        0 <= f < cell <= 500,
    ensures
        r == ease(f as int, cell as int),
        0 <= r <= cell * cell * cell,
        cell * cell * cell <= 125000000,
{
    proof {
        lemma_cubic_range(f as int, cell as int);
        assert(f * f <= 250000 && cell * cell * cell <= 125000000) by (nonlinear_arith)
            requires
                0 <= f < cell <= 500,
        ;
    }
    let f2: i128 = (f as i128) * (f as i128);
    f2 * (3 * (cell as i128) - 2 * (f as i128))
}

/// `a` moved towards `b` by the fraction `s / c3`, in units of `1 / c3`.
fn blend_pair(a: i128, b: i128, s: i128, c3: i128, Ghost(bound): Ghost<int>) -> (r: i128)
    requires
        0 <= s <= c3 <= 125000000,
        0 <= bound <= 0x1_0000_0000_0000_0000,
        -bound <= a <= bound,
        -bound <= b <= bound,
    ensures
        r == a * c3 + s * (b - a),
        -(bound * c3) <= r <= bound * c3,
{
    proof {
        assert(-(bound * c3) <= a * c3 + s * (b - a) <= bound * c3) by (nonlinear_arith)
            requires
                0 <= s <= c3,
                -bound <= a <= bound,
                -bound <= b <= bound,
        {
            assert(a * c3 + s * (b - a) == a * (c3 - s) + b * s);
            assert(-(bound * (c3 - s)) <= a * (c3 - s) <= bound * (c3 - s));
            assert(-(bound * s) <= b * s <= bound * s);
            assert(bound * (c3 - s) + bound * s == bound * c3);
        }
        assert(bound * c3 <= 0x1_0000_0000_0000_0000 * 125000000) by (nonlinear_arith)
            requires
                0 <= bound <= 0x1_0000_0000_0000_0000,
                0 <= c3 <= 125000000,
        ;
        lemma_product_bound(a as int, c3 as int, bound, 125000000);
        lemma_product_bound(s as int, b - a, 125000000, 2 * bound);
    }
    a * c3 + s * (b - a)
}

/// Value noise at the position `(px / 100, py / 100)` for cells of side
/// `cell / 100`, as a numerator over `HASH_SPAN * cell^6`.
pub fn value_noise(px: i64, py: i64, cell: i64, seed: u64) -> (v: i128)
    requires
        100 <= cell <= 500,
        -0x1_0000_0000_0000 <= px <= 0x1_0000_0000_0000,
        -0x1_0000_0000_0000 <= py <= 0x1_0000_0000_0000,
    ensures
        v == value_noise_num(px as int, py as int, cell as int, seed),
        -value_noise_den(cell as int) <= v <= value_noise_den(cell as int),
{
    let gx: (i64, i64) = floor_div(px, cell);
    let gy: (i64, i64) = floor_div(py, cell);
    assert(-0x1_0000_0000_0000 <= gx.0 <= 0x1_0000_0000_0000 && -0x1_0000_0000_0000 <= gy.0
        <= 0x1_0000_0000_0000) by (nonlinear_arith)
        requires
            gx.0 == px as int / cell as int,
            gy.0 == py as int / cell as int,
            100 <= cell <= 500,
            -0x1_0000_0000_0000 <= px <= 0x1_0000_0000_0000,
            -0x1_0000_0000_0000 <= py <= 0x1_0000_0000_0000,
    ;
    let sx: i128 = eased(gx.1, cell);
    let sy: i128 = eased(gy.1, cell);
    let c3: i128 = cube(cell);
    let c00: i128 = hash_signed(gx.0, gy.0, seed);
    let c10: i128 = hash_signed(gx.0 + 1, gy.0, seed);
    let c01: i128 = hash_signed(gx.0, gy.0 + 1, seed);
    let c11: i128 = hash_signed(gx.0 + 1, gy.0 + 1, seed);
    let top: i128 = blend_pair(c00, c10, sx, c3, Ghost(4294967295));
    let bot: i128 = blend_pair(c01, c11, sx, c3, Ghost(4294967295));
    proof {
        lemma_product_bound(4294967295, c3 as int, 4294967295, 125000000);
        lemma_value_noise_range(px as int, py as int, cell as int, seed);
    }
    blend_pair(top, bot, sy, c3, Ghost(4294967295 * c3))
}

/// `cell^3`.
fn cube(cell: i64) -> (r: i128)
    requires
        100 <= cell <= 500,
    ensures
        r == cell * cell * cell,
        0 < r <= 125000000,
{
    assert(0 < cell * cell <= 250000 && 0 < cell * cell * cell <= 125000000) by (nonlinear_arith)
        requires
            100 <= cell <= 500,
    ;
    (cell as i128) * (cell as i128) * (cell as i128)
}

/// What the pixel loop reads of the settings.
struct GrainSetting {
    amount: i128,
    roughness: i128,
    cell: i64,
    monochrome: bool,
}

impl GrainSetting {
    spec fn stands_for(self, g: Grain) -> bool {
        &&& self.amount == g.amount
        &&& self.roughness == g.roughness
        &&& self.cell == g.cell()
        &&& self.monochrome == g.monochrome
        &&& 0 <= g.amount <= 100
        &&& 0 <= g.size <= 100
        &&& 0 <= g.roughness <= 100
    }

    fn seed(&self, c: usize) -> (r: u64)
        ensures
            forall|g: Grain| self.stands_for(g) ==> r == #[trigger] g.seed(c as int),
    {
        if self.monochrome || c == 0 {
            42
        } else if c == 1 {
            137
        } else {
            251
        }
    }

    fn offset(&self, c: usize) -> (r: (i64, i64))
        ensures
            forall|g: Grain|
                self.stands_for(g) ==> r.0 == #[trigger] g.offset_x(c as int) && r.1 == g.offset_y(
                    c as int,
                ),
            -100 <= r.0 <= 100,
            -100 <= r.1 <= 100,
    {
        if self.monochrome || c == 0 {
            (0, 0)
        } else if c == 1 {
            (37, 71)
        } else {
            (-53, 29)
        }
    }
}

fn limit_setting(v: u32) -> (r: u32)
    ensures
        r == limited(v as int, 0, 100),
{
    if v > 100 {
        100
    } else {
        v
    }
}

/// The grain of channel `c` at the pixel `(x, y)`, as a numerator over
/// `grain_den`.
fn grain_level(s: &GrainSetting, x: u32, y: u32, c: usize, Ghost(g): Ghost<Grain>) -> (r: i128)
    requires
        s.stands_for(g),
        c < 3,
    ensures
        r == grain_num(g, x as int, y as int, c as int),
        -grain_den(g) <= r <= grain_den(g),
{
    let seed: u64 = s.seed(c);
    let offset: (i64, i64) = s.offset(c);
    assert(seed == g.seed(c as int) && offset.0 == g.offset_x(c as int) && offset.1 == g.offset_y(
        c as int,
    ));
    let smooth: i128 = value_noise(
        100 * (x as i64) + offset.0,
        100 * (y as i64) + offset.1,
        s.cell,
        seed,
    );
    let fine: i128 = hash_signed(x as i64, y as i64, seed);
    let c3: i128 = cube(s.cell);
    proof {
        lemma_grain_range(g, x as int, y as int, c as int);
        lemma_product_bound(c3 as int, c3 as int, 125000000, 125000000);
        lemma_product_bound(4294967295, c3 * c3, 4294967295, 15625000000000000);
        lemma_product_bound(fine as int, c3 * c3, 4294967295, 15625000000000000);
        lemma_product_bound(
            s.roughness as int,
            fine * (c3 * c3) - smooth,
            100,
            134217727968750000000000000,
        );
    }
    100 * smooth + s.roughness * (fine * (c3 * c3) - smooth)
}

/// The three channels of one pixel under the grain.
fn grain_pixel(
    s: &GrainSetting,
    den: &BigInt,
    x: u32,
    y: u32,
    r: u8,
    g: u8,
    b: u8,
    Ghost(grain): Ghost<Grain>,
) -> (out: (u8, u8, u8))
    requires
        s.stands_for(grain),
        den@ == noise_den(grain),
    ensures
        out.0 as int == grained_channel(grain, x as int, y as int, r as int, g as int, b as int, 0),
        out.1 as int == grained_channel(grain, x as int, y as int, r as int, g as int, b as int, 1),
        out.2 as int == grained_channel(grain, x as int, y as int, r as int, g as int, b as int, 2),
{
    let l: i32 = 1063 * (r as i32) + 3576 * (g as i32) + 361 * (b as i32);
    let rise: (i128, i128) = smoothblend(0, QUARTER_LUMA, l);
    let fall: (i128, i128) = smoothblend(3 * QUARTER_LUMA, 4 * QUARTER_LUMA, l);
    proof {
        lemma_noise_den_positive(grain);
        assert(rise.1 == 318750int * 318750 * 318750 && fall.1 == rise.1) by (nonlinear_arith)
            requires
                rise.1 == blend_den(0, 318750),
                fall.1 == blend_den(956250, 1275000),
        ;
        assert(rise.1 == 32385498046875000);
        lemma_product_bound(
            rise.0 as int,
            rise.1 - fall.0,
            32385498046875000,
            32385498046875000,
        );
        assert(rise.0 * (rise.1 - fall.0) <= 32385498046875000int * 32385498046875000);
    }
    let mask: BigInt = BigInt::from_i128(rise.0 * (rise.1 - fall.0));
    let amount: BigInt = BigInt::from_i128(s.amount);
    let rgb: [u8; 3] = [r, g, b];
    let mut out: [u8; 3] = [0, 0, 0];
    let mut c: usize = 0;
    while c < 3
        invariant
            c <= 3,
            rgb[0] == r,
            rgb[1] == g,
            rgb[2] == b,
            s.stands_for(grain),
            l == luma(r as int, g as int, b as int),
            mask@ == mask_num(l as int),
            amount@ == grain.amount,
            den@ == noise_den(grain),
            den@ > 0,
            forall|k: int|
                0 <= k < c ==> out[k] as int == grained_channel(
                    grain,
                    x as int,
                    y as int,
                    r as int,
                    g as int,
                    b as int,
                    k,
                ),
        decreases 3 - c,
    {
        let level: BigInt = BigInt::from_i128(grain_level(s, x, y, c, Ghost(grain)));
        let noise: BigInt = level.times(&amount).times(&mask);
        let v: BigInt = BigInt::from_u64(rgb[c] as u64);
        let num: BigInt = if noise.is_negative() || noise.is_zero() {
            let room: BigInt = BigInt::from_u64((255 - rgb[c]) as u64);
            v.times(den).plus(&room.times(&noise.negated()))
        } else {
            v.times(&den.minus(&noise))
        };
        let byte: u8 = quantize_big(&num, den);
        out[c] = byte;
        c = c + 1;
    }
    (out[0], out[1], out[2])
}

/// Grain of the given amount, size and roughness laid over every pixel.
pub fn apply(img: Bitmap, amount: u32, size: u32, roughness: u32, monochrome: bool) -> (out: Bitmap)
    ensures
        out@ == grained(
            img@,
            grain_of(amount as int, size as int, roughness as int, monochrome),
        ),
        out@.well_formed(),
{
    let ghost grain = grain_of(amount as int, size as int, roughness as int, monochrome);
    let s: GrainSetting = GrainSetting {
        amount: limit_setting(amount) as i128,
        roughness: limit_setting(roughness) as i128,
        cell: 100 + 4 * (limit_setting(size) as i64),
        monochrome,
    };
    let c1: BigInt = BigInt::from_i64(s.cell);
    let c3: BigInt = c1.times(&c1).times(&c1);
    let unit: BigInt = BigInt::from_i128(32385498046875000);
    proof {
        assert(mask_unit() == 318750int * 318750 * 318750) by (nonlinear_arith)
            requires
                mask_unit() == blend_den(0, 318750),
        ;
    }
    let grain_unit: BigInt = BigInt::from_i64(100).times(
        &BigInt::from_i64(HASH_SPAN).times(&c3.times(&c3)),
    );
    let den: BigInt = grain_unit.times(&BigInt::from_i64(100)).times(&unit.times(&unit));
    let rgb: Vec<u8> = img.to_rgb8();
    let width: u32 = img.width();
    let height: u32 = img.height();
    let count: usize = img.pixel_count();
    let total: usize = rgb.len();
    let mut data: Vec<u8> = Vec::new();
    let mut p: usize = 0;
    while p < count
        invariant
            p <= count,
            total == 3 * count,
            rgb@.len() == total,
            data@.len() == 3 * p,
            count == width * height,
            s.stands_for(grain),
            den@ == noise_den(grain),
            forall|k: int|
                0 <= k < 3 * p ==> data@[k] as int == grained_sample(grain, width as int, rgb@, k),
        decreases count - p,
    {
        assert(width > 0) by (nonlinear_arith)
            requires
                p < count,
                count == width * height,
                width >= 0,
        ;
        let x: usize = p % (width as usize);
        let y: usize = p / (width as usize);
        assert(y < height) by (nonlinear_arith)
            requires
                y == p as int / width as int,
                p < width * height,
                width > 0,
        ;
        let px: (u8, u8, u8) = grain_pixel(
            &s,
            &den,
            x as u32,
            y as u32,
            rgb[3 * p],
            rgb[3 * p + 1],
            rgb[3 * p + 2],
            Ghost(grain),
        );
        data.push(px.0);
        data.push(px.1);
        data.push(px.2);
        proof {
            let q = p as int;
            assert forall|k: int| 3 * q <= k < 3 * q + 3 implies data@[k] as int == grained_sample(
                grain,
                width as int,
                rgb@,
                k,
            ) by {
                assert(k / 3 == q);
            }
        }
        p = p + 1;
    }
    proof {
        assert(data@ =~= grained(img@, grain).data);
    }
    Bitmap::from_rgb8(width, height, data)
}

} // verus!
