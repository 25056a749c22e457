//! Vignette: the image is darkened or lightened towards its edges, by a
//! strength that grows with the distance from the centre.
//!
//! A pixel stands at its own centre: pixel `x` of a row of `w` pixels lies at
//! `(x + 1/2) / w - 1/2` of the width from the middle of the image, so that
//! the first and the last pixel of a row lie equally far from it.
//!
//! The distance blends a rectangular and a circular measure, and the circular
//! one is a square root. It is kept exact: for a pixel whose squared distance
//! is the whole number `q`, every quantity has the form
//! `(rational + radical * sqrt(q)) / den` with whole `rational`, `radical` and
//! `den`, and the sign of such a number is decided by comparing squares.
use crate::bigint::BigInt;
use crate::bitmap::{Bitmap, BitmapView, Layout};
use crate::rounding::{lemma_to_byte_exact, lemma_to_byte_interval, limited, to_byte};
use vstd::prelude::*;

verus! {

/// The settings of the vignette, each kept within its range.
pub struct Vignette {
    pub amount: int,
    pub midpoint: int,
    pub roundness: int,
    pub feather: int,
}

/// The settings as `apply` uses them.
pub open spec fn vignette_of(amount: int, midpoint: int, roundness: int, feather: int) -> Vignette {
    Vignette {
        amount: limited(amount, -100, 100),
        midpoint: limited(midpoint, 0, 100),
        roundness: limited(roundness, -100, 100),
        feather: limited(feather, 0, 100),
    }
}

/// The settings lie within their ranges.
pub open spec fn valid_vignette(v: Vignette) -> bool {
    &&& -100 <= v.amount <= 100
    &&& 0 <= v.midpoint <= 100
    &&& -100 <= v.roundness <= 100
    &&& 0 <= v.feather <= 100
}

/// The absolute value.
pub open spec fn magnitude_of(a: int) -> int {
    if a < 0 {
        -a
    } else {
        a
    }
}

/// The larger of two.
pub open spec fn larger(a: int, b: int) -> int {
    if a >= b {
        a
    } else {
        b
    }
}

/// Whether `a + b * sqrt(q)` is zero or above, for `q >= 0`.
pub open spec fn surd_nonneg(a: int, b: int, q: int) -> bool {
    if a >= 0 && b >= 0 {
        true
    } else if a < 0 && b < 0 {
        false
    } else if a >= 0 {
        a * a >= b * b * q
    } else {
        b * b * q >= a * a
    }
}

/// The number `(rational + radical * sqrt(q)) / den`, the radicand `q`
/// being that of the pixel at hand.
pub struct Surd {
    pub rational: int,
    pub radical: int,
    pub den: int,
}

/// What the strength depends on: where the pixel lies in the image.
pub struct Place {
    pub width: int,
    pub height: int,
    pub x: int,
    pub y: int,
}

impl Place {
    /// The longer side of the image.
    pub open spec fn longest(self) -> int {
        larger(self.width, self.height)
    }

    /// Horizontal distance of the pixel's centre from the centre of the
    /// image, in half pixels.
    pub open spec fn across(self) -> int {
        magnitude_of(2 * self.x + 1 - self.width)
    }

    /// Vertical distance of the pixel's centre from the centre of the
    /// image, in half pixels.
    pub open spec fn down(self) -> int {
        magnitude_of(2 * self.y + 1 - self.height)
    }

    /// Square of the circular distance from the centre, in half pixels.
    pub open spec fn radicand(self) -> int {
        self.across() * self.across() + self.down() * self.down()
    }

    /// Rectangular distance from the centre, in half pixels.
    pub open spec fn rectangular(self) -> int {
        larger(self.across(), self.down())
    }

    /// The pixel that a half turn of the image about its centre brings
    /// here.
    pub open spec fn opposite(self) -> Place {
        Place {
            width: self.width,
            height: self.height,
            x: self.width - 1 - self.x,
            y: self.height - 1 - self.y,
        }
    }

    /// The place is a pixel of the image.
    pub open spec fn inside(self) -> bool {
        0 <= self.x < self.width && 0 <= self.y < self.height
    }
}

/// Rational part of "distance less inner radius", in units of
/// `1 / (400 * longest)`. The distance is
/// `rect + t * (circle - rect)` with `t = (roundness + 100) / 200`, the inner
/// radius `midpoint / 100 * 0.75`; coordinates are scaled so that the longer
/// side of the image spans one unit.
pub open spec fn reach(v: Vignette, p: Place) -> int {
    (100 - v.roundness) * p.rectangular() - 3 * v.midpoint * p.longest()
}

/// Radical part of the distance, in units of `1 / (400 * longest)`.
pub open spec fn bend(v: Vignette) -> int {
    v.roundness + 100
}

/// Width of the feathered edge `feather / 100 * 0.5`, in units of
/// `1 / (400 * longest)`.
pub open spec fn edge(v: Vignette, p: Place) -> int {
    2 * v.feather * p.longest()
}

/// The strength `smoothblend(inner, inner + width, distance)` at a pixel.
/// With `t = (a + b * sqrt(q)) / e` the part of the edge that the distance
/// has crossed, limited to `0..=1`, the strength is `t * t * (3 - 2 * t)`;
/// where the edge has no width it is a step, 0 inside the inner radius and 1
/// from it on.
pub open spec fn strength(v: Vignette, p: Place) -> Surd {
    let a = reach(v, p);
    let b = bend(v);
    let e = edge(v, p);
    let q = p.radicand();
    if !surd_nonneg(a, b, q) {
        Surd { rational: 0, radical: 0, den: 1 }
    } else if e == 0 || surd_nonneg(a - e, b, q) {
        Surd { rational: 1, radical: 0, den: 1 }
    } else {
        let u = a * a + b * b * q;
        let w = 2 * a * b;
        let g = 3 * e - 2 * a;
        let h = -2 * b;
        Surd { rational: u * g + w * h * q, radical: u * h + w * g, den: e * e * e }
    }
}

/// The channel `c` under the strength `s`: a negative amount darkens,
/// `c * (1 - s * |amount| / 100)`; another lightens,
/// `c + (255 - c) * s * amount / 100`.
pub open spec fn shaded(amount: int, s: Surd, c: int) -> Surd {
    if amount < 0 {
        Surd {
            rational: 100 * s.den * c - c * (-amount) * s.rational,
            radical: -(c * (-amount) * s.radical),
            den: 100 * s.den,
        }
    } else {
        Surd {
            rational: 100 * s.den * c + (255 - c) * amount * s.rational,
            radical: (255 - c) * amount * s.radical,
            den: 100 * s.den,
        }
    }
}

/// Whether the number `s` is at least `k - 1/2`.
pub open spec fn reaches(s: Surd, q: int, k: int) -> bool {
    surd_nonneg(2 * s.rational - (2 * k - 1) * s.den, 2 * s.radical, q)
}

/// The largest byte `k` from 1 to `top` for which `s` is at least `k - 1/2`,
/// or 0 if there is none.
pub open spec fn surd_byte_below(s: Surd, q: int, top: int) -> int
    decreases top,
{
    if top <= 0 {
        0
    } else if reaches(s, q, top) {
        top
    } else {
        surd_byte_below(s, q, top - 1)
    }
}

/// The byte nearest to `s`, a tie going up.
pub open spec fn surd_byte(s: Surd, q: int) -> int {
    surd_byte_below(s, q, 255)
}

/// The channel `c` of the pixel at `p` under the vignette.
pub open spec fn vignetted_channel(v: Vignette, p: Place, c: int) -> int {
    surd_byte(shaded(v.amount, strength(v, p), c), p.radicand())
}

/// Sample `k` of the vignetted image over the RGB samples `rgb`.
pub open spec fn vignetted_sample(v: Vignette, width: int, height: int, rgb: Seq<u8>, k: int) -> int {
    let i = k / 3;
    vignetted_channel(v, Place { width, height, x: i % width, y: i / width }, rgb[k] as int)
}

/// The bitmap that `apply` returns.
pub open spec fn vignetted(img: BitmapView, v: Vignette) -> BitmapView {
    BitmapView {
        width: img.width,
        height: img.height,
        layout: Layout::Rgb,
        data: Seq::new(
            img.rgb_data().len(),
            |k: int| vignetted_sample(v, img.width, img.height, img.rgb_data(), k) as u8,
        ),
    }
}

proof fn lemma_square_order(a: int, t: int)
    by (nonlinear_arith)
    requires
        a >= 0,
        t >= 0,
    ensures
        a * a >= t * t <==> a >= t,
{
}

/// Where the radicand is the square of `r`, `surd_nonneg` says what it is to
/// say: that `a + b * r` is zero or above.
pub proof fn lemma_surd_nonneg_of_square(a: int, b: int, r: int)
    requires
        r >= 0,
    ensures
        surd_nonneg(a, b, r * r) <==> a + b * r >= 0,
{
    let t = b * r;
    assert(b * b * (r * r) == t * t) by (nonlinear_arith)
        requires
            t == b * r,
    ;
    if b >= 0 {
        assert(t >= 0) by (nonlinear_arith)
            requires
                t == b * r,
                b >= 0,
                r >= 0,
        ;
        if a < 0 {
            lemma_square_order(t, -a);
            assert((-a) * (-a) == a * a) by (nonlinear_arith);
        }
    } else {
        assert(t <= 0) by (nonlinear_arith)
            requires
                t == b * r,
                b < 0,
                r >= 0,
        ;
        if a >= 0 {
            lemma_square_order(a, -t);
            assert((-t) * (-t) == t * t) by (nonlinear_arith);
        }
    }
}

/// Whatever the number, what is stored is a byte.
pub proof fn lemma_surd_byte_is_byte(s: Surd, q: int)
    ensures
        0 <= surd_byte(s, q) <= 255,
{
    lemma_surd_byte_within(s, q, 255);
}

proof fn lemma_surd_byte_within(s: Surd, q: int, top: int)
    requires
        0 <= top,
    ensures
        0 <= surd_byte_below(s, q, top) <= top,
    decreases top,
{
    if top > 0 && !reaches(s, q, top) {
        lemma_surd_byte_within(s, q, top - 1);
    }
}

/// A number that is zero or above stays so when its rational part grows.
pub proof fn lemma_surd_nonneg_monotone(a: int, b: int, q: int, c: int)
    requires
        q >= 0,
        a <= c,
        surd_nonneg(a, b, q),
    ensures
        surd_nonneg(c, b, q),
{
    if b >= 0 {
        if c < 0 {
            assert(c * c <= a * a) by (nonlinear_arith)
                requires
                    a <= c < 0,
            ;
        }
    } else {
        assert(c * c >= a * a) by (nonlinear_arith)
            requires
                0 <= a <= c,
        ;
    }
}

/// The bytes whose lower boundary `s` reaches form a run from 1 upwards.
pub proof fn lemma_reaches_downward(s: Surd, q: int, j: int, k: int)
    requires
        q >= 0,
        s.den > 0,
        j <= k,
        reaches(s, q, k),
    ensures
        reaches(s, q, j),
{
    assert((2 * j - 1) * s.den <= (2 * k - 1) * s.den) by (nonlinear_arith)
        requires
            j <= k,
            s.den > 0,
    ;
    lemma_surd_nonneg_monotone(
        2 * s.rational - (2 * k - 1) * s.den,
        2 * s.radical,
        q,
        2 * s.rational - (2 * j - 1) * s.den,
    );
}

/// `surd_byte` is the byte whose lower boundary is reached while the next
/// one is not.
pub proof fn lemma_surd_byte_bracket(s: Surd, q: int, k: int)
    requires
        q >= 0,
        s.den > 0,
        0 <= k <= 255,
        k == 0 || reaches(s, q, k),
        k == 255 || !reaches(s, q, k + 1),
    ensures
        surd_byte(s, q) == k,
{
    lemma_surd_byte_from(s, q, k, 255);
}

proof fn lemma_surd_byte_from(s: Surd, q: int, k: int, top: int)
    requires
        q >= 0,
        s.den > 0,
        0 <= k <= top <= 255,
        k == 0 || reaches(s, q, k),
        k == 255 || !reaches(s, q, k + 1),
    ensures
        surd_byte_below(s, q, top) == k,
    decreases top,
{
    if top > k {
        if reaches(s, q, top) {
            lemma_reaches_downward(s, q, k + 1, top);
        }
        lemma_surd_byte_from(s, q, k, top - 1);
    }
}

/// A number without radical part rounds as the quotient it is.
pub proof fn lemma_surd_byte_of_quotient(n: int, d: int, q: int)
    requires
        q >= 0,
        d > 0,
    ensures
        surd_byte(Surd { rational: n, radical: 0, den: d }, q) == to_byte(n, d),
{
    let s = Surd { rational: n, radical: 0, den: d };
    let k = to_byte(n, d);
    lemma_to_byte_interval(n, d);
    assert forall|j: int| reaches(s, q, j) <==> (2 * j - 1) * d <= 2 * n by {
        let a = 2 * n - (2 * j - 1) * d;
        assert(0 * 0 * q == 0) by (nonlinear_arith);
        if a < 0 {
            assert(a * a > 0) by (nonlinear_arith)
                requires
                    a < 0,
            ;
        }
    }
    if k != 255 {
        assert((2 * (k + 1) - 1) * d == (2 * k + 1) * d);
    }
    lemma_surd_byte_bracket(s, q, k);
}

/// With the amount at zero every channel keeps its value, whatever the
/// midpoint, the roundness and the feather.
pub proof fn lemma_no_vignette_keeps_channel(v: Vignette, p: Place, c: int)
    requires
        v.amount == 0,
        valid_vignette(v),
        p.width >= 0,
        p.height >= 0,
        0 <= c <= 255,
    ensures
        vignetted_channel(v, p, c) == c,
{
    let s = strength(v, p);
    let q = p.radicand();
    lemma_strength_den_positive(v, p);
    let out = shaded(0, s, c);
    assert((255 - c) * 0 * s.rational == 0 && (255 - c) * 0 * s.radical == 0) by (nonlinear_arith);
    assert(out == Surd { rational: 100 * s.den * c, radical: 0, den: 100 * s.den });
    assert(100 * s.den * c == c * (100 * s.den)) by (nonlinear_arith);
    lemma_surd_byte_of_quotient(c * (100 * s.den), 100 * s.den, q);
    lemma_to_byte_exact(c, 100 * s.den);
}

/// With the amount at zero `apply` returns the pixels it was given.
pub proof fn lemma_no_vignette_keeps_pixels(img: BitmapView, v: Vignette)
    requires
        img.well_formed(),
        v.amount == 0,
        valid_vignette(v),
    ensures
        vignetted(img, v).data == img.rgb_data(),
{
    let rgb = img.rgb_data();
    let out = vignetted(img, v).data;
    assert forall|k: int| 0 <= k < out.len() implies out[k] == rgb[k] by {
        let i = k / 3;
        lemma_no_vignette_keeps_channel(
            v,
            Place { width: img.width, height: img.height, x: i % img.width, y: i / img.width },
            rgb[k] as int,
        );
    }
    assert(out =~= rgb);
}

/// The radicand is never negative and the strength has a positive
/// denominator.
pub proof fn lemma_strength_den_positive(v: Vignette, p: Place)
    requires
        valid_vignette(v),
        p.width >= 0,
        p.height >= 0,
    ensures
        p.radicand() >= 0,
        strength(v, p).den > 0,
{
    let e = edge(v, p);
    let dx = p.across();
    let dy = p.down();
    assert(dx * dx + dy * dy >= 0) by (nonlinear_arith);
    assert(e >= 0) by (nonlinear_arith)
        requires
            e == 2 * v.feather * p.longest(),
            v.feather >= 0,
            p.longest() >= 0,
    ;
    if e > 0 {
        assert(e * e * e > 0) by (nonlinear_arith)
            requires
                e > 0,
        ;
    }
}

/// A pixel and the pixel that lies half a turn about the centre of the image
/// from it receive the same strength, and channels of one value come out
/// alike at both. The other pixel is a pixel of the image as well.
pub proof fn lemma_strength_is_symmetric(v: Vignette, p: Place, c: int)
    ensures
        p.inside() ==> p.opposite().inside(),
        p.opposite().opposite() == p,
        p.opposite().radicand() == p.radicand(),
        strength(v, p.opposite()) == strength(v, p),
        vignetted_channel(v, p.opposite(), c) == vignetted_channel(v, p, c),
{
    let o = p.opposite();
    assert(o.across() == p.across());
    assert(o.down() == p.down());
}

/// The index of the pixel that lies half a turn about the centre from pixel
/// `i`: the pixels in reverse order.
pub open spec fn turned(img: BitmapView, i: int) -> int {
    img.pixels() - 1 - i
}

/// The index of the sample that a half turn brings to sample `k`: the same
/// channel of the turned pixel.
pub open spec fn turned_sample(img: BitmapView, k: int) -> int {
    3 * turned(img, k / 3) + k % 3
}

/// A half turn about its centre leaves the image as it is.
pub open spec fn half_turn_symmetric(data: Seq<u8>, img: BitmapView) -> bool {
    forall|k: int| 0 <= k < data.len() ==> data[k] == data[#[trigger] turned_sample(img, k)]
}

/// Of an image that a half turn about its centre leaves as it is, the
/// vignetted image is left as it is by that turn as well.
pub proof fn lemma_vignette_keeps_half_turn_symmetry(img: BitmapView, v: Vignette)
    requires
        img.well_formed(),
        half_turn_symmetric(img.rgb_data(), img),
    ensures
        half_turn_symmetric(vignetted(img, v).data, img),
{
    let out = vignetted(img, v).data;
    assert forall|k: int| 0 <= k < out.len() implies out[k] == out[#[trigger] turned_sample(
        img,
        k,
    )] by {
        lemma_turned_sample(img, v, k);
    }
}

proof fn lemma_turned_sample(img: BitmapView, v: Vignette, k: int)
    requires
        img.well_formed(),
        half_turn_symmetric(img.rgb_data(), img),
        0 <= k < 3 * img.pixels(),
    ensures
        0 <= turned_sample(img, k) < 3 * img.pixels(),
        vignetted(img, v).data[k] == vignetted(img, v).data[turned_sample(img, k)],
{
    let i = k / 3;
    let c = k % 3;
    let w = img.width;
    let h = img.height;
    let t = turned(img, i);
    let rgb = img.rgb_data();
    assert(rgb[k] == rgb[turned_sample(img, k)]);
    assert(w > 0) by (nonlinear_arith)
        requires
            0 <= i < w * h,
            w >= 0,
    ;
    let x = i % w;
    let y = i / w;
    vstd::arithmetic::div_mod::lemma_fundamental_div_mod(i, w);
    vstd::arithmetic::div_mod::lemma_mod_bound(i, w);
    assert(0 <= y < h) by (nonlinear_arith)
        requires
            i == w * y + x,
            0 <= x < w,
            0 <= i < w * h,
    ;
    assert(t == (h - 1 - y) * w + (w - 1 - x)) by (nonlinear_arith)
        requires
            t == w * h - 1 - i,
            i == w * y + x,
    ;
    vstd::arithmetic::div_mod::lemma_fundamental_div_mod_converse(t, w, h - 1 - y, w - 1 - x);
    let p = Place { width: w, height: h, x, y };
    assert(p.opposite() == Place { width: w, height: h, x: t % w, y: t / w });
    assert((3 * t + c) / 3 == t);
    lemma_strength_is_symmetric(v, p, rgb[k] as int);
}

/// Whether `a + b * sqrt(q)` is zero or above.
fn surd_sign(a: &BigInt, b: &BigInt, q: &BigInt) -> (r: bool)
    ensures
        r == surd_nonneg(a@, b@, q@),
{
    let a_neg: bool = a.is_negative();
    let b_neg: bool = b.is_negative();
    if !a_neg && !b_neg {
        true
    } else if a_neg && b_neg {
        false
    } else {
        let a2: BigInt = a.times(a);
        let b2q: BigInt = b.times(b).times(q);
        if a_neg {
            a2.at_most(&b2q)
        } else {
            b2q.at_most(&a2)
        }
    }
}

/// A number `(rational + radical * sqrt(q)) / den` in the making.
struct BigSurd {
    rational: BigInt,
    radical: BigInt,
    den: BigInt,
}

impl BigSurd {
    spec fn stands_for(self, s: Surd) -> bool {
        self.rational@ == s.rational && self.radical@ == s.radical && self.den@ == s.den
    }
}

/// What the pixel loop reads of the settings.
struct Shade {
    amount: i64,
    midpoint: i64,
    roundness: i64,
    feather: i64,
}

impl Shade {
    spec fn stands_for(self, v: Vignette) -> bool {
        &&& self.amount == v.amount
        &&& self.midpoint == v.midpoint
        &&& self.roundness == v.roundness
        &&& self.feather == v.feather
        &&& valid_vignette(v)
    }
}

fn limit(v: i64, lo: i64, hi: i64) -> (r: i64)
    requires
        lo <= hi,
    ensures
        r == limited(v as int, lo as int, hi as int),
{
    if v < lo {
        lo
    } else if v > hi {
        hi
    } else {
        v
    }
}

/// Distance of the centre of a pixel from the middle of its row or column, in
/// half pixels.
fn distance(position: u32, side: u32) -> (r: i64)
    ensures
        r == magnitude_of(2 * position + 1 - side),
        0 <= r <= 0x2_0000_0000,
{
    let d: i64 = 2 * (position as i64) + 1 - (side as i64);
    if d < 0 {
        -d
    } else {
        d
    }
}

/// The strength at the pixel `(x, y)` and the radicand that goes with it.
fn strength_at(s: &Shade, width: u32, height: u32, x: u32, y: u32, Ghost(v): Ghost<Vignette>) -> (r:
    (BigSurd, BigInt))
    requires
        s.stands_for(v),
    ensures
        r.0.stands_for(
            strength(v, Place { width: width as int, height: height as int, x: x as int, y: y as int }),
        ),
        r.1@ == (Place { width: width as int, height: height as int, x: x as int, y: y as int })
            .radicand(),
        r.1@ >= 0,
        r.0.den@ > 0,
{
    let ghost p = Place { width: width as int, height: height as int, x: x as int, y: y as int };
    proof {
        lemma_strength_den_positive(v, p);
    }
    let longest: i64 = if width >= height {
        width as i64
    } else {
        height as i64
    };
    let dx: i64 = distance(x, width);
    let dy: i64 = distance(y, height);
    let rect: i64 = if dx >= dy {
        dx
    } else {
        dy
    };
    let bx: BigInt = BigInt::from_i64(dx);
    let by: BigInt = BigInt::from_i64(dy);
    let q: BigInt = bx.times(&bx).plus(&by.times(&by));
    let a: BigInt = BigInt::from_i64(100 - s.roundness).times(&BigInt::from_i64(rect)).minus(
        &BigInt::from_i64(3 * s.midpoint).times(&BigInt::from_i64(longest)),
    );
    let b: BigInt = BigInt::from_i64(s.roundness + 100);
    let e: BigInt = BigInt::from_i64(2 * s.feather).times(&BigInt::from_i64(longest));
    assert(a@ == reach(v, p));
    assert(b@ == bend(v));
    assert(e@ == edge(v, p));
    let zero: BigInt = BigInt::from_i64(0);
    let one: BigInt = BigInt::from_i64(1);
    if !surd_sign(&a, &b, &q) {
        (BigSurd { rational: zero, radical: BigInt::from_i64(0), den: one }, q)
    } else if e.is_zero() || surd_sign(&a.minus(&e), &b, &q) {
        (BigSurd { rational: one, radical: zero, den: BigInt::from_i64(1) }, q)
    } else {
        let two: BigInt = BigInt::from_i64(2);
        let u: BigInt = a.times(&a).plus(&b.times(&b).times(&q));
        let w: BigInt = two.times(&a).times(&b);
        let g: BigInt = BigInt::from_i64(3).times(&e).minus(&two.times(&a));
        let h: BigInt = BigInt::from_i64(-2).times(&b);
        let rational: BigInt = u.times(&g).plus(&w.times(&h).times(&q));
        let radical: BigInt = u.times(&h).plus(&w.times(&g));
        let den: BigInt = e.times(&e).times(&e);
        (BigSurd { rational, radical, den }, q)
    }
}

/// The byte nearest to `(rational + radical * sqrt(q)) / den`.
fn quantize_surd(rational: &BigInt, radical: &BigInt, den: &BigInt, q: &BigInt) -> (r: u8)
    requires
        den@ > 0,
        q@ >= 0,
    ensures
        r as int == surd_byte(Surd { rational: rational@, radical: radical@, den: den@ }, q@),
{
    let ghost s = Surd { rational: rational@, radical: radical@, den: den@ };
    let twice: BigInt = rational.plus(rational);
    let slope: BigInt = radical.plus(radical);
    let mut lo: u16 = 0;
    let mut hi: u16 = 256;
    while hi - lo > 1
        invariant
            0 <= lo < hi <= 256,
            twice@ == 2 * s.rational,
            slope@ == 2 * s.radical,
            den@ == s.den,
            den@ > 0,
            q@ >= 0,
            lo == 0 || reaches(s, q@, lo as int),
            hi == 256 || !reaches(s, q@, hi as int),
        decreases hi - lo,
    {
        let mid: u16 = (lo + hi) / 2;
        let odd: BigInt = BigInt::from_i64(2 * (mid as i64) - 1);
        let a: BigInt = twice.minus(&odd.times(den));
        if surd_sign(&a, &slope, q) {
            lo = mid;
        } else {
            hi = mid;
        }
    }
    proof {
        lemma_surd_byte_bracket(s, q@, lo as int);
    }
    lo as u8
}

/// One channel under the strength `s`.
fn shade_channel(amount: i64, s: &BigSurd, q: &BigInt, c: u8, Ghost(st): Ghost<Surd>) -> (r: u8)
    requires
        -100 <= amount <= 100,
        s.stands_for(st),
        st.den > 0,
        q@ >= 0,
    ensures
        r as int == surd_byte(shaded(amount as int, st, c as int), q@),
{
    let hundred: BigInt = BigInt::from_i64(100);
    let den: BigInt = hundred.times(&s.den);
    let value: BigInt = BigInt::from_i64(c as i64);
    let base: BigInt = den.times(&value);
    proof {
        assert(100 * st.den > 0);
    }
    if amount < 0 {
        let weight: BigInt = value.times(&BigInt::from_i64(-amount));
        let rational: BigInt = base.minus(&weight.times(&s.rational));
        let radical: BigInt = weight.times(&s.radical).negated();
        quantize_surd(&rational, &radical, &den, q)
    } else {
        let weight: BigInt = BigInt::from_i64(255 - (c as i64)).times(&BigInt::from_i64(amount));
        let rational: BigInt = base.plus(&weight.times(&s.rational));
        let radical: BigInt = weight.times(&s.radical);
        quantize_surd(&rational, &radical, &den, q)
    }
}

/// The vignette of the given amount, midpoint, roundness and feather laid
/// over every pixel.
pub fn apply(img: Bitmap, amount: i32, midpoint: u32, roundness: i32, feather: u32) -> (out: Bitmap)
    ensures
        out@ == vignetted(
            img@,
            vignette_of(amount as int, midpoint as int, roundness as int, feather as int),
        ),
        out@.well_formed(),
{
    let ghost v = vignette_of(amount as int, midpoint as int, roundness as int, feather as int);
    let s: Shade = Shade {
        amount: limit(amount as i64, -100, 100),
        midpoint: limit(midpoint as i64, 0, 100),
        roundness: limit(roundness as i64, -100, 100),
        feather: limit(feather as i64, 0, 100),
    };
    let rgb: Vec<u8> = img.to_rgb8();
    let width: u32 = img.width();
    let height: u32 = img.height();
    let count: usize = img.pixel_count();
    let total: usize = rgb.len();
    let mut data: Vec<u8> = Vec::new();
    let mut i: usize = 0;
    while i < count
        invariant
            i <= count,
            total == 3 * count,
            rgb@.len() == total,
            data@.len() == 3 * i,
            count == width * height,
            s.stands_for(v),
            forall|k: int|
                0 <= k < 3 * i ==> data@[k] as int == vignetted_sample(
                    v,
                    width as int,
                    height as int,
                    rgb@,
                    k,
                ),
        decreases count - i,
    {
        assert(width > 0) by (nonlinear_arith)
            requires
                i < count,
                count == width * height,
                width >= 0,
        ;
        let x: usize = i % (width as usize);
        let y: usize = i / (width as usize);
        assert(y < height) by (nonlinear_arith)
            requires
                y == i as int / width as int,
                i < width * height,
                width > 0,
        ;
        let ghost place = Place {
            width: width as int,
            height: height as int,
            x: x as int,
            y: y as int,
        };
        let at: (BigSurd, BigInt) = strength_at(&s, width, height, x as u32, y as u32, Ghost(v));
        let r: u8 = shade_channel(s.amount, &at.0, &at.1, rgb[3 * i], Ghost(strength(v, place)));
        let g: u8 = shade_channel(s.amount, &at.0, &at.1, rgb[3 * i + 1], Ghost(strength(v, place)));
        let b: u8 = shade_channel(s.amount, &at.0, &at.1, rgb[3 * i + 2], Ghost(strength(v, place)));
        data.push(r);
        data.push(g);
        data.push(b);
        proof {
            let q = i as int;
            assert forall|k: int| 3 * q <= k < 3 * q + 3 implies data@[k] as int
                == vignetted_sample(v, width as int, height as int, rgb@, k) by {
                assert(k / 3 == q);
            }
        }
        i = i + 1;
    }
    proof {
        assert(data@ =~= vignetted(img@, v).data);
    }
    Bitmap::from_rgb8(width, height, data)
}

} // verus!
