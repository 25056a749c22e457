//! The tone curve: a natural cubic spline through five control points,
//! sampled into a lookup table of 256 bytes.
//!
//! The control points stand at the inputs 0, 25, 50, 75 and 100; their
//! ordinates are whole numbers in `0..=100`. Over this fixed grid the spline's
//! coefficients are rational numbers with small fixed denominators, so the
//! curve is computed exactly in integers:
//!
//! * the second-derivative coefficient of knot `k` is `3 * curvature(k) / 35000`,
//! * the slope at the left end of segment `j` is `slope(j) / 1400`,
//! * the cubic coefficient of segment `j` is `jerk(j) / 875000`.
use crate::bitmap::{Bitmap, BitmapView, Layout};
use crate::rounding::{lemma_product_bound, lemma_to_byte_exact, quantize, to_byte};
use vstd::prelude::*;

verus! {

/// Ordinate of control point `k` after the user's adjustment: the point's
/// resting height `25 * k` moved by `adjust` and kept within `0..=100`.
pub open spec fn ordinate(k: int, adjust: int) -> int {
    let y = 25 * k + adjust;
    if y < 0 {
        0
    } else if y > 100 {
        100
    } else {
        y
    }
}

/// Five ordinates, each in `0..=100`.
pub open spec fn valid_ordinates(ys: Seq<u8>) -> bool {
    ys.len() == 5 && forall|k: int| 0 <= k < 5 ==> ys[k] <= 100
}

/// Second difference of the ordinates at the inner knot `k`.
pub open spec fn second_difference(ys: Seq<u8>, k: int) -> int {
    ys[k + 1] - 2 * ys[k] + ys[k - 1]
}

/// Curvature of the spline at knot `k`, in units of `3 / 35000`: the solution
/// of the tridiagonal system of the natural spline, zero at both ends.
pub open spec fn curvature(ys: Seq<u8>, k: int) -> int {
    let d1 = second_difference(ys, 1);
    let d2 = second_difference(ys, 2);
    let d3 = second_difference(ys, 3);
    if k == 1 {
        15 * d1 - 4 * d2 + d3
    } else if k == 2 {
        4 * (4 * d2 - d1 - d3)
    } else if k == 3 {
        15 * d3 - 4 * d2 + d1
    } else {
        0
    }
}

/// Slope of the spline at the left end of segment `j`, in units of `1 / 1400`.
pub open spec fn slope(ys: Seq<u8>, j: int) -> int {
    56 * (ys[j + 1] - ys[j]) - curvature(ys, j + 1) - 2 * curvature(ys, j)
}

/// Cubic coefficient of segment `j`, in units of `1 / 875000`.
pub open spec fn jerk(ys: Seq<u8>, j: int) -> int {
    curvature(ys, j + 1) - curvature(ys, j)
}

/// The polynomial of one segment: ordinate at its left end, then the
/// coefficients of the first three powers of the offset from that end, in
/// units of `1 / 1400`, `3 / 35000` and `1 / 875000`.
#[derive(Clone, Copy, PartialEq, Eq, Debug, Structural)]
pub struct Segment {
    pub a: i64,
    pub b: i64,
    pub c: i64,
    pub d: i64,
}

impl Segment {
    /// Value of the segment at the offset `t / q` from its left end, in units
    /// of `1 / (875000 * q^3)`.
    pub open spec fn value(self, t: int, q: int) -> int {
        875000 * self.a * (q * q * q) + 625 * self.b * t * (q * q) + 75 * self.c * (t * t) * q
            + self.d * (t * t * t)
    }

    /// First derivative at the whole offset `t`, in units of `1 / 875000`.
    pub open spec fn first_derivative(self, t: int) -> int {
        625 * self.b + 150 * self.c * t + 3 * self.d * (t * t)
    }

    /// Second derivative at the whole offset `t`, in units of `1 / 875000`.
    pub open spec fn second_derivative(self, t: int) -> int {
        150 * self.c + 6 * self.d * t
    }

    /// Coefficients small enough for `cubic_spline_eval`.
    pub open spec fn bounded(self) -> bool {
        &&& 0 <= self.a <= 255
        &&& -0x8000 <= self.b <= 0x8000
        &&& -0x8000 <= self.c <= 0x8000
        &&& -0x8000 <= self.d <= 0x8000
    }
}

/// Segment `j` of the natural spline through `ys`.
pub open spec fn spline_segment(ys: Seq<u8>, j: int) -> Segment {
    Segment {
        a: ys[j] as i64,
        b: slope(ys, j) as i64,
        c: curvature(ys, j) as i64,
        d: jerk(ys, j) as i64,
    }
}

/// The four segments of the natural spline through `ys`.
pub open spec fn spline_segments(ys: Seq<u8>) -> Seq<Segment> {
    Seq::new(4, |j: int| spline_segment(ys, j))
}

/// The segment that holds the input `p / q`: inputs at or below 0 fall to the
/// first segment, inputs at or above 100 to the last.
pub open spec fn segment_of(p: int, q: int) -> int {
    if p <= 0 {
        0
    } else if p >= 100 * q {
        3
    } else {
        p / (25 * q)
    }
}

/// The spline over `coeffs` at the input `p / q`, in units of
/// `1 / (875000 * q^3)`.
pub open spec fn spline_value(coeffs: Seq<Segment>, p: int, q: int) -> int {
    let j = segment_of(p, q);
    coeffs[j].value(p - 25 * j * q, q)
}

/// Denominator of the table's samples: inputs are multiples of `1 / 51`.
pub open spec fn sample_denominator() -> int {
    875000int * (51 * 51 * 51)
}

/// Entry `i` of the lookup table: the spline at the input `100 * i / 255`,
/// brought from the scale of 100 to the scale of 255 and stored as a byte.
pub open spec fn lut_entry(ys: Seq<u8>, i: int) -> int {
    to_byte(255 * spline_value(spline_segments(ys), 20 * i, 51), 100 * sample_denominator())
}

/// The curvatures solve the tridiagonal system of the natural spline: at each
/// inner knot, `c[k-1] + 4 c[k] + c[k+1] = 3 * second_difference / 25^2`.
pub proof fn lemma_curvature_solves_system(ys: Seq<u8>, k: int)
    requires
        ys.len() == 5,
        1 <= k <= 3,
    ensures
        curvature(ys, k - 1) + 4 * curvature(ys, k) + curvature(ys, k + 1) == 56
            * second_difference(ys, k),
        curvature(ys, 0) == 0,
        curvature(ys, 4) == 0,
{
}

/// The spline passes through the control points: each segment starts at its
/// own ordinate and ends at the next.
pub proof fn lemma_spline_interpolates(ys: Seq<u8>, j: int)
    requires
        valid_ordinates(ys),
        0 <= j <= 3,
    ensures
        spline_segment(ys, j).value(0, 1) == 875000 * ys[j],
        spline_segment(ys, j).value(25, 1) == 875000 * ys[j + 1],
{
    lemma_coefficients_bounded(ys, j);
    let s = spline_segment(ys, j);
    assert(s.value(0, 1) == 875000 * s.a) by (nonlinear_arith);
    assert(s.value(25, 1) == 875000 * s.a + 15625 * s.b + 46875 * s.c + 15625 * s.d)
        by (nonlinear_arith);
}

/// The spline is twice continuously differentiable at the inner knots, and
/// its second derivative vanishes at both ends.
pub proof fn lemma_spline_smooth(ys: Seq<u8>, j: int)
    requires
        valid_ordinates(ys),
        0 <= j <= 2,
    ensures
        spline_segment(ys, j).first_derivative(25) == spline_segment(ys, j + 1).first_derivative(
            0,
        ),
        spline_segment(ys, j).second_derivative(25) == spline_segment(
            ys,
            j + 1,
        ).second_derivative(0),
        spline_segment(ys, 0).second_derivative(0) == 0,
        spline_segment(ys, 3).second_derivative(25) == 0,
{
    lemma_coefficients_bounded(ys, 0);
    lemma_coefficients_bounded(ys, 1);
    lemma_coefficients_bounded(ys, 2);
    lemma_coefficients_bounded(ys, 3);
    let s = spline_segment(ys, j);
    let n = spline_segment(ys, j + 1);
    let last = spline_segment(ys, 3);
    assert(s.first_derivative(25) == 625 * s.b + 3750 * s.c + 1875 * s.d) by (nonlinear_arith);
    assert(n.first_derivative(0) == 625 * n.b) by (nonlinear_arith);
}

/// The coefficients of a spline through valid ordinates are small.
pub proof fn lemma_coefficients_bounded(ys: Seq<u8>, j: int)
    requires
        valid_ordinates(ys),
        0 <= j <= 3,
    ensures
        -4800 <= curvature(ys, j) <= 4800,
        -4800 <= curvature(ys, j + 1) <= 4800,
        -20000 <= slope(ys, j) <= 20000,
        -9600 <= jerk(ys, j) <= 9600,
        spline_segment(ys, j).bounded(),
        spline_segment(ys, j).a == ys[j],
        spline_segment(ys, j).b == slope(ys, j),
        spline_segment(ys, j).c == curvature(ys, j),
        spline_segment(ys, j).d == jerk(ys, j),
{
}

/// The ordinates of the untouched curve.
pub open spec fn resting_ordinates() -> Seq<u8> {
    seq![0u8, 25u8, 50u8, 75u8, 100u8]
}

/// With no adjustment the curve is the diagonal, and its table maps every
/// byte to itself.
pub proof fn lemma_identity_curve(i: int)
    requires
        0 <= i < 256,
    ensures
        adjusted_ordinates(0, 0, 0, 0, 0) == resting_ordinates(),
        lut_entry(resting_ordinates(), i) == i,
{
    let ys = resting_ordinates();
    assert(adjusted_ordinates(0, 0, 0, 0, 0) =~= ys);
    let j = segment_of(20 * i, 51);
    let t = 20 * i - 25 * j * 51;
    let seg = spline_segments(ys)[j];
    assert(valid_ordinates(ys));
    lemma_coefficients_bounded(ys, j);
    assert(seg.a == 25 * j && seg.b == 1400 && seg.c == 0 && seg.d == 0);
    assert(255 * seg.value(t, 51) == i * (100 * (875000 * (51 * 51 * 51)))) by (nonlinear_arith)
        requires
            seg.a == 25 * j,
            seg.b == 1400,
            seg.c == 0,
            seg.d == 0,
            t == 20 * i - 25 * j * 51,
    ;
    lemma_to_byte_exact(i, 100 * sample_denominator());
}

/// With no adjustment `apply` returns the pixels it was given.
pub proof fn lemma_identity_curve_keeps_pixels(img: BitmapView)
    requires
        img.well_formed(),
    ensures
        toned(img, 0, 0, 0, 0, 0).data == img.rgb_data(),
{
    let out = toned(img, 0, 0, 0, 0, 0).data;
    assert forall|k: int| 0 <= k < out.len() implies out[k] == img.rgb_data()[k] by {
        lemma_identity_curve(img.rgb_data()[k] as int);
    }
    assert(out =~= img.rgb_data());
}

/// The ordinates of the five control points for the five adjustments.
pub fn control_ordinates(
    darks: i32,
    middarks: i32,
    mids: i32,
    midhighlights: i32,
    highlights: i32,
) -> (ys: [u8; 5])
    ensures
        valid_ordinates(ys@),
        ys[0] == ordinate(0, darks as int),
        ys[1] == ordinate(1, middarks as int),
        ys[2] == ordinate(2, mids as int),
        ys[3] == ordinate(3, midhighlights as int),
        ys[4] == ordinate(4, highlights as int),
{
    [
        adjusted(0, darks),
        adjusted(25, middarks),
        adjusted(50, mids),
        adjusted(75, midhighlights),
        adjusted(100, highlights),
    ]
}

fn adjusted(base: u8, adjust: i32) -> (y: u8)
    requires
        base <= 100,
    ensures
        y <= 100,
        y as int == {
            let v = base + adjust;
            if v < 0 {
                0
            } else if v > 100 {
                100
            } else {
                v
            }
        },
{
    let v: i64 = base as i64 + adjust as i64;
    if v < 0 {
        0
    } else if v > 100 {
        100
    } else {
        v as u8
    }
}

/// The coefficients of the natural cubic spline through the control points.
pub fn cubic_spline_coeffs(ys: &[u8; 5]) -> (coeffs: Vec<Segment>)
    requires
        valid_ordinates(ys@),
    ensures
        coeffs@ == spline_segments(ys@),
        forall|j: int| 0 <= j < 4 ==> (#[trigger] coeffs@[j]).bounded(),
{
    let y0: i64 = ys[0] as i64;
    let y1: i64 = ys[1] as i64;
    let y2: i64 = ys[2] as i64;
    let y3: i64 = ys[3] as i64;
    let y4: i64 = ys[4] as i64;
    let d1: i64 = y2 - 2 * y1 + y0;
    let d2: i64 = y3 - 2 * y2 + y1;
    let d3: i64 = y4 - 2 * y3 + y2;
    let k0: i64 = 0;
    let k1: i64 = 15 * d1 - 4 * d2 + d3;
    let k2: i64 = 4 * (4 * d2 - d1 - d3);
    let k3: i64 = 15 * d3 - 4 * d2 + d1;
    let k4: i64 = 0;
    let mut coeffs: Vec<Segment> = Vec::new();
    coeffs.push(Segment { a: y0, b: 56 * (y1 - y0) - k1 - 2 * k0, c: k0, d: k1 - k0 });
    coeffs.push(Segment { a: y1, b: 56 * (y2 - y1) - k2 - 2 * k1, c: k1, d: k2 - k1 });
    coeffs.push(Segment { a: y2, b: 56 * (y3 - y2) - k3 - 2 * k2, c: k2, d: k3 - k2 });
    coeffs.push(Segment { a: y3, b: 56 * (y4 - y3) - k4 - 2 * k3, c: k3, d: k4 - k3 });
    proof {
        lemma_coefficients_bounded(ys@, 0);
        lemma_coefficients_bounded(ys@, 1);
        lemma_coefficients_bounded(ys@, 2);
        lemma_coefficients_bounded(ys@, 3);
        assert(coeffs@ =~= spline_segments(ys@));
    }
    coeffs
}

/// The spline over `coeffs` at the input `p / q`, as a numerator over
/// `875000 * q^3`.
pub fn cubic_spline_eval(coeffs: &Vec<Segment>, p: i64, q: i64) -> (v: i128)
    requires
        coeffs@.len() == 4,
        forall|j: int| 0 <= j < 4 ==> (#[trigger] coeffs@[j]).bounded(),
        0 < q <= 0x1_0000,
        -0x100_0000 <= p <= 0x100_0000,
    ensures
        v == spline_value(coeffs@, p as int, q as int),
{
    let j: usize = if p <= 0 {
        0
    } else if p >= 100 * q {
        3
    } else {
        (p / (25 * q)) as usize
    };
    assert(j <= 3 && j == segment_of(p as int, q as int)) by {
        if 0 < p < 100 * q {
            let pi: int = p as int;
            let qi: int = q as int;
            assert(pi / (25 * qi) <= 3 && pi / (25 * qi) >= 0) by (nonlinear_arith)
                requires
                    0 < pi < 100 * qi,
                    qi > 0,
            ;
        }
    }
    let seg: Segment = coeffs[j];
    assert(seg.bounded());
    assert(0 <= 25 * j * q <= 75 * 0x1_0000) by (nonlinear_arith)
        requires
            0 <= j <= 3,
            0 < q <= 0x1_0000,
    ;
    let t: i128 = p as i128 - 25 * (j as i128) * (q as i128);
    let qq: i128 = q as i128;
    proof {
        lemma_product_bound(qq as int, qq as int, 0x1_0000, 0x1_0000);
        lemma_product_bound(qq * qq, qq as int, 0x1_0000_0000, 0x1_0000);
        lemma_product_bound(t as int, t as int, 0x200_0000, 0x200_0000);
        lemma_product_bound(t * t, t as int, 0x4_0000_0000_0000, 0x200_0000);
        lemma_product_bound(875000 * seg.a, qq * qq * qq, (875000 * 255) as int, 0x1_0000_0000_0000);
        lemma_product_bound(625 * seg.b, t as int, (625 * 0x8000) as int, 0x200_0000);
        lemma_product_bound(625 * seg.b * t, qq * qq, (625 * 0x8000 * 0x200_0000) as int, 0x1_0000_0000);
        lemma_product_bound(75 * seg.c, t * t, (75 * 0x8000) as int, 0x4_0000_0000_0000);
        lemma_product_bound(75 * seg.c * (t * t), qq as int, (75 * 0x8000 * 0x4_0000_0000_0000) as int, 0x1_0000);
        lemma_product_bound(seg.d as int, t * t * t, 0x8000, (0x4_0000_0000_0000 * 0x200_0000) as int);
    }
    let q2: i128 = qq * qq;
    let q3: i128 = q2 * qq;
    let t2: i128 = t * t;
    let t3: i128 = t2 * t;
    875000 * (seg.a as i128) * q3 + 625 * (seg.b as i128) * t * q2 + 75 * (seg.c as i128) * t2 * qq
        + (seg.d as i128) * t3
}

/// The lookup table of the curve through `ys`.
pub fn build_curve_lut(ys: &[u8; 5]) -> (lut: [u8; 256])
    requires
        valid_ordinates(ys@),
    ensures
        forall|i: int| 0 <= i < 256 ==> lut[i] as int == lut_entry(ys@, i),
{
    let coeffs: Vec<Segment> = cubic_spline_coeffs(ys);
    let mut lut: [u8; 256] = [0u8; 256];
    let mut i: usize = 0;
    while i < 256
        invariant
            i <= 256,
            coeffs@ == spline_segments(ys@),
            forall|j: int| 0 <= j < 4 ==> (#[trigger] coeffs@[j]).bounded(),
            forall|k: int| 0 <= k < i ==> lut[k] as int == lut_entry(ys@, k),
        decreases 256 - i,
    {
        let v: i128 = cubic_spline_eval(&coeffs, 20 * (i as i64), 51);
        proof {
            lemma_sample_magnitude(coeffs@, i as int);
        }
        let entry: u8 = quantize(255 * v, 100 * (875000 * (51 * 51 * 51)));
        lut[i] = entry;
        i = i + 1;
    }
    lut
}

/// A sample of the table stays far inside the range of `quantize`.
pub proof fn lemma_sample_magnitude(coeffs: Seq<Segment>, i: int)
    requires
        coeffs.len() == 4,
        forall|j: int| 0 <= j < 4 ==> (#[trigger] coeffs[j]).bounded(),
        0 <= i < 256,
    ensures
        -0x1_0000_0000_0000_0000_0000 <= spline_value(coeffs, 20 * i, 51)
            <= 0x1_0000_0000_0000_0000_0000,
{
    let j = segment_of(20 * i, 51);
    let seg = coeffs[j];
    assert(seg.bounded());
    let t = 20 * i - 25 * j * 51;
    assert(-0x2000 <= t <= 0x2000);
    assert(-0x1_0000_0000_0000_0000_0000 <= seg.value(t, 51) <= 0x1_0000_0000_0000_0000_0000)
        by (nonlinear_arith)
        requires
            seg.bounded(),
            -0x2000 <= t <= 0x2000,
    ;
}

/// The curve of the five adjustments applied to every channel of every
/// pixel.
pub fn apply(
    img: Bitmap,
    darks: i32,
    middarks: i32,
    mids: i32,
    midhighlights: i32,
    highlights: i32,
) -> (out: Bitmap)
    ensures
        out@ == toned(
            img@,
            darks as int,
            middarks as int,
            mids as int,
            midhighlights as int,
            highlights as int,
        ),
        out@.well_formed(),
{
    let ys: [u8; 5] = control_ordinates(darks, middarks, mids, midhighlights, highlights);
    let lut: [u8; 256] = build_curve_lut(&ys);
    let rgb: Vec<u8> = img.to_rgb8();
    let width: u32 = img.width();
    let height: u32 = img.height();
    let n: usize = rgb.len();
    let mut data: Vec<u8> = Vec::new();
    let mut k: usize = 0;
    while k < n
        invariant
            k <= n,
            n == rgb@.len(),
            data@.len() == k,
            forall|i: int| 0 <= i < 256 ==> lut[i] as int == lut_entry(ys@, i),
            forall|i: int| 0 <= i < k ==> data@[i] as int == lut_entry(ys@, rgb@[i] as int),
        decreases n - k,
    {
        data.push(lut[rgb[k] as usize]);
        k = k + 1;
    }
    proof {
        assert(ys@ =~= adjusted_ordinates(
            darks as int,
            middarks as int,
            mids as int,
            midhighlights as int,
            highlights as int,
        ));
        assert(data@ =~= toned(
            img@,
            darks as int,
            middarks as int,
            mids as int,
            midhighlights as int,
            highlights as int,
        ).data);
    }
    Bitmap::from_rgb8(width, height, data)
}

/// The ordinates that the five adjustments give.
pub open spec fn adjusted_ordinates(
    darks: int,
    middarks: int,
    mids: int,
    midhighlights: int,
    highlights: int,
) -> Seq<u8> {
    seq![
        ordinate(0, darks) as u8,
        ordinate(1, middarks) as u8,
        ordinate(2, mids) as u8,
        ordinate(3, midhighlights) as u8,
        ordinate(4, highlights) as u8,
    ]
}

/// The bitmap that `apply` returns: an RGB bitmap of the same size, each
/// sample looked up in the table of the adjusted curve.
pub open spec fn toned(
    img: BitmapView,
    darks: int,
    middarks: int,
    mids: int,
    midhighlights: int,
    highlights: int,
) -> BitmapView {
    let ys = adjusted_ordinates(darks, middarks, mids, midhighlights, highlights);
    BitmapView {
        width: img.width,
        height: img.height,
        layout: Layout::Rgb,
        data: Seq::new(
            img.rgb_data().len(),
            |k: int| lut_entry(ys, img.rgb_data()[k] as int) as u8,
        ),
    }
}

} // verus!

