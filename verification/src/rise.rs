//! When the table of the tone curve rises.
//!
//! A natural spline through rising ordinates may overshoot and fall back, so
//! rising ordinates alone do not give a rising table. They do wherever the
//! curve itself, limited to the range `0..=100` of the ordinates, falls
//! nowhere; this module says when that is so and proves the table's rise
//! from it.
use crate::curve::{
    curvature, jerk, lemma_coefficients_bounded, lemma_spline_interpolates, lut_entry,
    sample_denominator, segment_of, slope, spline_segment, spline_segments, spline_value,
    valid_ordinates, Segment,
};
use crate::rounding::{lemma_to_byte_bracket, lemma_to_byte_monotone, limited, to_byte};
use vstd::prelude::*;

verus! {

/// A sample of the spline, limited to the range `0..=100` of the ordinates,
/// in units of `1 / sample_denominator()`.
pub open spec fn limited_sample(ys: Seq<u8>, i: int) -> int {
    limited(spline_value(spline_segments(ys), 20 * i, 51), 0, 100 * sample_denominator())
}

/// Limiting a sample before it is rounded changes nothing: what lies below 0
/// is stored as 0 and what lies above 100 as 255 either way.
pub proof fn lemma_lut_entry_of_limited_sample(ys: Seq<u8>, i: int)
    ensures
        lut_entry(ys, i) == to_byte(255 * limited_sample(ys, i), 100 * sample_denominator()),
{
    let n = spline_value(spline_segments(ys), 20 * i, 51);
    let d = 100 * sample_denominator();
    assert(d == 11606962500000);
    if n < 0 {
        assert(2 * (255 * n) < (2 * 0 + 1) * d && 2 * 0 < (2 * 0 + 1) * d) by (nonlinear_arith)
            requires
                n < 0,
                d > 0,
        ;
        lemma_to_byte_bracket(255 * n, d, 0);
        lemma_to_byte_bracket(0, d, 0);
    } else if n > d {
        assert((2 * 255 - 1) * d <= 2 * (255 * n) && (2 * 255 - 1) * d <= 2 * (255 * d))
            by (nonlinear_arith)
            requires
                n > d,
                d > 0,
        ;
        lemma_to_byte_bracket(255 * n, d, 255);
        lemma_to_byte_bracket(255 * d, d, 255);
    }
}

/// Where the limited spline does not fall from one sample to another, neither
/// does the table: scaling, rounding and clamping keep the order.
pub proof fn lemma_lut_keeps_order(ys: Seq<u8>, i: int, k: int)
    requires
        limited_sample(ys, i) <= limited_sample(ys, k),
    ensures
        lut_entry(ys, i) <= lut_entry(ys, k),
{
    lemma_lut_entry_of_limited_sample(ys, i);
    lemma_lut_entry_of_limited_sample(ys, k);
    lemma_to_byte_monotone(
        255 * limited_sample(ys, i),
        255 * limited_sample(ys, k),
        100 * sample_denominator(),
    );
}

/// The ordinates do not fall from one control point to the next.
pub open spec fn rising_ordinates(ys: Seq<u8>) -> bool {
    ys[0] <= ys[1] && ys[1] <= ys[2] && ys[2] <= ys[3] && ys[3] <= ys[4]
}

/// The middle one of the three Bernstein coefficients of the slope along
/// segment `j`, in units of `1 / 1400`; the first is `slope`, the last is
/// `end_slope`.
pub open spec fn middle_slope(ys: Seq<u8>, j: int) -> int {
    slope(ys, j) + 3 * curvature(ys, j)
}

/// Slope of the spline at the right end of segment `j`, in units of
/// `1 / 1400`.
pub open spec fn end_slope(ys: Seq<u8>, j: int) -> int {
    slope(ys, j) + 6 * curvature(ys, j) + 3 * jerk(ys, j)
}

/// The curve, limited to `0..=100`, falls nowhere on segment `j`.
///
/// The slope along a segment is a quadratic with the Bernstein coefficients
/// `e0`, `e1`, `e2`. Where it is zero or above at both ends, it is so
/// throughout if and only if `e1 >= 0` or `e1^2 <= e0 * e2`. Where the curve
/// leaves a control point downwards, it falls unless that point lies on the
/// floor, where the dip is cut off; where it arrives from above, it falls
/// unless the point it arrives at lies on the ceiling.
pub open spec fn segment_never_falls(ys: Seq<u8>, j: int) -> bool {
    let e0 = slope(ys, j);
    let e1 = middle_slope(ys, j);
    let e2 = end_slope(ys, j);
    &&& e0 >= 0 || ys[j] == 0
    &&& e2 >= 0 || ys[j + 1] == 100
    &&& e0 < 0 || e2 < 0 || e1 >= 0 || e1 * e1 <= e0 * e2
}

/// The curve, limited to `0..=100`, falls nowhere. A spline through rising
/// ordinates may overshoot and fall back; this says that it does not, but
/// for dips below 0 and swings above 100.
pub open spec fn never_falls(ys: Seq<u8>) -> bool {
    segment_never_falls(ys, 0) && segment_never_falls(ys, 1) && segment_never_falls(ys, 2)
        && segment_never_falls(ys, 3)
}

/// Weight of the first Bernstein coefficient of the slope in the rise from
/// the offset `u / 51` to `v / 51`.
pub open spec fn weight_first(u: int, v: int) -> int {
    (1275 - u) * (1275 - u) + (1275 - u) * (1275 - v) + (1275 - v) * (1275 - v)
}

/// Weight of the middle Bernstein coefficient.
pub open spec fn weight_middle(u: int, v: int) -> int {
    3825 * (u + v) - 2 * (u * u + u * v + v * v)
}

/// Weight of the last Bernstein coefficient.
pub open spec fn weight_last(u: int, v: int) -> int {
    u * u + u * v + v * v
}

/// Three times the mean slope between the offsets `u / 51` and `v / 51`, for
/// the Bernstein coefficients `e0`, `e1`, `e2`.
pub open spec fn mean_slope(e0: int, e1: int, e2: int, u: int, v: int) -> int {
    e0 * weight_first(u, v) + e1 * weight_middle(u, v) + e2 * weight_last(u, v)
}

proof fn lemma_scaled_difference(a: int, x: int, y: int)
    by (nonlinear_arith)
    ensures
        a * x - a * y == a * (x - y),
{
}

proof fn lemma_nonneg_product(a: int, b: int)
    by (nonlinear_arith)
    requires
        a >= 0,
        b >= 0,
    ensures
        a * b >= 0,
{
}

proof fn lemma_nonpos_product(a: int, b: int)
    by (nonlinear_arith)
    requires
        a <= 0,
        b <= 0,
    ensures
        a * b >= 0,
{
}

proof fn lemma_positive_factor(a: int, b: int)
    by (nonlinear_arith)
    requires
        a > 0,
        a * b >= 0,
    ensures
        b >= 0,
{
}

proof fn lemma_positive_product(a: int, b: int)
    by (nonlinear_arith)
    requires
        a > 0,
        a * b > 0,
    ensures
        b > 0,
{
}

proof fn lemma_square_order(a: int, t: int)
    by (nonlinear_arith)
    requires
        a >= 0,
        t >= 0,
        a * a >= t * t,
    ensures
        a >= t,
{
}

/// The value of a segment at the offset `t / 51`, its constants multiplied
/// out.
proof fn lemma_sample_value(seg: Segment, t: int)
    ensures
        seg.value(t, 51) == 116069625000 * seg.a + 1625625 * (seg.b * t) + 3825 * (seg.c * (t * t))
            + seg.d * (t * t * t),
{
    let a = seg.a as int;
    let b = seg.b as int;
    let c = seg.c as int;
    let d = seg.d as int;
    assert(875000 * a * (51 * 51 * 51) + 625 * b * t * (51 * 51) + 75 * c * (t * t) * 51 + d * (t
        * t * t) == 116069625000 * a + 1625625 * (b * t) + 3825 * (c * (t * t)) + d * (t * t * t))
        by (nonlinear_arith);
}

/// What the three weights add up to, and how they take up powers of the
/// offsets.
proof fn lemma_weight_sums(u: int, v: int)
    by (nonlinear_arith)
    ensures
        weight_first(u, v) + weight_middle(u, v) + weight_last(u, v) == 4876875,
        3 * weight_middle(u, v) + 6 * weight_last(u, v) == 11475 * (u + v),
        (v - u) * (u + v) == v * v - u * u,
        (v - u) * weight_last(u, v) == v * v * v - u * u * u,
{
}

/// Between offsets within a segment no weight is negative, and the middle
/// one is at most twice the geometric mean of the other two.
proof fn lemma_weight_signs(u: int, v: int)
    by (nonlinear_arith)
    requires
        0 <= u <= v <= 1275,
    ensures
        weight_first(u, v) >= 0,
        weight_middle(u, v) >= 0,
        weight_last(u, v) >= 0,
        4 * (weight_first(u, v) * weight_last(u, v)) - weight_middle(u, v) * weight_middle(u, v)
            == 4876875 * ((v - u) * (v - u)),
{
}

/// The rise of a segment between two offsets is their distance times the
/// mean slope between them.
pub proof fn lemma_rise_is_mean_slope(seg: Segment, u: int, v: int)
    ensures
        3 * (seg.value(v, 51) - seg.value(u, 51)) == (v - u) * mean_slope(
            seg.b as int,
            seg.b + 3 * seg.c,
            seg.b + 6 * seg.c + 3 * seg.d,
            u,
            v,
        ),
{
    let b = seg.b as int;
    let c = seg.c as int;
    let d = seg.d as int;
    let e0 = b;
    let e1 = b + 3 * c;
    let e2 = b + 6 * c + 3 * d;
    let j0 = weight_first(u, v);
    let j1 = weight_middle(u, v);
    let j2 = weight_last(u, v);
    let x = v - u;
    let s = u + v;
    let y = v * v - u * u;
    let z = v * v * v - u * u * u;
    lemma_weight_sums(u, v);
    lemma_sample_value(seg, u);
    lemma_sample_value(seg, v);
    lemma_scaled_difference(b, v, u);
    lemma_scaled_difference(c, v * v, u * u);
    lemma_scaled_difference(d, v * v * v, u * u * u);
    let rise = seg.value(v, 51) - seg.value(u, 51);
    assert(rise == 1625625 * (b * x) + 3825 * (c * y) + d * z);
    let total = mean_slope(e0, e1, e2, u, v);
    assert(total == b * (j0 + j1 + j2) + c * (3 * j1 + 6 * j2) + d * (3 * j2)) by (nonlinear_arith)
        requires
            total == e0 * j0 + e1 * j1 + e2 * j2,
            e0 == b,
            e1 == b + 3 * c,
            e2 == b + 6 * c + 3 * d,
    ;
    assert(b * (j0 + j1 + j2) == 4876875 * b) by (nonlinear_arith)
        requires
            j0 + j1 + j2 == 4876875,
    ;
    assert(c * (3 * j1 + 6 * j2) == 11475 * (c * s)) by (nonlinear_arith)
        requires
            3 * j1 + 6 * j2 == 11475 * s,
    ;
    assert(d * (3 * j2) == 3 * (d * j2)) by (nonlinear_arith);
    let cs = c * s;
    let dj = d * j2;
    assert(x * total == 4876875 * (b * x) + 11475 * (cs * x) + 3 * (dj * x)) by (nonlinear_arith)
        requires
            total == 4876875 * b + 11475 * cs + 3 * dj,
    ;
    assert(cs * x == c * y) by (nonlinear_arith)
        requires
            cs == c * s,
            x * s == y,
    ;
    assert(dj * x == d * z) by (nonlinear_arith)
        requires
            dj == d * j2,
            x * j2 == z,
    ;
}

/// A slope that is nowhere negative on the segment has no negative mean.
pub proof fn lemma_mean_of_steady_slope(e0: int, e1: int, e2: int, u: int, v: int)
    requires
        e0 >= 0,
        e2 >= 0,
        e1 >= 0 || e1 * e1 <= e0 * e2,
        0 <= u <= v <= 1275,
    ensures
        mean_slope(e0, e1, e2, u, v) >= 0,
{
    let j0 = weight_first(u, v);
    let j1 = weight_middle(u, v);
    let j2 = weight_last(u, v);
    lemma_weight_signs(u, v);
    lemma_nonneg_product(e0, j0);
    lemma_nonneg_product(e2, j2);
    if e1 >= 0 {
        lemma_nonneg_product(e1, j1);
    } else {
        let x = e0 * j0;
        let y = e2 * j2;
        let z = (-e1) * j1;
        lemma_nonneg_product(-e1, j1);
        let gap = (v - u) * (v - u);
        assert(gap >= 0) by (nonlinear_arith)
            requires
                gap == (v - u) * (v - u),
        ;
        assert(j1 * j1 <= 4 * (j0 * j2));
        lemma_nonneg_product(j0, j2);
        assert(z * z <= 4 * (x * y)) by (nonlinear_arith)
            requires
                x == e0 * j0,
                y == e2 * j2,
                z == (-e1) * j1,
                e1 * e1 <= e0 * e2,
                j1 * j1 <= 4 * (j0 * j2),
                j0 * j2 >= 0,
        {
            assert(z * z == (e1 * e1) * (j1 * j1));
            assert(x * y == (e0 * e2) * (j0 * j2));
            assert((e1 * e1) * (j1 * j1) <= (e1 * e1) * (4 * (j0 * j2)));
            assert((e1 * e1) * (j0 * j2) <= (e0 * e2) * (j0 * j2));
        }
        assert((x + y) * (x + y) >= 4 * (x * y)) by (nonlinear_arith)
        {
            assert((x + y) * (x + y) - 4 * (x * y) == (x - y) * (x - y));
        }
        lemma_square_order(x + y, z);
        assert(e1 * j1 == -z) by (nonlinear_arith)
            requires
                z == (-e1) * j1,
        ;
    }
}

/// How the weights of a stretch that starts at the left end of the segment
/// compare with those of a later stretch.
proof fn lemma_weights_after_start(u: int, v: int)
    by (nonlinear_arith)
    ensures
        weight_middle(0, u) * weight_first(u, v) - weight_middle(u, v) * weight_first(0, u) == -(
        3825 * (v * ((1275 - u) * (1275 - v) + 1275 * (2550 - u - v)))),
        weight_middle(0, u) * weight_last(u, v) - weight_middle(u, v) * weight_last(0, u) == 3825
            * (u * (v * v)),
        weight_middle(0, u) == u * (3825 - 2 * u),
{
}

/// How the weights of a stretch that ends at the right end of the segment
/// compare with those of an earlier stretch.
proof fn lemma_weights_before_end(u: int, v: int)
    by (nonlinear_arith)
    ensures
        weight_middle(v, 1275) * weight_first(u, v) - weight_middle(u, v) * weight_first(v, 1275)
            == 3825 * (((1275 - u) * (1275 - u)) * (1275 - v)),
        weight_middle(v, 1275) * weight_last(u, v) - weight_middle(u, v) * weight_last(v, 1275)
            == -(3825 * ((1275 - u) * (1275 * u + 1275 * v + u * v))),
        weight_middle(v, 1275) == (1275 - v) * (1275 + 2 * v),
{
}

proof fn lemma_cross_term(e: int, k1: int, j: int, j1: int, k: int)
    by (nonlinear_arith)
    ensures
        k1 * (e * j) - j1 * (e * k) == e * (k1 * j - j1 * k),
{
}

proof fn lemma_spread(a: int, x: int, y: int, z: int)
    by (nonlinear_arith)
    ensures
        a * (x + y + z) == a * x + a * y + a * z,
{
}

/// The mean slopes of two stretches, the second weighted against the first
/// so that the middle coefficient drops out.
proof fn lemma_weighed_means(
    e0: int,
    e1: int,
    e2: int,
    j0: int,
    j1: int,
    j2: int,
    k0: int,
    k1: int,
    k2: int,
)
    ensures
        k1 * (e0 * j0 + e1 * j1 + e2 * j2) - j1 * (e0 * k0 + e1 * k1 + e2 * k2) == e0 * (k1 * j0
            - j1 * k0) + e2 * (k1 * j2 - j1 * k2),
{
    lemma_spread(k1, e0 * j0, e1 * j1, e2 * j2);
    lemma_spread(j1, e0 * k0, e1 * k1, e2 * k2);
    lemma_cross_term(e0, k1, j0, j1, k0);
    lemma_cross_term(e1, k1, j1, j1, k1);
    lemma_cross_term(e2, k1, j2, j1, k2);
    assert(e1 * (k1 * j1 - j1 * k1) == 0) by (nonlinear_arith);
}

/// A slope that starts below zero and ends at or above it turns once: if the
/// mean slope from the left end up to `u` is above zero, the mean slope
/// from `u` on is not negative.
pub proof fn lemma_mean_after_dip(e0: int, e1: int, e2: int, u: int, v: int)
    requires
        e0 <= 0,
        e2 >= 0,
        0 < u <= v <= 1275,
        mean_slope(e0, e1, e2, 0, u) > 0,
    ensures
        mean_slope(e0, e1, e2, u, v) >= 0,
{
    let j0 = weight_first(u, v);
    let j1 = weight_middle(u, v);
    let j2 = weight_last(u, v);
    let k0 = weight_first(0, u);
    let k1 = weight_middle(0, u);
    let k2 = weight_last(0, u);
    let here = mean_slope(e0, e1, e2, u, v);
    let before = mean_slope(e0, e1, e2, 0, u);
    lemma_weight_signs(u, v);
    lemma_weights_after_start(u, v);
    lemma_weighed_means(e0, e1, e2, j0, j1, j2, k0, k1, k2);
    let a0 = k1 * j0 - j1 * k0;
    let a2 = k1 * j2 - j1 * k2;
    assert(a0 <= 0) by (nonlinear_arith)
        requires
            a0 == -(3825 * (v * ((1275 - u) * (1275 - v) + 1275 * (2550 - u - v)))),
            0 < u <= v <= 1275,
    ;
    assert(a2 >= 0) by (nonlinear_arith)
        requires
            a2 == 3825 * (u * (v * v)),
            0 < u <= v,
    ;
    assert(k1 > 0) by (nonlinear_arith)
        requires
            k1 == u * (3825 - 2 * u),
            0 < u <= 1275,
    ;
    lemma_nonpos_product(e0, a0);
    lemma_nonneg_product(e2, a2);
    lemma_nonneg_product(j1, before);
    assert(k1 * here >= 0);
    lemma_positive_factor(k1, here);
}

/// A slope that starts at or above zero and ends below it turns once: if the
/// mean slope from `v` to the right end is above zero, the mean slope up to
/// `v` is not negative.
pub proof fn lemma_mean_before_swing(e0: int, e1: int, e2: int, u: int, v: int)
    requires
        e0 >= 0,
        e2 <= 0,
        0 <= u <= v < 1275,
        mean_slope(e0, e1, e2, v, 1275) > 0,
    ensures
        mean_slope(e0, e1, e2, u, v) >= 0,
{
    let j0 = weight_first(u, v);
    let j1 = weight_middle(u, v);
    let j2 = weight_last(u, v);
    let k0 = weight_first(v, 1275);
    let k1 = weight_middle(v, 1275);
    let k2 = weight_last(v, 1275);
    let here = mean_slope(e0, e1, e2, u, v);
    let after = mean_slope(e0, e1, e2, v, 1275);
    lemma_weight_signs(u, v);
    lemma_weights_before_end(u, v);
    lemma_weighed_means(e0, e1, e2, j0, j1, j2, k0, k1, k2);
    let a0 = k1 * j0 - j1 * k0;
    let a2 = k1 * j2 - j1 * k2;
    assert(a0 >= 0) by (nonlinear_arith)
        requires
            a0 == 3825 * (((1275 - u) * (1275 - u)) * (1275 - v)),
            0 <= u <= v < 1275,
    ;
    assert(a2 <= 0) by (nonlinear_arith)
        requires
            a2 == -(3825 * ((1275 - u) * (1275 * u + 1275 * v + u * v))),
            0 <= u <= v < 1275,
    ;
    assert(k1 > 0) by (nonlinear_arith)
        requires
            k1 == (1275 - v) * (1275 + 2 * v),
            0 <= v < 1275,
    ;
    lemma_nonneg_product(e0, a0);
    lemma_nonpos_product(e2, a2);
    lemma_nonneg_product(j1, after);
    assert(k1 * here >= 0);
    lemma_positive_factor(k1, here);
}

/// The samples of a segment at its two ends are the ordinates of its control
/// points.
proof fn lemma_segment_ends(ys: Seq<u8>, j: int)
    requires
        valid_ordinates(ys),
        0 <= j <= 3,
    ensures
        spline_segment(ys, j).value(0, 51) == 116069625000 * ys[j],
        spline_segment(ys, j).value(1275, 51) == 116069625000 * ys[j + 1],
{
    lemma_spline_interpolates(ys, j);
    lemma_coefficients_bounded(ys, j);
    let s = spline_segment(ys, j);
    lemma_sample_value(s, 0);
    lemma_sample_value(s, 1275);
    assert(s.b * 0 == 0 && s.c * (0int * 0) == 0 && s.d * (0int * 0 * 0) == 0) by (nonlinear_arith);
    assert(s.value(25, 1) == 875000 * s.a + 15625 * s.b + 46875 * s.c + 15625 * s.d)
        by (nonlinear_arith);
    assert(1625625 * (s.b * 1275) + 3825 * (s.c * (1275int * 1275)) + s.d * (1275int * 1275 * 1275)
        == 132651 * (15625 * s.b + 46875 * s.c + 15625 * s.d)) by (nonlinear_arith);
}

/// On a segment where the limited curve falls nowhere, the limited value at
/// a later offset is not below the limited value at an earlier one.
pub proof fn lemma_segment_never_falls(ys: Seq<u8>, j: int, u: int, v: int)
    requires
        valid_ordinates(ys),
        rising_ordinates(ys),
        0 <= j <= 3,
        segment_never_falls(ys, j),
        0 <= u <= v <= 1275,
    ensures
        limited(spline_segment(ys, j).value(u, 51), 0, 100 * sample_denominator()) <= limited(
            spline_segment(ys, j).value(v, 51),
            0,
            100 * sample_denominator(),
        ),
{
    let seg = spline_segment(ys, j);
    let e0 = slope(ys, j);
    let e1 = middle_slope(ys, j);
    let e2 = end_slope(ys, j);
    let gu = seg.value(u, 51);
    let gv = seg.value(v, 51);
    lemma_coefficients_bounded(ys, j);
    lemma_segment_ends(ys, j);
    lemma_rise_is_mean_slope(seg, u, v);
    let here = mean_slope(e0, e1, e2, u, v);
    assert(3 * (gv - gu) == (v - u) * here);
    if e0 >= 0 && e2 >= 0 {
        lemma_mean_of_steady_slope(e0, e1, e2, u, v);
        lemma_nonneg_product(v - u, here);
    } else if e0 < 0 && e2 >= 0 {
        // the curve leaves the floor downwards
        assert(seg.value(0, 51) == 0);
        if gu > 0 {
            lemma_rise_is_mean_slope(seg, 0, u);
            let before = mean_slope(e0, e1, e2, 0, u);
            assert(u * before > 0);
            assert(u > 0) by (nonlinear_arith)
                requires
                    u >= 0,
                    u * before > 0,
            ;
            lemma_positive_product(u, before);
            lemma_mean_after_dip(e0, e1, e2, u, v);
            lemma_nonneg_product(v - u, here);
        }
    } else if e0 >= 0 && e2 < 0 {
        // the curve arrives at the ceiling from above
        assert(seg.value(1275, 51) == 100 * sample_denominator());
        if gv < 100 * sample_denominator() {
            lemma_rise_is_mean_slope(seg, v, 1275);
            let after = mean_slope(e0, e1, e2, v, 1275);
            assert((1275 - v) * after > 0);
            assert(v < 1275) by (nonlinear_arith)
                requires
                    v <= 1275,
                    (1275 - v) * after > 0,
            ;
            lemma_positive_product(1275 - v, after);
            lemma_mean_before_swing(e0, e1, e2, u, v);
            lemma_nonneg_product(v - u, here);
        }
    } else {
        // a segment from the floor to the ceiling leaves and arrives upwards
        assert(ys[j] == 0 && ys[j + 1] == 100);
        assert(false);
    }
}

/// Where the limited curve falls nowhere, its samples do not fall from one
/// entry of the table to a later one.
pub proof fn lemma_samples_never_fall(ys: Seq<u8>, i: int, k: int)
    requires
        valid_ordinates(ys),
        rising_ordinates(ys),
        never_falls(ys),
        0 <= i <= k < 256,
    ensures
        limited_sample(ys, i) <= limited_sample(ys, k),
{
    let ji = segment_of(20 * i, 51);
    let jk = segment_of(20 * k, 51);
    let ui = 20 * i - 25 * ji * 51;
    let uk = 20 * k - 25 * jk * 51;
    assert(spline_segments(ys)[ji] == spline_segment(ys, ji));
    assert(spline_segments(ys)[jk] == spline_segment(ys, jk));
    if ji == jk {
        lemma_segment_never_falls(ys, ji, ui, uk);
    } else {
        lemma_segment_never_falls(ys, ji, ui, 1275);
        lemma_segment_never_falls(ys, jk, 0, uk);
        lemma_segment_ends(ys, ji);
        lemma_segment_ends(ys, jk);
        assert(ys[ji + 1] <= ys[jk]);
    }
}

/// The table of a curve through rising ordinates does not fall, where the
/// curve itself, limited to `0..=100`, falls nowhere: a later entry is never
/// below an earlier one.
pub proof fn lemma_rising_curve_has_rising_table(ys: Seq<u8>, i: int, k: int)
    requires
        valid_ordinates(ys),
        rising_ordinates(ys),
        never_falls(ys),
        0 <= i <= k < 256,
    ensures
        lut_entry(ys, i) <= lut_entry(ys, k),
{
    lemma_samples_never_fall(ys, i, k);
    lemma_lut_keeps_order(ys, i, k);
}

} // verus!
