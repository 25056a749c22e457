//! The smooth blending curve shared by the luminance-weighted transforms.
//!
//! `smoothblend(e0, e1, x)` brings `x` to `t = clamp((x - e0) / (e1 - e0), 0, 1)`
//! and returns `t * t * (3 - 2 * t)`. The edges and `x` are whole multiples of
//! one unit, whatever it is: the result depends on their ratios only. It is
//! returned as an exact fraction, `blend_num / blend_den`.
use vstd::prelude::*;

verus! {

/// Distance between the two edges.
pub open spec fn edge_width(e0: int, e1: int) -> int {
    if e1 >= e0 {
        e1 - e0
    } else {
        e0 - e1
    }
}

/// How far `x` has come from the first edge towards the second, limited to
/// the stretch between them.
pub open spec fn ramp(e0: int, e1: int, x: int) -> int {
    let w = edge_width(e0, e1);
    let d = if e1 >= e0 {
        x - e0
    } else {
        e0 - x
    };
    if d < 0 {
        0
    } else if d > w {
        w
    } else {
        d
    }
}

/// Numerator of the blend. Where the edges meet, the curve is a step: 0
/// below the edge, 1 from the edge on.
pub open spec fn blend_num(e0: int, e1: int, x: int) -> int {
    if e0 == e1 {
        if x < e0 {
            0
        } else {
            1
        }
    } else {
        let w = edge_width(e0, e1);
        let t = ramp(e0, e1, x);
        t * t * (3 * w - 2 * t)
    }
}

/// Denominator of the blend.
pub open spec fn blend_den(e0: int, e1: int) -> int {
    if e0 == e1 {
        1
    } else {
        let w = edge_width(e0, e1);
        w * w * w
    }
}

/// The cubic `t^2 (3 w - 2 t)` rises from 0 to `w^3` as `t` goes from 0 to `w`.
pub proof fn lemma_cubic_range(t: int, w: int)
    by (nonlinear_arith)
    requires
        0 <= t <= w,
    ensures
        0 <= t * t * (3 * w - 2 * t) <= w * w * w,
{
    assert(w * w * w - t * t * (3 * w - 2 * t) == (w - t) * (w - t) * (w + 2 * t));
    assert((w - t) * (w - t) >= 0);
    assert((w - t) * (w - t) * (w + 2 * t) >= 0);
    assert(t * t >= 0);
    assert(t * t * (3 * w - 2 * t) >= 0);
}

/// The cubic `t^2 (3 w - 2 t)` does not fall as `t` grows within `0..=w`.
pub proof fn lemma_cubic_monotone(s: int, t: int, w: int)
    by (nonlinear_arith)
    requires
        0 <= s <= t <= w,
    ensures
        s * s * (3 * w - 2 * s) <= t * t * (3 * w - 2 * t),
{
    assert(t * t * (3 * w - 2 * t) - s * s * (3 * w - 2 * s) == (t - s) * (3 * w * (t + s) - 2 * (t
        * t + t * s + s * s)));
    assert(w * (t + s) >= t * (t + s));
    assert(3 * w * (t + s) - 2 * (t * t + t * s + s * s) >= 3 * t * (t + s) - 2 * (t * t + t * s
        + s * s));
    assert(3 * t * (t + s) - 2 * (t * t + t * s + s * s) == (t - s) * (t + 2 * s));
    assert((t - s) * (t + 2 * s) >= 0);
    assert((t - s) * (3 * w * (t + s) - 2 * (t * t + t * s + s * s)) >= 0);
}

/// The blend is a fraction between 0 and 1.
pub proof fn lemma_blend_range(e0: int, e1: int, x: int)
    ensures
        blend_den(e0, e1) > 0,
        0 <= blend_num(e0, e1, x) <= blend_den(e0, e1),
{
    if e0 != e1 {
        let w = edge_width(e0, e1);
        lemma_cubic_range(ramp(e0, e1, x), w);
        assert(w * w * w > 0) by (nonlinear_arith)
            requires
                w > 0,
        ;
    }
}

/// The blend is 0 up to the first edge and 1 from the second edge on.
pub proof fn lemma_blend_ends(e0: int, e1: int, x: int)
    requires
        e0 < e1,
    ensures
        x <= e0 ==> blend_num(e0, e1, x) == 0,
        x >= e1 ==> blend_num(e0, e1, x) == blend_den(e0, e1),
{
    let w = e1 - e0;
    if x <= e0 {
        assert(0 * 0 * (3 * w - 2 * 0) == 0) by (nonlinear_arith);
    }
    if x >= e1 {
        assert(w * w * (3 * w - 2 * w) == w * w * w) by (nonlinear_arith);
    }
}

/// Between rising edges the blend does not fall as `x` grows.
pub proof fn lemma_blend_monotone(e0: int, e1: int, x: int, y: int)
    requires
        e0 < e1,
        x <= y,
    ensures
        blend_num(e0, e1, x) <= blend_num(e0, e1, y),
{
    lemma_cubic_monotone(ramp(e0, e1, x), ramp(e0, e1, y), e1 - e0);
}

/// The blend of `x` between the edges `e0` and `e1`, as numerator and
/// denominator.
pub fn smoothblend(e0: i32, e1: i32, x: i32) -> (r: (i128, i128))
    ensures
        r.0 == blend_num(e0 as int, e1 as int, x as int),
        r.1 == blend_den(e0 as int, e1 as int),
        0 <= r.0 <= r.1,
        0 < r.1,
{
    proof {
        lemma_blend_range(e0 as int, e1 as int, x as int);
    }
    if e0 == e1 {
        if x < e0 {
            (0, 1)
        } else {
            (1, 1)
        }
    } else {
        let w: i128 = if e1 >= e0 {
            e1 as i128 - e0 as i128
        } else {
            e0 as i128 - e1 as i128
        };
        let d: i128 = if e1 >= e0 {
            x as i128 - e0 as i128
        } else {
            e0 as i128 - x as i128
        };
        let t: i128 = if d < 0 {
            0
        } else if d > w {
            w
        } else {
            d
        };
        proof {
            assert(0 <= t * t <= w * w && w * w <= 0x1_0000_0000 * 0x1_0000_0000) by (nonlinear_arith)
                requires
                    0 <= t <= w,
                    w <= 0x1_0000_0000,
            ;
            assert(w * w * w <= 0x1_0000_0000 * 0x1_0000_0000 * 0x1_0000_0000) by (nonlinear_arith)
                requires
                    0 <= w <= 0x1_0000_0000,
            ;
            lemma_cubic_range(t as int, w as int);
        }
        let t2: i128 = t * t;
        let w2: i128 = w * w;
        (t2 * (3 * w - 2 * t), w2 * w)
    }
}

} // verus!
