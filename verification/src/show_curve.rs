//! A picture of the tone curve: the curve over a grid and the diagonal, with
//! its five control points, on a square of 256 pixels.
//!
//! Column `x` stands for the input `100 * x / 255`, row `y` for the output
//! `100 * (255 - y) / 255`: the origin is the lower left corner.
use crate::bitmap::{Bitmap, BitmapView, Layout};
use crate::curve::{
    control_ordinates, cubic_spline_coeffs, cubic_spline_eval, lemma_sample_magnitude,
    adjusted_ordinates, sample_denominator, spline_segments, spline_value, valid_ordinates, Segment,
};
use crate::rounding::{limited, quantize, to_byte};
use vstd::prelude::*;

verus! {

/// Side of the plot in pixels.
pub const PLOT_SIZE: u32 = 256;

/// The row of the curve in column `x`: the spline at the column's input,
/// kept within `0..=100`, on the plot's scale.
pub open spec fn curve_row(ys: Seq<u8>, x: int) -> int {
    let full = 100 * sample_denominator();
    let value = limited(spline_value(spline_segments(ys), 20 * x, 51), 0, full);
    to_byte(255 * (full - value), full)
}

/// The column of control point `i`.
pub open spec fn point_column(i: int) -> int {
    to_byte(255 * (25 * i), 100)
}

/// The row of control point `i`.
pub open spec fn point_row(ys: Seq<u8>, i: int) -> int {
    to_byte(255 * (100 - ys[i]), 100)
}

/// Whether the pixel lies within 3 pixels of control point `i`.
pub open spec fn near_point(ys: Seq<u8>, i: int, x: int, y: int) -> bool {
    let dx = x - point_column(i);
    let dy = y - point_row(ys, i);
    dx * dx + dy * dy <= 9
}

/// Whether the pixel lies on the disc of a control point.
pub open spec fn on_point(ys: Seq<u8>, x: int, y: int) -> bool {
    near_point(ys, 0, x, y) || near_point(ys, 1, x, y) || near_point(ys, 2, x, y) || near_point(
        ys,
        3,
        x,
        y,
    ) || near_point(ys, 4, x, y)
}

/// Whether the curve's mark of column `column` covers row `y`: the mark is
/// two pixels high, from the curve's row downwards.
pub open spec fn marks(ys: Seq<u8>, column: int, y: int) -> bool {
    curve_row(ys, column) == y || curve_row(ys, column) + 1 == y
}

/// Whether the pixel lies on the curve: the mark of a column is two pixels
/// wide, so a pixel is covered from its own column and from the one before.
pub open spec fn on_curve(ys: Seq<u8>, x: int, y: int) -> bool {
    marks(ys, x, y) || (x >= 1 && marks(ys, x - 1, y))
}

/// Whether the pixel lies on the diagonal of the untouched curve.
pub open spec fn on_diagonal(x: int, y: int) -> bool {
    x + y == 255
}

/// Whether the pixel lies on a grid line, at a quarter, a half or three
/// quarters of the plot.
pub open spec fn on_grid(x: int, y: int) -> bool {
    x == 64 || x == 128 || x == 192 || y == 64 || y == 128 || y == 192
}

/// The colour of the pixel: control points over the curve over the diagonal
/// over the grid over the background.
pub open spec fn shade(ys: Seq<u8>, x: int, y: int) -> (u8, u8, u8) {
    if on_point(ys, x, y) {
        (255u8, 100u8, 100u8)
    } else if on_curve(ys, x, y) {
        (255u8, 255u8, 255u8)
    } else if on_diagonal(x, y) {
        (80u8, 80u8, 80u8)
    } else if on_grid(x, y) {
        (60u8, 60u8, 60u8)
    } else {
        (30u8, 30u8, 30u8)
    }
}

/// Sample `k` of the plot.
pub open spec fn plot_sample(ys: Seq<u8>, k: int) -> u8 {
    let p = k / 3;
    let colour = shade(ys, p % 256, p / 256);
    if k % 3 == 0 {
        colour.0
    } else if k % 3 == 1 {
        colour.1
    } else {
        colour.2
    }
}

/// The plot of the curve through `ys`.
pub open spec fn plotted(ys: Seq<u8>) -> BitmapView {
    BitmapView {
        width: 256,
        height: 256,
        layout: Layout::Rgb,
        data: Seq::new(196608, |k: int| plot_sample(ys, k)),
    }
}

/// The rows of the curve, column by column.
fn curve_rows(ys: &[u8; 5]) -> (rows: [u8; 256])
    requires
        valid_ordinates(ys@),
    ensures
        forall|x: int| 0 <= x < 256 ==> rows[x] as int == curve_row(ys@, x),
{
    let coeffs: Vec<Segment> = cubic_spline_coeffs(ys);
    let mut rows: [u8; 256] = [0u8; 256];
    let mut x: usize = 0;
    while x < 256
        invariant
            x <= 256,
            coeffs@ == spline_segments(ys@),
            forall|j: int| 0 <= j < 4 ==> (#[trigger] coeffs@[j]).bounded(),
            forall|k: int| 0 <= k < x ==> rows[k] as int == curve_row(ys@, k),
        decreases 256 - x,
    {
        let v: i128 = cubic_spline_eval(&coeffs, 20 * (x as i64), 51);
        proof {
            lemma_sample_magnitude(coeffs@, x as int);
        }
        let full: i128 = 100 * (875000 * (51 * 51 * 51));
        let value: i128 = if v < 0 {
            0
        } else if v > full {
            full
        } else {
            v
        };
        let row: u8 = quantize(255 * (full - value), full);
        rows[x] = row;
        x = x + 1;
    }
    rows
}

/// Columns and rows of the five control points.
fn control_marks(ys: &[u8; 5]) -> (points: [(u8, u8); 5])
    requires
        valid_ordinates(ys@),
    ensures
        forall|i: int|
            0 <= i < 5 ==> (#[trigger] points[i]).0 as int == point_column(i) && points[i].1 as int
                == point_row(ys@, i),
{
    let mut points: [(u8, u8); 5] = [(0, 0); 5];
    let mut i: usize = 0;
    while i < 5
        invariant
            i <= 5,
            valid_ordinates(ys@),
            forall|k: int|
                0 <= k < i ==> (#[trigger] points[k]).0 as int == point_column(k) && points[k].1
                    as int == point_row(ys@, k),
        decreases 5 - i,
    {
        let column: u8 = quantize(255 * (25 * (i as i128)), 100);
        let row: u8 = quantize(255 * (100 - (ys[i] as i128)), 100);
        points[i] = (column, row);
        i = i + 1;
    }
    points
}

fn is_near(point: (u8, u8), x: u32, y: u32) -> (r: bool)
    requires
        x < 256,
        y < 256,
    ensures
        r == {
            let dx = x - point.0;
            let dy = y - point.1;
            dx * dx + dy * dy <= 9
        },
{
    let dx: i64 = (x as i64) - (point.0 as i64);
    let dy: i64 = (y as i64) - (point.1 as i64);
    assert(0 <= dx * dx <= 65536 && 0 <= dy * dy <= 65536) by (nonlinear_arith)
        requires
            -256 <= dx <= 256,
            -256 <= dy <= 256,
    ;
    dx * dx + dy * dy <= 9
}

/// The plot of the curve through the control points `ys`.
pub fn render_curve_plot(ys: &[u8; 5]) -> (out: Bitmap)
    requires
        valid_ordinates(ys@),
    ensures
        out@ == plotted(ys@),
        out@.well_formed(),
{
    let rows: [u8; 256] = curve_rows(ys);
    let points: [(u8, u8); 5] = control_marks(ys);
    let mut data: Vec<u8> = Vec::new();
    let mut p: u32 = 0;
    while p < 65536
        invariant
            p <= 65536,
            data@.len() == 3 * p,
            forall|x: int| 0 <= x < 256 ==> rows[x] as int == curve_row(ys@, x),
            forall|i: int|
                0 <= i < 5 ==> (#[trigger] points[i]).0 as int == point_column(i) && points[i].1
                    as int == point_row(ys@, i),
            forall|k: int| 0 <= k < 3 * p ==> data@[k] == plot_sample(ys@, k),
        decreases 65536 - p,
    {
        let x: u32 = p % 256;
        let y: u32 = p / 256;
        let row: u32 = rows[x as usize] as u32;
        let before: bool = x >= 1 && (rows[(x - 1) as usize] as u32 == y || rows[(x - 1) as usize]
            as u32 + 1 == y);
        let near: bool = is_near(points[0], x, y) || is_near(points[1], x, y) || is_near(
            points[2],
            x,
            y,
        ) || is_near(points[3], x, y) || is_near(points[4], x, y);
        assert(near == on_point(ys@, x as int, y as int));
        let colour: (u8, u8, u8) = if near {
            (255, 100, 100)
        } else if row == y || row + 1 == y || before {
            (255, 255, 255)
        } else if x + y == 255 {
            (80, 80, 80)
        } else if x == 64 || x == 128 || x == 192 || y == 64 || y == 128 || y == 192 {
            (60, 60, 60)
        } else {
            (30, 30, 30)
        };
        assert(colour == shade(ys@, x as int, y as int));
        data.push(colour.0);
        data.push(colour.1);
        data.push(colour.2);
        proof {
            let q = p as int;
            assert forall|k: int| 3 * q <= k < 3 * q + 3 implies data@[k] == plot_sample(ys@, k) by {
                assert(k / 3 == q);
            }
        }
        p = p + 1;
    }
    proof {
        assert(data@ =~= plotted(ys@).data);
    }
    Bitmap::from_rgb8(PLOT_SIZE, PLOT_SIZE, data)
}

/// The plot of the curve that the five adjustments give.
pub fn apply(darks: i32, middarks: i32, mids: i32, midhighlights: i32, highlights: i32) -> (out:
    Bitmap)
    ensures
        out@ == plotted(
            adjusted_ordinates(
                darks as int,
                middarks as int,
                mids as int,
                midhighlights as int,
                highlights as int,
            ),
        ),
        out@.well_formed(),
{
    let ys: [u8; 5] = control_ordinates(darks, middarks, mids, midhighlights, highlights);
    proof {
        assert(ys@ =~= adjusted_ordinates(
            darks as int,
            middarks as int,
            mids as int,
            midhighlights as int,
            highlights as int,
        ));
    }
    render_curve_plot(&ys)
}

} // verus!
