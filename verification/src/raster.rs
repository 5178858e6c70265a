//! Antialiased drawing on a `PixelCanvas`: Wu's line algorithm and a filled
//! circle with a two-pixel-wide fading edge.
//!
//! All positions are fixed-point values with sixteen fractional bits. What a
//! drawing call does to the canvas is stated as the sequence of blended
//! writes it performs (lines) or pixel by pixel (circles).

use vstd::prelude::*;
use crate::canvas::{blend, blend_at, hits, in_bounds, offset, plot_all, rgb, PixelCanvas, Plot};
use crate::fixed::{
    abs,
    abs_of,
    div_floor,
    floor_of,
    floor_px,
    floor_sqrt,
    fract,
    fract_of,
    isqrt,
    mul_fx,
    round_of,
    round_px,
    HALF,
    ONE,
};

verus! {

/// A line segment prepared for Wu's algorithm: `x` is the axis of greater
/// extent and runs from `x0` up to `x1`.
pub struct Span {
    /// Whether the roles of the two axes were exchanged.
    pub steep: bool,
    pub x0: int,
    pub y0: int,
    pub x1: int,
    pub y1: int,
}

/// Whether the segment's vertical extent exceeds its horizontal extent.
pub open spec fn is_steep(x0: int, y0: int, x1: int, y1: int) -> bool {
    abs(y1 - y0) > abs(x1 - x0)
}

/// The segment with its axes exchanged if it is steep, and then its two
/// endpoints exchanged if it would run right to left.
pub open spec fn span_of(x0: int, y0: int, x1: int, y1: int) -> Span {
    let steep = is_steep(x0, y0, x1, y1);
    let ax0 = if steep { y0 } else { x0 };
    let ay0 = if steep { x0 } else { y0 };
    let ax1 = if steep { y1 } else { x1 };
    let ay1 = if steep { x1 } else { y1 };
    if ax0 > ax1 {
        Span { steep, x0: ax1, y0: ay1, x1: ax0, y1: ay0 }
    } else {
        Span { steep, x0: ax0, y0: ay0, x1: ax1, y1: ay1 }
    }
}

/// Rise per unit of run, as a fixed-point value; 1 where the run is zero.
pub open spec fn slope(dx: int, dy: int) -> int {
    if dx == 0 {
        ONE as int
    } else {
        (dy * ONE) / dx
    }
}

/// The slope of a prepared segment.
pub open spec fn gradient(s: Span) -> int {
    slope(s.x1 - s.x0, s.y1 - s.y0)
}

/// Column of the first endpoint.
pub open spec fn first_col(s: Span) -> int {
    round_px(s.x0)
}

/// Height of the line at the first endpoint's column.
pub open spec fn first_y(s: Span) -> int {
    s.y0 + mul_fx(gradient(s), first_col(s) * ONE - s.x0)
}

/// Share of the first endpoint's column that the line covers.
pub open spec fn first_gap(s: Span) -> int {
    ONE - abs(s.x0 + HALF - first_col(s) * ONE)
}

/// Column of the second endpoint.
pub open spec fn last_col(s: Span) -> int {
    round_px(s.x1)
}

/// Height of the line at the second endpoint's column.
pub open spec fn last_y(s: Span) -> int {
    s.y1 + mul_fx(gradient(s), last_col(s) * ONE - s.x1)
}

/// Share of the second endpoint's column that the line covers.
pub open spec fn last_gap(s: Span) -> int {
    abs(s.x1 + HALF - last_col(s) * ONE)
}

/// Number of columns strictly between the two endpoint columns.
pub open spec fn inner_count(s: Span) -> int {
    if last_col(s) - first_col(s) - 1 > 0 {
        last_col(s) - first_col(s) - 1
    } else {
        0
    }
}

/// Height of the line at the `k`-th column after the first endpoint's.
pub open spec fn inner_y(s: Span, k: int) -> int {
    first_y(s) + gradient(s) * (k + 1)
}

/// A write at column `col` and row `row` of the prepared segment, mapped
/// back to canvas axes.
pub open spec fn oriented(steep: bool, col: int, row: int, alpha: int) -> Plot {
    if steep {
        Plot { x: row, y: col, alpha }
    } else {
        Plot { x: col, y: row, alpha }
    }
}

/// The write on the pixel that holds the line at height `y`: its coverage is
/// the part of `gap` not given to the pixel after it.
pub open spec fn upper(steep: bool, col: int, y: int, gap: int) -> Plot {
    oriented(steep, col, floor_px(y), mul_fx(ONE - fract(y), gap))
}

/// The write on the pixel next after the one that holds the line at height
/// `y`: its coverage is the fractional part of `y`, scaled by `gap`.
pub open spec fn lower(steep: bool, col: int, y: int, gap: int) -> Plot {
    oriented(steep, col, floor_px(y) + 1, mul_fx(fract(y), gap))
}

/// The write with index `j` among those between the endpoint columns: two for
/// each column, at full column coverage.
pub open spec fn inner_plot(s: Span, j: int) -> Plot {
    if j % 2 == 0 {
        upper(s.steep, first_col(s) + 1 + j / 2, inner_y(s, j / 2), ONE as int)
    } else {
        lower(s.steep, first_col(s) + 1 + j / 2, inner_y(s, j / 2), ONE as int)
    }
}

/// The blended writes of Wu's algorithm for the segment from `(x0, y0)` to
/// `(x1, y1)`, in the order in which they are made: two for the first
/// endpoint, two for the second, then two for each column in between.
pub open spec fn wu_plots(x0: int, y0: int, x1: int, y1: int) -> Seq<Plot> {
    let s = span_of(x0, y0, x1, y1);
    seq![
        upper(s.steep, first_col(s), first_y(s), first_gap(s)),
        lower(s.steep, first_col(s), first_y(s), first_gap(s)),
        upper(s.steep, last_col(s), last_y(s), last_gap(s)),
        lower(s.steep, last_col(s), last_y(s), last_gap(s)),
    ] + Seq::new((2 * inner_count(s)) as nat, |j: int| inner_plot(s, j))
}

/// Blending the first `n + 1` plots is blending the first `n` and then the
/// one after them.
pub proof fn lemma_plot_all_step(
    buf: Seq<u32>,
    w: int,
    h: int,
    color: u32,
    plots: Seq<Plot>,
    n: int,
)
    requires
        0 <= n < plots.len(),
    ensures
        plot_all(buf, w, h, color, plots.take(n + 1)) == blend_at(
            plot_all(buf, w, h, color, plots.take(n)),
            w,
            h,
            plots[n].x,
            plots[n].y,
            color,
            plots[n].alpha,
        ),
{
    assert(plots.take(n + 1).drop_last() =~= plots.take(n));
    assert(plots.take(n + 1).last() == plots[n]);
}

/// The slope of a segment whose rise does not exceed its run lies between
/// -1 and 1.
proof fn lemma_slope_range(dx: int, dy: int)
    requires
        0 <= dx,
        abs(dy) <= dx,
    ensures
        -ONE <= slope(dx, dy) <= ONE,
{
    if dx != 0 {
        let n: int = dy * ONE;
        vstd::arithmetic::div_mod::lemma_fundamental_div_mod(n, dx);
        vstd::arithmetic::div_mod::lemma_mod_bound(n, dx);
        let q: int = n / dx;
        let r: int = n % dx;
        assert(-65536 <= q <= 65536) by (nonlinear_arith)
            requires
                n == dx * q + r,
                0 <= r < dx,
                -65536 * dx <= n <= 65536 * dx,
        ;
    }
}

/// The coverages of the two writes for one column lie in `0..=ONE`.
proof fn lemma_pair_alpha(f: int, gap: int)
    requires
        0 <= f < ONE,
        0 <= gap <= ONE,
    ensures
        0 <= (ONE - f) * gap <= 65536 * 65536,
        0 <= f * gap <= 65536 * 65536,
        0 <= mul_fx(ONE - f, gap) <= ONE,
        0 <= mul_fx(f, gap) <= ONE,
        gap == ONE ==> mul_fx(ONE - f, gap) == ONE - f,
        gap == ONE ==> mul_fx(f, gap) == f,
{
    let e: int = ONE - f;
    assert(0 <= e * gap <= 65536 * 65536) by (nonlinear_arith)
        requires
            0 <= e <= 65536,
            0 <= gap <= 65536,
    ;
    assert(0 <= f * gap <= 65536 * 65536) by (nonlinear_arith)
        requires
            0 <= f <= 65536,
            0 <= gap <= 65536,
    ;
}

/// The writes of a segment that runs along its major axis at a whole
/// height: the slope is zero, and in every column between the endpoints the
/// pixel on the line is written at full coverage and the next one at none.
proof fn lemma_flat_plots(x0: int, y0: int, x1: int, y1: int, j: int)
    requires
        span_of(x0, y0, x1, y1).y0 == span_of(x0, y0, x1, y1).y1,
        span_of(x0, y0, x1, y1).x0 < span_of(x0, y0, x1, y1).x1,
        fract(span_of(x0, y0, x1, y1).y0) == 0,
        0 <= j < 2 * inner_count(span_of(x0, y0, x1, y1)),
    ensures
        wu_plots(x0, y0, x1, y1).len() == 4 + 2 * inner_count(span_of(x0, y0, x1, y1)),
        wu_plots(x0, y0, x1, y1)[4 + j] == oriented(
            span_of(x0, y0, x1, y1).steep,
            first_col(span_of(x0, y0, x1, y1)) + 1 + j / 2,
            floor_px(span_of(x0, y0, x1, y1).y0) + j % 2,
            if j % 2 == 0 {
                ONE as int
            } else {
                0
            },
        ),
{
    let s = span_of(x0, y0, x1, y1);
    let dx: int = s.x1 - s.x0;
    assert((0 * ONE) / dx == 0) by (nonlinear_arith)
        requires
            dx > 0,
    ;
    assert(gradient(s) == 0);
    let off: int = first_col(s) * ONE - s.x0;
    assert(0 * off == 0);
    assert(first_y(s) == s.y0);
    assert(0 * (j / 2 + 1) == 0);
    assert(inner_y(s, j / 2) == s.y0);
    assert(wu_plots(x0, y0, x1, y1)[4 + j] == inner_plot(s, j));
}

/// The endpoint writes of a segment lie in the endpoint columns.
proof fn lemma_endpoint_plots(x0: int, y0: int, x1: int, y1: int, i: int)
    requires
        0 <= i < 4,
    ensures
        ({
            let s = span_of(x0, y0, x1, y1);
            let p = wu_plots(x0, y0, x1, y1)[i];
            let c = if i < 2 {
                first_col(s)
            } else {
                last_col(s)
            };
            if s.steep {
                p.y == c
            } else {
                p.x == c
            }
        }),
{
}

/// What a flat segment at a whole height leaves in a column strictly
/// between its endpoint columns: the colour itself on the line, and every
/// other pixel's own colour. `col` counts along the segment and `row` across
/// it.
proof fn lemma_flat_line(
    buf: Seq<u32>,
    w: int,
    h: int,
    x0: int,
    y0: int,
    x1: int,
    y1: int,
    color: u32,
    col: int,
    row: int,
)
    requires
        buf.len() == w * h,
        span_of(x0, y0, x1, y1).y0 == span_of(x0, y0, x1, y1).y1,
        span_of(x0, y0, x1, y1).x0 < span_of(x0, y0, x1, y1).x1,
        fract(span_of(x0, y0, x1, y1).y0) == 0,
        first_col(span_of(x0, y0, x1, y1)) < col < last_col(span_of(x0, y0, x1, y1)),
        in_bounds(w, h, oriented(span_of(x0, y0, x1, y1).steep, col, row, 0).x, oriented(span_of(x0, y0, x1, y1).steep, col, row, 0).y),
    ensures
        plot_all(buf, w, h, color, wu_plots(x0, y0, x1, y1))[offset(
            w,
            oriented(span_of(x0, y0, x1, y1).steep, col, row, 0).x,
            oriented(span_of(x0, y0, x1, y1).steep, col, row, 0).y,
        )] == if row == floor_px(span_of(x0, y0, x1, y1).y0) {
            rgb(color)
        } else if row == floor_px(span_of(x0, y0, x1, y1).y0) + 1 {
            rgb(
                buf[offset(
                    w,
                    oriented(span_of(x0, y0, x1, y1).steep, col, row, 0).x,
                    oriented(span_of(x0, y0, x1, y1).steep, col, row, 0).y,
                )],
            )
        } else {
            buf[offset(
                w,
                oriented(span_of(x0, y0, x1, y1).steep, col, row, 0).x,
                oriented(span_of(x0, y0, x1, y1).steep, col, row, 0).y,
            )]
        },
{
    let s = span_of(x0, y0, x1, y1);
    let plots = wu_plots(x0, y0, x1, y1);
    let px: int = oriented(s.steep, col, row, 0).x;
    let py: int = oriented(s.steep, col, row, 0).y;
    let line: int = floor_px(s.y0);
    let k: int = col - first_col(s) - 1;
    assert(0 <= k < inner_count(s));
    lemma_flat_plots(x0, y0, x1, y1, 2 * k);
    lemma_flat_plots(x0, y0, x1, y1, 2 * k + 1);
    assert((2 * k) / 2 == k && (2 * k) % 2 == 0 && (2 * k + 1) / 2 == k && (2 * k + 1) % 2 == 1);
    assert forall|i: int| 0 <= i < plots.len() implies (hits(#[trigger] plots[i], px, py) <==> (
    row == line && i == 4 + 2 * k) || (row == line + 1 && i == 4 + 2 * k + 1)) by {
        if i < 4 {
            lemma_endpoint_plots(x0, y0, x1, y1, i);
        } else {
            lemma_flat_plots(x0, y0, x1, y1, i - 4);
            let j: int = i - 4;
            assert(j == 2 * (j / 2) + j % 2);
        }
    }
    crate::canvas::lemma_offset_in_range(w, h, px, py);
    if row == line {
        let at: int = 4 + 2 * k;
        crate::canvas::lemma_plot_all_last_hit(buf, w, h, color, plots, at, px, py);
        crate::canvas::lemma_blend_extremes(
            color,
            plot_all(buf, w, h, color, plots.take(at))[offset(w, px, py)],
        );
    } else if row == line + 1 {
        let at: int = 4 + 2 * k + 1;
        crate::canvas::lemma_plot_all_last_hit(buf, w, h, color, plots, at, px, py);
        let before = plots.take(at);
        assert forall|i: int| 0 <= i < before.len() implies !hits(#[trigger] before[i], px, py) by {
            assert(before[i] == plots[i]);
        }
        crate::canvas::lemma_plot_all_untouched(buf, w, h, color, before, px, py);
        crate::canvas::lemma_blend_extremes(color, buf[offset(w, px, py)]);
    } else {
        crate::canvas::lemma_plot_all_untouched(buf, w, h, color, plots, px, py);
    }
}

/// A horizontal line at a whole height is, between its two endpoint
/// columns, a run one pixel high of exactly the line's colour. The pixel
/// under each pixel of the run is written at no coverage and keeps its
/// colour, and no other pixel of those columns is written.
pub proof fn lemma_horizontal_line(
    buf: Seq<u32>,
    w: int,
    h: int,
    x0: int,
    x1: int,
    y: int,
    color: u32,
    col: int,
    row: int,
)
    requires
        buf.len() == w * h,
        fract(y) == 0,
        x0 != x1,
        round_px(if x0 < x1 { x0 } else { x1 }) < col < round_px(if x0 < x1 { x1 } else { x0 }),
        in_bounds(w, h, col, row),
    ensures
        plot_all(buf, w, h, color, wu_plots(x0, y, x1, y))[offset(w, col, row)] == if row
            == floor_px(y) {
            rgb(color)
        } else if row == floor_px(y) + 1 {
            rgb(buf[offset(w, col, row)])
        } else {
            buf[offset(w, col, row)]
        },
{
    lemma_flat_line(buf, w, h, x0, y, x1, y, color, col, row);
}

/// A vertical line at a whole column is, between its two endpoint rows, a
/// run one pixel wide of exactly the line's colour. The pixel to the right
/// of each pixel of the run is written at no coverage and keeps its colour,
/// and no other pixel of those rows is written.
pub proof fn lemma_vertical_line(
    buf: Seq<u32>,
    w: int,
    h: int,
    x: int,
    y0: int,
    y1: int,
    color: u32,
    col: int,
    row: int,
)
    requires
        buf.len() == w * h,
        fract(x) == 0,
        y0 != y1,
        round_px(if y0 < y1 { y0 } else { y1 }) < row < round_px(if y0 < y1 { y1 } else { y0 }),
        in_bounds(w, h, col, row),
    ensures
        plot_all(buf, w, h, color, wu_plots(x, y0, x, y1))[offset(w, col, row)] == if col
            == floor_px(x) {
            rgb(color)
        } else if col == floor_px(x) + 1 {
            rgb(buf[offset(w, col, row)])
        } else {
            buf[offset(w, col, row)]
        },
{
    lemma_flat_line(buf, w, h, x, y0, x, y1, color, row, col);
}

/// Squared distance from the pixel `(px, py)` to the centre `(cx, cy)`.
pub open spec fn dist_sq(px: int, py: int, cx: int, cy: int) -> int {
    (px * ONE - cx) * (px * ONE - cx) + (py * ONE - cy) * (py * ONE - cy)
}

/// Coverage of a pixel at squared distance `d2` from the centre of a circle:
/// nothing beyond `radius + 1`, full up to `radius - 1`, and in between
/// falling linearly from full as the distance passes `radius - 1`, reaching
/// zero one pixel further out.
pub open spec fn disc_alpha(d2: int, radius: int) -> Option<int> {
    if d2 > (radius + ONE) * (radius + ONE) {
        None
    } else if radius >= ONE && d2 <= (radius - ONE) * (radius - ONE) {
        Some(ONE as int)
    } else {
        let t = floor_sqrt(d2 as nat) - (radius - ONE);
        Some(
            ONE - if t < ONE {
                t
            } else {
                ONE as int
            },
        )
    }
}

/// What a circle makes of the pixel `(px, py)` that held `before`.
pub open spec fn disc_pixel(
    before: u32,
    px: int,
    py: int,
    cx: int,
    cy: int,
    radius: int,
    color: u32,
) -> u32 {
    match disc_alpha(dist_sq(px, py, cx, cy), radius) {
        Some(alpha) => blend(color, before, alpha),
        None => before,
    }
}

/// The buffer of a canvas of width `w` with a circle drawn on it: every
/// pixel is what `disc_pixel` makes of it.
pub open spec fn paint_circle(
    buf: Seq<u32>,
    w: int,
    cx: int,
    cy: int,
    radius: int,
    color: u32,
) -> Seq<u32> {
    Seq::new(buf.len(), |i: int| disc_pixel(buf[i], i % w, i / w, cx, cy, radius, color))
}

/// Whether every pixel of `after` is what `disc_pixel` makes of the same
/// pixel of `before`.
pub open spec fn circle_drawn(
    before: Seq<u32>,
    after: Seq<u32>,
    w: int,
    h: int,
    cx: int,
    cy: int,
    radius: int,
    color: u32,
) -> bool {
    &&& after.len() == before.len()
    &&& forall|x: int, y: int|
        in_bounds(w, h, x, y) ==> after[#[trigger] offset(w, x, y)] == disc_pixel(
            before[offset(w, x, y)],
            x,
            y,
            cx,
            cy,
            radius,
            color,
        )
}

/// Whether the pixel `(x, y)` lies in the rows `y_lo..y_end` and the columns
/// `x_lo..=x_hi`, or in row `y_end` and the columns `x_lo..x_end`.
pub open spec fn swept(
    x: int,
    y: int,
    x_lo: int,
    x_hi: int,
    y_lo: int,
    y_end: int,
    x_end: int,
) -> bool {
    x_lo <= x <= x_hi && ((y_lo <= y < y_end) || (y == y_end && x < x_end))
}

/// A pixel whose column is more than `reach` away from the centre lies
/// outside the circle's outer edge.
proof fn lemma_far_column(px: int, py: int, cx: int, cy: int, radius: int)
    requires
        0 <= radius,
        px < floor_px(cx - radius - ONE) || px > floor_px(cx + radius + ONE),
    ensures
        disc_alpha(dist_sq(px, py, cx, cy), radius) is None,
        disc_alpha(dist_sq(py, px, cy, cx), radius) is None,
{
    let reach: int = radius + ONE;
    let dx: int = px * ONE - cx;
    let dy: int = py * ONE - cy;
    assert(dx < -reach || dx > reach);
    assert(dx * dx > reach * reach) by (nonlinear_arith)
        requires
            dx < -reach || dx > reach,
            reach >= 0,
    ;
    assert(dy * dy >= 0) by (nonlinear_arith);
}

/// The coverage of a pixel of the circle lies in `0..=ONE`.
proof fn lemma_disc_alpha_range(d2: int, radius: int)
    requires
        0 <= d2,
        0 <= radius,
    ensures
        disc_alpha(d2, radius) is Some ==> 0 <= disc_alpha(d2, radius)->0 <= ONE,
        !(radius >= ONE && d2 <= (radius - ONE) * (radius - ONE)) ==> floor_sqrt(d2 as nat)
            >= radius - ONE,
{
    crate::fixed::lemma_floor_sqrt(d2 as nat);
    let d: int = floor_sqrt(d2 as nat) as int;
    let inner: int = radius - ONE;
    if !(radius >= ONE && d2 <= inner * inner) {
        if radius >= ONE && d < inner {
            assert((d + 1) * (d + 1) <= inner * inner) by (nonlinear_arith)
                requires
                    0 <= d,
                    d + 1 <= inner,
            ;
        }
    }
}

impl PixelCanvas {
    /// Blends the two writes for one column of a line at height `y`.
    fn plot_pair(&mut self, steep: bool, col: i32, y: i64, gap: i64, color: u32)
        requires
            old(self).wf(),
            0 <= gap <= ONE,
            -0x4000_0000_0000 <= y <= 0x4000_0000_0000,
        ensures
            final(self).wf(),
            final(self).same_size(old(self)),
            final(self)@ == blend_at(
                blend_at(
                    old(self)@,
                    old(self).spec_width(),
                    old(self).spec_height(),
                    upper(steep, col as int, y as int, gap as int).x,
                    upper(steep, col as int, y as int, gap as int).y,
                    color,
                    upper(steep, col as int, y as int, gap as int).alpha,
                ),
                old(self).spec_width(),
                old(self).spec_height(),
                lower(steep, col as int, y as int, gap as int).x,
                lower(steep, col as int, y as int, gap as int).y,
                color,
                lower(steep, col as int, y as int, gap as int).alpha,
            ),
    {
        let row: i64 = floor_of(y);
        let f: i64 = fract_of(y);
        proof {
            lemma_pair_alpha(f as int, gap as int);
        }
        let near: i64 = ((65536 - f) * gap) / 65536;
        let far: i64 = (f * gap) / 65536;
        if steep {
            self.draw_pixel_aa(row as i32, col, color, near as u32);
            self.draw_pixel_aa((row + 1) as i32, col, color, far as u32);
        } else {
            self.draw_pixel_aa(col, row as i32, color, near as u32);
            self.draw_pixel_aa(col, (row + 1) as i32, color, far as u32);
        }
    }

    /// Draws the segment from `(x0, y0)` to `(x1, y1)` with Wu's algorithm:
    /// one pixel thick, each column's coverage split between the two pixels
    /// nearest the line.
    pub fn draw_line_aa(&mut self, x0: i32, y0: i32, x1: i32, y1: i32, color: u32)
        requires
            old(self).wf(),
        ensures
            final(self).wf(),
            final(self).same_size(old(self)),
            final(self)@ == plot_all(
                old(self)@,
                old(self).spec_width(),
                old(self).spec_height(),
                color,
                wu_plots(x0 as int, y0 as int, x1 as int, y1 as int),
            ),
    {
        let ghost w: int = self.spec_width();
        let ghost h: int = self.spec_height();
        let ghost s: Span = span_of(x0 as int, y0 as int, x1 as int, y1 as int);
        let ghost plots: Seq<Plot> = wu_plots(x0 as int, y0 as int, x1 as int, y1 as int);
        let steep: bool = abs_of(y1 as i64 - y0 as i64) > abs_of(x1 as i64 - x0 as i64);
        let ax0: i64 = if steep { y0 as i64 } else { x0 as i64 };
        let ay0: i64 = if steep { x0 as i64 } else { y0 as i64 };
        let ax1: i64 = if steep { y1 as i64 } else { x1 as i64 };
        let ay1: i64 = if steep { x1 as i64 } else { y1 as i64 };
        let flip: bool = ax0 > ax1;
        let bx0: i64 = if flip { ax1 } else { ax0 };
        let by0: i64 = if flip { ay1 } else { ay0 };
        let bx1: i64 = if flip { ax0 } else { ax1 };
        let by1: i64 = if flip { ay0 } else { ay1 };
        assert(s == Span { steep, x0: bx0 as int, y0: by0 as int, x1: bx1 as int, y1: by1 as int });
        let dx: i64 = bx1 - bx0;
        let dy: i64 = by1 - by0;
        proof {
            lemma_slope_range(dx as int, dy as int);
        }
        let slope: i64 = if dx == 0 {
            65536
        } else {
            div_floor(dy * 65536, dx)
        };
        assert(slope == gradient(s));

        let col1: i64 = round_of(bx0 as i32);
        let off1: i64 = col1 * 65536 - bx0;
        proof {
            assert(-0x8000_0000 <= (slope as int) * (off1 as int) <= 0x8000_0000) by (nonlinear_arith)
                requires
                    -65536 <= slope <= 65536,
                    -32768 <= off1 <= 32768,
            ;
        }
        let y_first: i64 = by0 + floor_of(slope * off1);
        let gap1: i64 = 65536 - abs_of(bx0 + 32768 - col1 * 65536);
        assert(y_first == first_y(s));
        assert(gap1 == first_gap(s));
        assert(plots.len() == 4 + 2 * inner_count(s));
        assert(plots.take(0) =~= Seq::<Plot>::empty());
        proof {
            lemma_plot_all_step(old(self)@, w, h, color, plots, 0);
            lemma_plot_all_step(old(self)@, w, h, color, plots, 1);
        }
        self.plot_pair(steep, col1 as i32, y_first, gap1, color);
        assert(self@ == plot_all(old(self)@, w, h, color, plots.take(2)));

        let col2: i64 = round_of(bx1 as i32);
        let off2: i64 = col2 * 65536 - bx1;
        proof {
            assert(-0x8000_0000 <= (slope as int) * (off2 as int) <= 0x8000_0000) by (nonlinear_arith)
                requires
                    -65536 <= slope <= 65536,
                    -32768 <= off2 <= 32768,
            ;
        }
        let y_last: i64 = by1 + floor_of(slope * off2);
        let gap2: i64 = abs_of(bx1 + 32768 - col2 * 65536);
        assert(y_last == last_y(s));
        assert(gap2 == last_gap(s));
        proof {
            lemma_plot_all_step(old(self)@, w, h, color, plots, 2);
            lemma_plot_all_step(old(self)@, w, h, color, plots, 3);
        }
        self.plot_pair(steep, col2 as i32, y_last, gap2, color);
        assert(self@ == plot_all(old(self)@, w, h, color, plots.take(4)));

        let mut x: i64 = col1 + 1;
        let mut y_run: i64 = y_first + slope;
        let ghost mut k: int = 0;
        assert((slope as int) * (0 + 1) == slope) by (nonlinear_arith);
        while x < col2
            invariant
                self.wf(),
                self.same_size(old(self)),
                w == old(self).spec_width(),
                h == old(self).spec_height(),
                s == span_of(x0 as int, y0 as int, x1 as int, y1 as int),
                plots == wu_plots(x0 as int, y0 as int, x1 as int, y1 as int),
                plots.len() == 4 + 2 * inner_count(s),
                steep == s.steep,
                col1 == first_col(s),
                col2 == last_col(s),
                -32768 <= col1 <= 32768,
                -32768 <= col2 <= 32768,
                slope == gradient(s),
                -65536 <= slope <= 65536,
                y_first == first_y(s),
                -0x1_0000_0000 <= y_first <= 0x1_0000_0000,
                0 <= k <= inner_count(s),
                x == col1 + 1 + k,
                y_run == inner_y(s, k),
                y_first - 65536 * (k + 1) <= y_run <= y_first + 65536 * (k + 1),
                self@ == plot_all(old(self)@, w, h, color, plots.take(4 + 2 * k)),
            decreases col2 - x,
        {
            proof {
                lemma_pair_alpha(fract(y_run as int), ONE as int);
                lemma_plot_all_step(old(self)@, w, h, color, plots, 4 + 2 * k);
                lemma_plot_all_step(old(self)@, w, h, color, plots, 4 + 2 * k + 1);
                assert(plots[4 + 2 * k] == inner_plot(s, 2 * k));
                assert(plots[4 + 2 * k + 1] == inner_plot(s, 2 * k + 1));
                assert((2 * k) / 2 == k && (2 * k + 1) / 2 == k);
                assert((slope as int) * (k + 1 + 1) == (slope as int) * (k + 1) + slope)
                    by (nonlinear_arith);
            }
            self.plot_pair(steep, x as i32, y_run, 65536, color);
            y_run = y_run + slope;
            x = x + 1;
            proof {
                k = k + 1;
            }
        }
        assert(plots.take(4 + 2 * k) =~= plots);
    }

    /// Blends the circle's coverage of one pixel into it.
    fn shade_disc_pixel(&mut self, x: i64, y: i64, cx: i32, cy: i32, radius: u32, color: u32)
        requires
            old(self).wf(),
            0 <= x <= 0x10_0000,
            0 <= y <= 0x10_0000,
        ensures
            final(self).wf(),
            final(self).same_size(old(self)),
            final(self)@ == match disc_alpha(
                dist_sq(x as int, y as int, cx as int, cy as int),
                radius as int,
            ) {
                Some(alpha) => blend_at(
                    old(self)@,
                    old(self).spec_width(),
                    old(self).spec_height(),
                    x as int,
                    y as int,
                    color,
                    alpha,
                ),
                None => old(self)@,
            },
    {
        let dx: i128 = (x * 65536 - cx as i64) as i128;
        let dy: i128 = (y * 65536 - cy as i64) as i128;
        let reach: i128 = radius as i128 + 65536;
        let inner: i128 = radius as i128 - 65536;
        proof {
            assert(0 <= dx * dx <= 0x1_0000_0000_0000 * 0x1_0000_0000_0000) by (nonlinear_arith)
                requires
                    -0x1_0000_0000_0000 <= dx <= 0x1_0000_0000_0000,
            ;
            assert(0 <= dy * dy <= 0x1_0000_0000_0000 * 0x1_0000_0000_0000) by (nonlinear_arith)
                requires
                    -0x1_0000_0000_0000 <= dy <= 0x1_0000_0000_0000,
            ;
            assert(0 <= reach * reach <= 0x2_0000_0000 * 0x2_0000_0000) by (nonlinear_arith)
                requires
                    0 <= reach <= 0x2_0000_0000,
            ;
            assert(0 <= inner * inner <= 0x2_0000_0000 * 0x2_0000_0000) by (nonlinear_arith)
                requires
                    -0x2_0000_0000 <= inner <= 0x2_0000_0000,
            ;
            lemma_disc_alpha_range(
                dist_sq(x as int, y as int, cx as int, cy as int),
                radius as int,
            );
        }
        let d2: i128 = dx * dx + dy * dy;
        if d2 > reach * reach {
            return ;
        }
        let alpha: u32 = if radius >= 65536 && d2 <= inner * inner {
            65536
        } else {
            let d: u128 = isqrt(d2 as u128);
            let t: i128 = d as i128 - inner;
            if t < 65536 {
                (65536 - t) as u32
            } else {
                0
            }
        };
        self.draw_pixel_aa(x as i32, y as i32, color, alpha);
    }

    /// Draws a filled circle around `(center_x, center_y)`: opaque up to one
    /// pixel inside `radius`, fading to nothing one pixel outside it.
    pub fn draw_circle_aa(&mut self, center_x: i32, center_y: i32, radius: u32, color: u32)
        requires
            old(self).wf(),
        ensures
            final(self).wf(),
            final(self).same_size(old(self)),
            final(self)@ == paint_circle(
                old(self)@,
                old(self).spec_width(),
                center_x as int,
                center_y as int,
                radius as int,
                color,
            ),
    {
        self.draw_disc(center_x, center_y, radius, color);
        proof {
            let w: int = old(self).spec_width();
            let h: int = old(self).spec_height();
            let goal: Seq<u32> = paint_circle(
                old(self)@,
                w,
                center_x as int,
                center_y as int,
                radius as int,
                color,
            );
            assert forall|x: int, y: int| in_bounds(w, h, x, y) implies self@[#[trigger] offset(
                w,
                x,
                y,
            )] == goal[offset(w, x, y)] by {
                crate::canvas::lemma_offset_in_range(w, h, x, y);
                let i: int = offset(w, x, y);
                crate::canvas::lemma_index_coords(w, h, i);
                crate::canvas::lemma_offset_injective(w, h, x, y, i % w, i / w);
            }
            crate::canvas::lemma_equal_by_pixels(self@, goal, w, h);
        }
    }

    /// Visits the circle's bounding box, clipped to the canvas, row by row.
    fn draw_disc(&mut self, center_x: i32, center_y: i32, radius: u32, color: u32)
        requires
            old(self).wf(),
        ensures
            final(self).wf(),
            final(self).same_size(old(self)),
            circle_drawn(
                old(self)@,
                final(self)@,
                old(self).spec_width(),
                old(self).spec_height(),
                center_x as int,
                center_y as int,
                radius as int,
                color,
            ),
    {
        let ghost w: int = self.spec_width();
        let ghost h: int = self.spec_height();
        let ghost cx: int = center_x as int;
        let ghost cy: int = center_y as int;
        let ghost r: int = radius as int;
        let width: usize = self.width();
        let height: usize = self.height();
        let reach: i64 = radius as i64 + 65536;
        let left: i64 = floor_of(center_x as i64 - reach);
        let right: i64 = floor_of(center_x as i64 + reach);
        let top: i64 = floor_of(center_y as i64 - reach);
        let bottom: i64 = floor_of(center_y as i64 + reach);
        proof {
            assert forall|x: int, y: int|
                in_bounds(w, h, x, y) && !(left <= x <= right && top <= y <= bottom) implies (
                #[trigger] disc_alpha(dist_sq(x, y, cx, cy), r)) is None by {
                if !(left <= x <= right) {
                    lemma_far_column(x, y, cx, cy, r);
                } else {
                    lemma_far_column(y, x, cy, cx, r);
                }
            }
        }
        if right < 0 || bottom < 0 || width == 0 || height == 0 {
            return ;
        }
        let x_lo: i64 = if left < 0 { 0 } else { left };
        let y_lo: i64 = if top < 0 { 0 } else { top };
        let x_hi: i64 = if right as usize >= width { (width - 1) as i64 } else { right };
        let y_hi: i64 = if bottom as usize >= height { (height - 1) as i64 } else { bottom };
        let mut y: i64 = y_lo;
        while y <= y_hi
            invariant
                self.wf(),
                self.same_size(old(self)),
                w == old(self).spec_width(),
                h == old(self).spec_height(),
                cx == center_x,
                cy == center_y,
                r == radius,
                0 <= x_lo,
                x_hi <= 0x8_0000,
                x_hi < w,
                0 <= y_lo <= y,
                y_hi <= 0x8_0000,
                y_hi < h,
                self@.len() == old(self)@.len(),
                forall|px: int, py: int|
                    in_bounds(w, h, px, py) ==> self@[#[trigger] offset(w, px, py)] == if swept(
                        px,
                        py,
                        x_lo as int,
                        x_hi as int,
                        y_lo as int,
                        y as int,
                        x_lo as int,
                    ) {
                        disc_pixel(old(self)@[offset(w, px, py)], px, py, cx, cy, r, color)
                    } else {
                        old(self)@[offset(w, px, py)]
                    },
            decreases y_hi + 1 - y,
        {
            let mut x: i64 = x_lo;
            while x <= x_hi
                invariant
                    self.wf(),
                    self.same_size(old(self)),
                    w == old(self).spec_width(),
                    h == old(self).spec_height(),
                    cx == center_x,
                    cy == center_y,
                    r == radius,
                    0 <= x_lo <= x,
                    x_hi <= 0x8_0000,
                    x_hi < w,
                    0 <= y_lo <= y <= y_hi,
                    y_hi <= 0x8_0000,
                    y_hi < h,
                    self@.len() == old(self)@.len(),
                    forall|px: int, py: int|
                        in_bounds(w, h, px, py) ==> self@[#[trigger] offset(w, px, py)] == if swept(
                            px,
                            py,
                            x_lo as int,
                            x_hi as int,
                            y_lo as int,
                            y as int,
                            x as int,
                        ) {
                            disc_pixel(old(self)@[offset(w, px, py)], px, py, cx, cy, r, color)
                        } else {
                            old(self)@[offset(w, px, py)]
                        },
                decreases x_hi + 1 - x,
            {
                self.shade_disc_pixel(x, y, center_x, center_y, radius, color);
                proof {
                    crate::canvas::lemma_offset_in_range(w, h, x as int, y as int);
                    assert forall|px: int, py: int| in_bounds(w, h, px, py) implies self@[#[trigger] offset(
                        w,
                        px,
                        py,
                    )] == if swept(
                        px,
                        py,
                        x_lo as int,
                        x_hi as int,
                        y_lo as int,
                        y as int,
                        x + 1,
                    ) {
                        disc_pixel(old(self)@[offset(w, px, py)], px, py, cx, cy, r, color)
                    } else {
                        old(self)@[offset(w, px, py)]
                    } by {
                        crate::canvas::lemma_offset_in_range(w, h, px, py);
                        if offset(w, px, py) == offset(w, x as int, y as int) {
                            crate::canvas::lemma_offset_injective(w, h, px, py, x as int, y as int);
                        }
                    }
                }
                x = x + 1;
            }
            y = y + 1;
        }
    }
}

} // verus!
