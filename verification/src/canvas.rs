//! The pixel canvas: a row-major buffer of packed colours with clipped
//! writes and coverage blending.
//!
//! A pixel is a `u32` holding red, green and blue in bits 16..24, 8..16 and
//! 0..8. A coverage is a fixed-point value in `0..=ONE`. Writes outside the
//! canvas are dropped.

use vstd::prelude::*;
use crate::fixed::ONE;

verus! {

/// Red channel of a packed colour.
pub open spec fn red(c: u32) -> u32 {
    (c >> 16) & 0xFF
}

/// Green channel of a packed colour.
pub open spec fn green(c: u32) -> u32 {
    (c >> 8) & 0xFF
}

/// Blue channel of a packed colour.
pub open spec fn blue(c: u32) -> u32 {
    c & 0xFF
}

/// The colour with the given channels, each at most 255.
pub open spec fn pack_rgb(r: u32, g: u32, b: u32) -> u32 {
    (r << 16) | (g << 8) | b
}

/// The three colour channels of a pixel, without its top byte.
pub open spec fn rgb(c: u32) -> u32 {
    c & 0x00FF_FFFF
}

/// One channel of foreground over background at the given coverage:
/// `alpha * fg + (1 - alpha) * bg`, rounded down.
pub open spec fn mix(fg: int, bg: int, alpha: int) -> int {
    (fg * alpha + bg * (ONE - alpha)) / (ONE as int)
}

/// `color` over `bg` at coverage `alpha`, channel by channel. The top byte of
/// the result is zero.
pub open spec fn blend(color: u32, bg: u32, alpha: int) -> u32 {
    pack_rgb(
        mix(red(color) as int, red(bg) as int, alpha) as u32,
        mix(green(color) as int, green(bg) as int, alpha) as u32,
        mix(blue(color) as int, blue(bg) as int, alpha) as u32,
    )
}

/// Whether `(x, y)` lies on a canvas of `w` by `h` pixels.
pub open spec fn in_bounds(w: int, h: int, x: int, y: int) -> bool {
    0 <= x < w && 0 <= y < h
}

/// Position of pixel `(x, y)` in a row-major buffer of width `w`.
pub open spec fn offset(w: int, x: int, y: int) -> int {
    y * w + x
}

/// The buffer after an opaque write of `value` at `(x, y)`.
pub open spec fn put(buf: Seq<u32>, w: int, h: int, x: int, y: int, value: u32) -> Seq<u32> {
    if in_bounds(w, h, x, y) {
        buf.update(offset(w, x, y), value)
    } else {
        buf
    }
}

/// The buffer after blending `color` into `(x, y)` at coverage `alpha`.
pub open spec fn blend_at(
    buf: Seq<u32>,
    w: int,
    h: int,
    x: int,
    y: int,
    color: u32,
    alpha: int,
) -> Seq<u32> {
    if in_bounds(w, h, x, y) {
        buf.update(offset(w, x, y), blend(color, buf[offset(w, x, y)], alpha))
    } else {
        buf
    }
}

/// One blended write: a pixel position and a coverage.
pub struct Plot {
    pub x: int,
    pub y: int,
    pub alpha: int,
}

/// The buffer after blending `color` at each plot in turn.
pub open spec fn plot_all(buf: Seq<u32>, w: int, h: int, color: u32, plots: Seq<Plot>) -> Seq<u32>
    decreases plots.len(),
{
    if plots.len() == 0 {
        buf
    } else {
        let p = plots.last();
        blend_at(plot_all(buf, w, h, color, plots.drop_last()), w, h, p.x, p.y, color, p.alpha)
    }
}

/// A pixel on the canvas has its position inside the buffer.
pub proof fn lemma_offset_in_range(w: int, h: int, x: int, y: int)
    requires
        in_bounds(w, h, x, y),
    ensures
        0 <= offset(w, x, y) < w * h,
{
    assert(0 <= y * w && y * w + w <= h * w) by (nonlinear_arith)
        requires
            0 <= y < h,
            0 < w,
    ;
    assert(h * w == w * h) by (nonlinear_arith);
}

/// Two pixels on the canvas share a buffer position only if they are the
/// same pixel.
pub proof fn lemma_offset_injective(w: int, h: int, x1: int, y1: int, x2: int, y2: int)
    requires
        in_bounds(w, h, x1, y1),
        in_bounds(w, h, x2, y2),
        offset(w, x1, y1) == offset(w, x2, y2),
    ensures
        x1 == x2,
        y1 == y2,
{
    if y1 < y2 {
        assert(y1 * w + w <= y2 * w) by (nonlinear_arith)
            requires
                y1 < y2,
                0 < w,
        ;
    } else if y2 < y1 {
        assert(y2 * w + w <= y1 * w) by (nonlinear_arith)
            requires
                y2 < y1,
                0 < w,
        ;
    }
}

/// Every position in the buffer belongs to the pixel in column `i % w` of
/// row `i / w`.
pub proof fn lemma_index_coords(w: int, h: int, i: int)
    requires
        0 <= i < w * h,
        0 <= h,
        0 <= w,
    ensures
        in_bounds(w, h, i % w, i / w),
        offset(w, i % w, i / w) == i,
{
    assert(w > 0) by (nonlinear_arith)
        requires
            0 <= i < w * h,
            0 <= w,
    ;
    vstd::arithmetic::div_mod::lemma_fundamental_div_mod(i, w);
    vstd::arithmetic::div_mod::lemma_mod_bound(i, w);
    let q: int = i / w;
    let r: int = i % w;
    assert(0 <= q < h) by (nonlinear_arith)
        requires
            i == w * q + r,
            0 <= r < w,
            0 <= i < w * h,
            0 <= h,
    ;
    assert(q * w == w * q) by (nonlinear_arith);
}

/// Two buffers of a `w` by `h` canvas that agree on every pixel are equal.
pub proof fn lemma_equal_by_pixels(a: Seq<u32>, b: Seq<u32>, w: int, h: int)
    requires
        0 <= w,
        0 <= h,
        a.len() == w * h,
        b.len() == w * h,
        forall|x: int, y: int| in_bounds(w, h, x, y) ==> a[#[trigger] offset(w, x, y)] == b[offset(w, x, y)],
    ensures
        a == b,
{
    assert forall|i: int| 0 <= i < a.len() implies a[i] == b[i] by {
        lemma_index_coords(w, h, i);
        assert(a[offset(w, i % w, i / w)] == b[offset(w, i % w, i / w)]);
    }
    assert(a =~= b);
}

/// The buffer with `color` written to every pixel in the columns
/// `left..left + rw` of the rows `top..top + rh`.
pub open spec fn fill_rect(
    buf: Seq<u32>,
    w: int,
    left: int,
    top: int,
    rw: int,
    rh: int,
    color: u32,
) -> Seq<u32> {
    Seq::new(
        buf.len(),
        |i: int|
            if left <= i % w < left + rw && top <= i / w < top + rh {
                color
            } else {
                buf[i]
            },
    )
}

/// A mixed channel lies between 0 and 255, is the foreground at full
/// coverage and the background at none.
pub proof fn lemma_mix_range(fg: int, bg: int, alpha: int)
    requires
        0 <= fg <= 255,
        0 <= bg <= 255,
        0 <= alpha <= ONE,
    ensures
        0 <= fg * alpha <= 255 * 65536,
        0 <= bg * (ONE - alpha) <= 255 * 65536,
        0 <= fg * alpha + bg * (ONE - alpha) <= 255 * 65536,
        0 <= mix(fg, bg, alpha) <= 255,
        mix(fg, bg, ONE as int) == fg,
        mix(fg, bg, 0) == bg,
{
    let beta: int = ONE - alpha;
    assert(0 <= fg * alpha <= 255 * alpha) by (nonlinear_arith)
        requires
            0 <= fg <= 255,
            0 <= alpha,
    ;
    assert(0 <= bg * beta <= 255 * beta) by (nonlinear_arith)
        requires
            0 <= bg <= 255,
            0 <= beta,
    ;
    assert(fg * 65536 + bg * 0 == fg * 65536) by (nonlinear_arith);
    assert(fg * 0 + bg * 65536 == bg * 65536) by (nonlinear_arith);
}

/// Packing the three channels of a colour gives back its low 24 bits.
pub proof fn lemma_pack_channels(c: u32)
    ensures
        pack_rgb(red(c), green(c), blue(c)) == rgb(c),
        red(c) <= 255,
        green(c) <= 255,
        blue(c) <= 255,
{
    assert((((c >> 16) & 0xFF) << 16) | (((c >> 8) & 0xFF) << 8) | (c & 0xFF) == c & 0x00FF_FFFF)
        by (bit_vector);
    assert((c >> 16) & 0xFF <= 255) by (bit_vector);
    assert((c >> 8) & 0xFF <= 255) by (bit_vector);
    assert(c & 0xFF <= 255) by (bit_vector);
}

/// At full coverage the blend is exactly the foreground colour; at zero
/// coverage it is the background colour. Both are taken without the top
/// byte, which a blend always clears.
pub proof fn lemma_blend_extremes(color: u32, bg: u32)
    ensures
        blend(color, bg, ONE as int) == rgb(color),
        blend(color, bg, 0) == rgb(bg),
{
    lemma_pack_channels(color);
    lemma_pack_channels(bg);
    lemma_mix_range(red(color) as int, red(bg) as int, 0);
    lemma_mix_range(green(color) as int, green(bg) as int, 0);
    lemma_mix_range(blue(color) as int, blue(bg) as int, 0);
}

/// Blending into a pixel at full coverage leaves exactly the foreground
/// colour there, and at zero coverage the colour that was there; blending at
/// a position outside the canvas changes nothing, whatever the coverage.
pub proof fn lemma_blend_at_extremes(
    buf: Seq<u32>,
    w: int,
    h: int,
    x: int,
    y: int,
    color: u32,
    alpha: int,
)
    requires
        buf.len() == w * h,
    ensures
        in_bounds(w, h, x, y) ==> blend_at(buf, w, h, x, y, color, ONE as int)[offset(w, x, y)]
            == rgb(color),
        in_bounds(w, h, x, y) ==> blend_at(buf, w, h, x, y, color, 0)[offset(w, x, y)] == rgb(
            buf[offset(w, x, y)],
        ),
        !in_bounds(w, h, x, y) ==> blend_at(buf, w, h, x, y, color, alpha) == buf,
        blend_at(buf, w, h, x, y, color, alpha).len() == buf.len(),
{
    if in_bounds(w, h, x, y) {
        lemma_offset_in_range(w, h, x, y);
        lemma_blend_extremes(color, buf[offset(w, x, y)]);
    }
}

/// Whether the plot `p` writes to the pixel `(x, y)`.
pub open spec fn hits(p: Plot, x: int, y: int) -> bool {
    p.x == x && p.y == y
}

/// Blending plots keeps the size of the buffer.
pub proof fn lemma_plot_all_len(buf: Seq<u32>, w: int, h: int, color: u32, plots: Seq<Plot>)
    requires
        buf.len() == w * h,
    ensures
        plot_all(buf, w, h, color, plots).len() == buf.len(),
    decreases plots.len(),
{
    if plots.len() > 0 {
        lemma_plot_all_len(buf, w, h, color, plots.drop_last());
        let p = plots.last();
        if in_bounds(w, h, p.x, p.y) {
            lemma_offset_in_range(w, h, p.x, p.y);
        }
    }
}

/// A pixel that no plot writes to keeps its value.
pub proof fn lemma_plot_all_untouched(
    buf: Seq<u32>,
    w: int,
    h: int,
    color: u32,
    plots: Seq<Plot>,
    x: int,
    y: int,
)
    requires
        buf.len() == w * h,
        in_bounds(w, h, x, y),
        forall|i: int| 0 <= i < plots.len() ==> !hits(#[trigger] plots[i], x, y),
    ensures
        plot_all(buf, w, h, color, plots)[offset(w, x, y)] == buf[offset(w, x, y)],
    decreases plots.len(),
{
    if plots.len() > 0 {
        let rest = plots.drop_last();
        let p = plots.last();
        assert forall|i: int| 0 <= i < rest.len() implies !hits(#[trigger] rest[i], x, y) by {
            assert(rest[i] == plots[i]);
        }
        lemma_plot_all_untouched(buf, w, h, color, rest, x, y);
        lemma_plot_all_len(buf, w, h, color, rest);
        lemma_offset_in_range(w, h, x, y);
        assert(!hits(plots[plots.len() - 1], x, y));
        if in_bounds(w, h, p.x, p.y) {
            lemma_offset_in_range(w, h, p.x, p.y);
            if offset(w, p.x, p.y) == offset(w, x, y) {
                lemma_offset_injective(w, h, p.x, p.y, x, y);
            }
        }
    }
}

/// A pixel's value after all plots is what the last plot that writes to it
/// makes of the value it had after the plots before that one.
pub proof fn lemma_plot_all_last_hit(
    buf: Seq<u32>,
    w: int,
    h: int,
    color: u32,
    plots: Seq<Plot>,
    j: int,
    x: int,
    y: int,
)
    requires
        buf.len() == w * h,
        in_bounds(w, h, x, y),
        0 <= j < plots.len(),
        hits(plots[j], x, y),
        forall|i: int| j < i < plots.len() ==> !hits(#[trigger] plots[i], x, y),
    ensures
        plot_all(buf, w, h, color, plots)[offset(w, x, y)] == blend(
            color,
            plot_all(buf, w, h, color, plots.take(j))[offset(w, x, y)],
            plots[j].alpha,
        ),
    decreases plots.len(),
{
    let rest = plots.drop_last();
    let p = plots.last();
    lemma_plot_all_len(buf, w, h, color, rest);
    lemma_offset_in_range(w, h, x, y);
    if j == plots.len() - 1 {
        assert(rest =~= plots.take(j));
    } else {
        assert forall|i: int| j < i < rest.len() implies !hits(#[trigger] rest[i], x, y) by {
            assert(rest[i] == plots[i]);
        }
        assert(rest[j] == plots[j]);
        lemma_plot_all_last_hit(buf, w, h, color, rest, j, x, y);
        assert(rest.take(j) =~= plots.take(j));
        assert(!hits(plots[plots.len() - 1], x, y));
        if in_bounds(w, h, p.x, p.y) {
            lemma_offset_in_range(w, h, p.x, p.y);
            if offset(w, p.x, p.y) == offset(w, x, y) {
                lemma_offset_injective(w, h, p.x, p.y, x, y);
            }
        }
    }
}

/// Blends one channel.
fn mix_channel(fg: u32, bg: u32, alpha: u32) -> (r: u32)
    requires
        fg <= 255,
        bg <= 255,
        alpha <= ONE,
    ensures
        r == mix(fg as int, bg as int, alpha as int),
        r <= 255,
{
    proof {
        lemma_mix_range(fg as int, bg as int, alpha as int);
    }
    (fg * alpha + bg * (65536 - alpha)) / 65536
}

/// Blends `color` over `bg` at coverage `alpha`.
pub fn blend_color(color: u32, bg: u32, alpha: u32) -> (r: u32)
    requires
        alpha <= ONE,
    ensures
        r == blend(color, bg, alpha as int),
{
    proof {
        lemma_pack_channels(color);
        lemma_pack_channels(bg);
    }
    let r: u32 = mix_channel((color >> 16) & 0xFF, (bg >> 16) & 0xFF, alpha);
    let g: u32 = mix_channel((color >> 8) & 0xFF, (bg >> 8) & 0xFF, alpha);
    let b: u32 = mix_channel(color & 0xFF, bg & 0xFF, alpha);
    (r << 16) | (g << 8) | b
}

/// A `width` by `height` canvas of packed pixels, stored row by row.
pub struct PixelCanvas {
    width: usize,
    height: usize,
    pixels: Vec<u32>,
}

impl View for PixelCanvas {
    type V = Seq<u32>;

    /// The pixels, row by row.
    closed spec fn view(&self) -> Seq<u32> {
        self.pixels@
    }
}

impl PixelCanvas {
    /// Width in pixels.
    pub closed spec fn spec_width(&self) -> int {
        self.width as int
    }

    /// Height in pixels.
    pub closed spec fn spec_height(&self) -> int {
        self.height as int
    }

    /// The buffer holds exactly one pixel for each position, and every
    /// position has `i32` coordinates.
    pub open spec fn wf(&self) -> bool {
        &&& 0 <= self.spec_width() <= i32::MAX
        &&& 0 <= self.spec_height() <= i32::MAX
        &&& self@.len() == self.spec_width() * self.spec_height()
    }

    /// The pixel at `(x, y)`, which must lie on the canvas.
    pub open spec fn pixel(&self, x: int, y: int) -> u32
        recommends
            in_bounds(self.spec_width(), self.spec_height(), x, y),
    {
        self@[offset(self.spec_width(), x, y)]
    }

    /// Whether `other` has the same size as this canvas.
    pub open spec fn same_size(&self, other: &PixelCanvas) -> bool {
        self.spec_width() == other.spec_width() && self.spec_height() == other.spec_height()
    }

    /// A canvas of the given size with every pixel zero.
    pub fn new(width: usize, height: usize) -> (canvas: PixelCanvas)
        requires
            width <= i32::MAX,
            height <= i32::MAX,
            width * height <= usize::MAX,
        ensures
            canvas.wf(),
            canvas.spec_width() == width,
            canvas.spec_height() == height,
            canvas@ == Seq::new((width * height) as nat, |i: int| 0u32),
    {
        let count: usize = width * height;
        let mut pixels: Vec<u32> = Vec::new();
        let mut i: usize = 0;
        while i < count
            invariant
                i <= count,
                pixels@ == Seq::new(i as nat, |k: int| 0u32),
            decreases count - i,
        {
            pixels.push(0);
            i = i + 1;
        }
        PixelCanvas { width, height, pixels }
    }

    /// Whether the buffer holds exactly one pixel for each position and
    /// every position has `i32` coordinates.
    pub fn is_valid(&self) -> (valid: bool)
        ensures
            valid == self.wf(),
    {
        if self.width > 0x7FFF_FFFF || self.height > 0x7FFF_FFFF {
            return false;
        }
        assert(self.width * self.height <= 0x7FFF_FFFF * 0x7FFF_FFFF) by (nonlinear_arith)
            requires
                0 <= self.width <= 0x7FFF_FFFF,
                0 <= self.height <= 0x7FFF_FFFF,
        ;
        (self.width as u128) * (self.height as u128) == self.pixels.len() as u128
    }

    /// Width in pixels.
    pub fn width(&self) -> (w: usize)
        ensures
            w == self.spec_width(),
    {
        self.width
    }

    /// Height in pixels.
    pub fn height(&self) -> (h: usize)
        ensures
            h == self.spec_height(),
    {
        self.height
    }

    /// The pixels, row by row.
    pub fn pixels(&self) -> (p: &Vec<u32>)
        ensures
            p@ == self@,
    {
        &self.pixels
    }

    /// Reads the pixel at `(x, y)`, or nothing outside the canvas.
    pub fn get_pixel(&self, x: i32, y: i32) -> (p: Option<u32>)
        requires
            self.wf(),
        ensures
            p == if in_bounds(self.spec_width(), self.spec_height(), x as int, y as int) {
                Some(self.pixel(x as int, y as int))
            } else {
                None
            },
    {
        match self.index_of(x, y) {
            Some(index) => Some(self.pixels[index]),
            None => None,
        }
    }

    /// Buffer position of `(x, y)`, or nothing outside the canvas.
    fn index_of(&self, x: i32, y: i32) -> (r: Option<usize>)
        requires
            self.wf(),
        ensures
            r is Some == in_bounds(self.spec_width(), self.spec_height(), x as int, y as int),
            r is Some ==> r->0 == offset(self.spec_width(), x as int, y as int),
            r is Some ==> r->0 < self@.len(),
    {
        if x < 0 || y < 0 || x as usize >= self.width || y as usize >= self.height {
            return None;
        }
        let count: usize = self.pixels.len();
        proof {
            lemma_offset_in_range(self.width as int, self.height as int, x as int, y as int);
            assert(0 <= (y as int) * (self.width as int)) by (nonlinear_arith)
                requires
                    0 <= y,
                    0 <= self.width,
            ;
        }
        Some(y as usize * self.width + x as usize)
    }

    /// Sets every pixel to zero.
    pub fn clear(&mut self)
        requires
            old(self).wf(),
        ensures
            final(self).wf(),
            final(self).same_size(old(self)),
            final(self)@ == Seq::new(old(self)@.len(), |i: int| 0u32),
    {
        let count: usize = self.pixels.len();
        let mut i: usize = 0;
        while i < count
            invariant
                i <= count,
                self.width == old(self).width,
                self.height == old(self).height,
                self.pixels@.len() == count,
                count == old(self).pixels@.len(),
                forall|k: int| 0 <= k < i ==> self.pixels@[k] == 0u32,
            decreases count - i,
        {
            self.pixels[i] = 0;
            i = i + 1;
        }
        assert(self.pixels@ =~= Seq::new(old(self)@.len(), |i: int| 0u32));
    }

    /// Overwrites the pixel at `(x, y)` with `color`; does nothing outside
    /// the canvas.
    pub fn draw_pixel(&mut self, x: i32, y: i32, color: u32)
        requires
            old(self).wf(),
        ensures
            final(self).wf(),
            final(self).same_size(old(self)),
            final(self)@ == put(
                old(self)@,
                old(self).spec_width(),
                old(self).spec_height(),
                x as int,
                y as int,
                color,
            ),
    {
        match self.index_of(x, y) {
            Some(index) => {
                self.pixels[index] = color;
            },
            None => {},
        }
    }

    /// Blends `color` into the pixel at `(x, y)` at coverage `alpha`; does
    /// nothing outside the canvas. The caller keeps `alpha` within `0..=ONE`.
    pub fn draw_pixel_aa(&mut self, x: i32, y: i32, color: u32, alpha: u32)
        requires
            old(self).wf(),
            alpha <= ONE,
        ensures
            final(self).wf(),
            final(self).same_size(old(self)),
            final(self)@ == blend_at(
                old(self)@,
                old(self).spec_width(),
                old(self).spec_height(),
                x as int,
                y as int,
                color,
                alpha as int,
            ),
    {
        match self.index_of(x, y) {
            Some(index) => {
                let bg: u32 = self.pixels[index];
                self.pixels[index] = blend_color(color, bg, alpha);
            },
            None => {},
        }
    }
    /// Writes `color` to every pixel of the canvas in the columns
    /// `left..left + rw` of the rows `top..top + rh`.
    pub fn fill_rect(&mut self, left: usize, top: usize, rw: usize, rh: usize, color: u32)
        requires
            old(self).wf(),
        ensures
            final(self).wf(),
            final(self).same_size(old(self)),
            final(self)@ == fill_rect(
                old(self)@,
                old(self).spec_width(),
                left as int,
                top as int,
                rw as int,
                rh as int,
                color,
            ),
    {
        let ghost w: int = self.width as int;
        let ghost h: int = self.height as int;
        let count: usize = self.pixels.len();
        let x_lo: usize = if left < self.width { left } else { self.width };
        let y_lo: usize = if top < self.height { top } else { self.height };
        let x_hi: usize = if rw >= self.width - x_lo { self.width } else { x_lo + rw };
        let y_hi: usize = if rh >= self.height - y_lo { self.height } else { y_lo + rh };
        let mut y: usize = y_lo;
        while y < y_hi
            invariant
                self.wf(),
                self.same_size(old(self)),
                w == self.width,
                h == self.height,
                x_lo <= x_hi <= w,
                y_lo <= y <= y_hi <= h,
                self@.len() == old(self)@.len(),
                w * h == count,
                forall|px: int, py: int|
                    in_bounds(w, h, px, py) ==> self@[#[trigger] offset(w, px, py)] == if x_lo <= px
                        < x_hi && y_lo <= py < y {
                        color
                    } else {
                        old(self)@[offset(w, px, py)]
                    },
            decreases y_hi - y,
        {
            let mut x: usize = x_lo;
            while x < x_hi
                invariant
                    self.wf(),
                    self.same_size(old(self)),
                    w == self.width,
                    h == self.height,
                    x_lo <= x <= x_hi <= w,
                    y_lo <= y < y_hi <= h,
                    self@.len() == old(self)@.len(),
                    w * h == count,
                    forall|px: int, py: int|
                        in_bounds(w, h, px, py) ==> self@[#[trigger] offset(w, px, py)] == if x_lo
                            <= px < x_hi && (y_lo <= py < y || (py == y && px < x)) {
                            color
                        } else {
                            old(self)@[offset(w, px, py)]
                        },
                decreases x_hi - x,
            {
                proof {
                    lemma_offset_in_range(w, h, x as int, y as int);
                    assert(0 <= (y as int) * w) by (nonlinear_arith)
                        requires
                            0 <= y,
                            0 <= w,
                    ;
                }
                let index: usize = y * self.width + x;
                self.pixels[index] = color;
                proof {
                    assert forall|px: int, py: int| in_bounds(w, h, px, py) implies self@[#[trigger] offset(
                        w,
                        px,
                        py,
                    )] == if x_lo <= px < x_hi && (y_lo <= py < y || (py == y && px < x + 1)) {
                        color
                    } else {
                        old(self)@[offset(w, px, py)]
                    } by {
                        lemma_offset_in_range(w, h, px, py);
                        if offset(w, px, py) == offset(w, x as int, y as int) {
                            lemma_offset_injective(w, h, px, py, x as int, y as int);
                        }
                    }
                }
                x = x + 1;
            }
            y = y + 1;
        }
        proof {
            let goal: Seq<u32> = fill_rect(
                old(self)@,
                w,
                left as int,
                top as int,
                rw as int,
                rh as int,
                color,
            );
            assert forall|px: int, py: int| in_bounds(w, h, px, py) implies self@[#[trigger] offset(
                w,
                px,
                py,
            )] == goal[offset(w, px, py)] by {
                lemma_offset_in_range(w, h, px, py);
                let i: int = offset(w, px, py);
                lemma_index_coords(w, h, i);
                lemma_offset_injective(w, h, px, py, i % w, i / w);
            }
            lemma_equal_by_pixels(self@, goal, w, h);
        }
    }
}

} // verus!
