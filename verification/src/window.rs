//! The drawing session: a control polyline, a two-state animation driver, a
//! canvas and a toast.
//!
//! The host reports what it polled in a `FrameInput` and what the text
//! shaper made of the toast's message in a `ShapedText`; the session decides
//! and draws. Every decision is a function of the session's model, the
//! input and one clock reading. The methods without a reading take one from
//! the session's clock first.

use vstd::prelude::*;
use crate::algorithm::{subdivide_times, ChaikinAlgorithm};
use crate::canvas::{blend_at, fill_rect, plot_all, PixelCanvas};
use crate::fixed::{div_floor, ONE};
use crate::raster::{paint_circle, wu_plots};
use crate::toast::{elapsed_between, Toast, TOAST_DURATION};
use crate::types::{AnimationState, Point, WindowState};

verus! {

/// Number of subdivision steps the animation cycles through.
pub const MAX_STEPS: usize = 7;

/// Radius of a point marker: five pixels.
pub const POINT_RADIUS: u32 = 0x5_0000;

/// Colour of the point markers, a shade of red.
pub const POINT_COLOR: u32 = 0x00FF5555;

/// Colour of the lines, a mix of blue and green.
pub const LINE_COLOR: u32 = 0x0055CCAA;

/// Background of the toast, a grey that shows on the black canvas.
pub const TOAST_BG_COLOR: u32 = 0x80333333;

/// Colour of the toast's text.
pub const TOAST_TEXT_COLOR: u32 = 0x00FFFFFF;

/// Time between two animation steps, in nanoseconds: one second.
pub const TICK_INTERVAL: u128 = 1_000_000_000;

/// Height of the toast's box in pixels.
pub const TOAST_HEIGHT: usize = 40;

/// Distance from the toast's box to the bottom of the canvas, and the
/// width that the box adds to its text, in pixels.
pub const TOAST_MARGIN: usize = 20;

/// Distance of the text from the left edge of the toast's box.
pub const TEXT_INSET_X: usize = 10;

/// Distance of the text from the top edge of the toast's box.
pub const TEXT_INSET_Y: usize = 12;

/// The message shown when a commit is asked for with fewer than two points.
pub open spec fn not_enough_points() -> Seq<char> {
    "You did not select enough points"@
}

/// What the host polled in one frame.
#[derive(Clone, Copy, Debug)]
pub struct FrameInput {
    /// The window is still open.
    pub window_open: bool,
    /// The escape key is held.
    pub escape_down: bool,
    /// A control key is held.
    pub ctrl_down: bool,
    /// The R key went down in this frame.
    pub r_pressed: bool,
    /// The delete key went down in this frame.
    pub delete_pressed: bool,
    /// The enter key went down in this frame.
    pub enter_pressed: bool,
    /// The pointer's position, if it is inside the window.
    pub mouse: Option<Point>,
    /// The left mouse button is held.
    pub left_button_down: bool,
}

/// One pixel of shaped text: its position on the canvas and how much of it
/// the glyph covers, a fixed-point value in `0..=ONE`.
#[derive(Clone, Copy, Debug)]
pub struct GlyphPixel {
    pub x: u32,
    pub y: u32,
    pub coverage: u32,
}

/// What the text shaper made of a message: its measured width in pixels and
/// the pixels of its glyphs, laid out from the origin that
/// `WindowManager::toast_text_origin` gives for that width.
pub struct ShapedText {
    pub width: i32,
    pub pixels: Vec<GlyphPixel>,
}

impl ShapedText {
    /// No glyph pixel is covered more than fully.
    pub open spec fn wf(&self) -> bool {
        forall|i: int| 0 <= i < self.pixels@.len() ==> (#[trigger] self.pixels@[i]).coverage <= ONE
    }

    /// Whether no glyph pixel is covered more than fully.
    pub fn is_valid(&self) -> (valid: bool)
        ensures
            valid == self.wf(),
    {
        let mut i: usize = 0;
        while i < self.pixels.len()
            invariant
                i <= self.pixels@.len(),
                forall|k: int| 0 <= k < i ==> (#[trigger] self.pixels@[k]).coverage <= ONE,
            decreases self.pixels@.len() - i,
        {
            if self.pixels[i].coverage > 65536 {
                return false;
            }
            i = i + 1;
        }
        true
    }
}

/// Width of the toast's box for a text of the given width: the text and the
/// margin, or nothing if that is negative.
pub open spec fn toast_width(text_width: int) -> int {
    if text_width + TOAST_MARGIN > 0 {
        text_width + TOAST_MARGIN
    } else {
        0
    }
}

/// Left edge of the toast's box, which is centred on the canvas. It lies left
/// of the canvas where the box is the wider of the two.
pub open spec fn toast_left(w: int, text_width: int) -> int {
    (w - toast_width(text_width)) / 2
}

/// Top edge of the toast's box, whose bottom edge is one margin above the
/// bottom of the canvas. It lies above the canvas where the canvas is too
/// low.
pub open spec fn toast_top(h: int) -> int {
    h - TOAST_HEIGHT - TOAST_MARGIN
}

/// A canvas of `w` by `h` pixels, all zero.
pub open spec fn blank(w: int, h: int) -> Seq<u32> {
    Seq::new((w * h) as nat, |i: int| 0u32)
}

/// The buffer after drawing the first `n` segments of the polyline `pts`.
pub open spec fn draw_segments(
    buf: Seq<u32>,
    w: int,
    h: int,
    pts: Seq<Point>,
    color: u32,
    n: nat,
) -> Seq<u32>
    decreases n,
{
    if n == 0 {
        buf
    } else {
        plot_all(
            draw_segments(buf, w, h, pts, color, (n - 1) as nat),
            w,
            h,
            color,
            wu_plots(pts[n - 1].x as int, pts[n - 1].y as int, pts[n as int].x as int, pts[n as int].y as int),
        )
    }
}

/// The buffer after drawing every segment of the polyline `pts` in order.
pub open spec fn draw_polyline(buf: Seq<u32>, w: int, h: int, pts: Seq<Point>, color: u32) -> Seq<
    u32,
> {
    draw_segments(
        buf,
        w,
        h,
        pts,
        color,
        if pts.len() > 0 {
            (pts.len() - 1) as nat
        } else {
            0
        },
    )
}

/// The buffer after drawing the markers of the first `n` points of `pts`.
pub open spec fn draw_markers(buf: Seq<u32>, w: int, pts: Seq<Point>, n: nat) -> Seq<u32>
    decreases n,
{
    if n == 0 {
        buf
    } else {
        paint_circle(
            draw_markers(buf, w, pts, (n - 1) as nat),
            w,
            pts[n - 1].x as int,
            pts[n - 1].y as int,
            POINT_RADIUS as int,
            POINT_COLOR,
        )
    }
}

/// The buffer after blending the first `n` glyph pixels into it.
pub open spec fn draw_glyphs(
    buf: Seq<u32>,
    w: int,
    h: int,
    glyphs: Seq<GlyphPixel>,
    color: u32,
    n: nat,
) -> Seq<u32>
    decreases n,
{
    if n == 0 {
        buf
    } else {
        blend_at(
            draw_glyphs(buf, w, h, glyphs, color, (n - 1) as nat),
            w,
            h,
            glyphs[n - 1].x as int,
            glyphs[n - 1].y as int,
            color,
            glyphs[n - 1].coverage as int,
        )
    }
}

/// The buffer with the toast on it: its box filled, then its text blended
/// over the box. What of the box or the text lies outside the canvas is
/// dropped.
pub open spec fn paint_toast(
    buf: Seq<u32>,
    w: int,
    h: int,
    text_width: int,
    glyphs: Seq<GlyphPixel>,
) -> Seq<u32> {
    draw_glyphs(
        fill_rect(
            buf,
            w,
            toast_left(w, text_width),
            toast_top(h),
            toast_width(text_width),
            TOAST_HEIGHT as int,
            TOAST_BG_COLOR,
        ),
        w,
        h,
        glyphs,
        TOAST_TEXT_COLOR,
        glyphs.len(),
    )
}

/// The model of a session.
pub struct Session {
    /// The control polyline.
    pub points: Seq<Point>,
    pub animation_state: AnimationState,
    pub current_step: int,
    pub width: int,
    pub height: int,
    /// The canvas, row by row.
    pub pixels: Seq<u32>,
    pub toast_message: Seq<char>,
    /// The clock reading at which the toast was shown, if it is not dismissed.
    pub shown_since: Option<u128>,
    /// The clock reading of the last animation step.
    pub last_call: u128,
    pub title: Seq<char>,
}

/// Whether the session's toast is up at the reading `now`.
pub open spec fn showing(s: Session, now: u128) -> bool {
    match s.shown_since {
        Some(since) => elapsed_between(since, now) < TOAST_DURATION,
        None => false,
    }
}

/// The polyline that is drawn: the control polyline while drawing, its
/// current subdivision step while animating.
pub open spec fn path_on_show(s: Session) -> Seq<Point> {
    match s.animation_state {
        AnimationState::Drawing => s.points,
        AnimationState::Animating => subdivide_times(
            s.points,
            ONE / 4,
            3 * (ONE / 4),
            s.current_step as nat,
        ),
    }
}

/// The picture of the session without its toast: on a blank canvas the
/// lines of the polyline on show, then the markers of the control points.
pub open spec fn scene(s: Session) -> Seq<u32> {
    draw_markers(
        draw_polyline(blank(s.width, s.height), s.width, s.height, path_on_show(s), LINE_COLOR),
        s.width,
        s.points,
        s.points.len(),
    )
}

/// The picture of the session at the reading `now`: the scene, and over it
/// the toast if the session is drawing and the toast is up.
pub open spec fn frame(s: Session, text_width: int, glyphs: Seq<GlyphPixel>, now: u128) -> Seq<u32> {
    if s.animation_state is Drawing && showing(s, now) {
        paint_toast(scene(s), s.width, s.height, text_width, glyphs)
    } else {
        scene(s)
    }
}

/// A new session: no points, drawing, step 0, a blank canvas, no toast.
pub open spec fn initial_session(w: int, h: int, title: Seq<char>) -> Session {
    Session {
        points: Seq::empty(),
        animation_state: AnimationState::Drawing,
        current_step: 0,
        width: w,
        height: h,
        pixels: blank(w, h),
        toast_message: Seq::empty(),
        shown_since: None,
        last_call: 0,
        title,
    }
}

/// The session drawn anew.
pub open spec fn redraw_model(
    s: Session,
    text_width: int,
    glyphs: Seq<GlyphPixel>,
    now: u128,
) -> Session {
    Session { pixels: frame(s, text_width, glyphs, now), ..s }
}

/// The session after a reset at the reading `now`: as new, but for the
/// reading.
pub open spec fn reset_model(s: Session, now: u128) -> Session {
    Session { last_call: now, ..initial_session(s.width, s.height, s.title) }
}

/// The session after a request to add the point `p`. A point that the
/// polyline already holds changes nothing. Any other point is appended, the
/// toast is dismissed and the scene drawn anew.
pub open spec fn add_point_model(s: Session, p: Point) -> Session {
    if s.points.contains(p) {
        s
    } else {
        let added = Session { points: s.points.push(p), shown_since: None, ..s };
        Session { pixels: scene(added), ..added }
    }
}

/// The session after a request to dismiss the toast at the reading `now`.
/// A toast that is up is taken down and the scene drawn anew; otherwise
/// nothing changes.
pub open spec fn dismiss_model(s: Session, now: u128) -> Session {
    if showing(s, now) {
        let dismissed = Session { shown_since: None, ..s };
        Session { pixels: scene(dismissed), ..dismissed }
    } else {
        s
    }
}

/// The session after a request to commit at the reading `now`. A session
/// that is animating stays as it is. A session that is drawing stays
/// drawing with fewer than two points, and its toast is shown and drawn;
/// with two or more its animation starts at step 0.
pub open spec fn commit_model(
    s: Session,
    text_width: int,
    glyphs: Seq<GlyphPixel>,
    now: u128,
) -> Session {
    if s.animation_state is Animating {
        s
    } else if s.points.len() < 2 {
        Session {
            toast_message: not_enough_points(),
            shown_since: Some(now),
            pixels: paint_toast(s.pixels, s.width, s.height, text_width, glyphs),
            ..s
        }
    } else {
        Session { animation_state: AnimationState::Animating, current_step: 0, ..s }
    }
}

/// The step after `step` in the cycle of `MAX_STEPS` steps.
pub open spec fn next_step(step: int) -> int {
    (step + 1) % (MAX_STEPS as int)
}

/// The step reached from `step` by `n` ticks.
pub open spec fn step_after(step: int, n: nat) -> int
    decreases n,
{
    if n == 0 {
        step
    } else {
        next_step(step_after(step, (n - 1) as nat))
    }
}

/// Whether an animation step is due at the reading `now`: more than
/// `TICK_INTERVAL` has passed since the last one.
pub open spec fn tick_due(s: Session, now: u128) -> bool {
    s.animation_state is Animating && elapsed_between(s.last_call, now) > TICK_INTERVAL
}

/// The session after an update at the reading `now`: one step further if a
/// step is due, unchanged otherwise.
pub open spec fn tick_model(s: Session, now: u128) -> Session {
    if tick_due(s, now) {
        Session { current_step: next_step(s.current_step), last_call: now, ..s }
    } else {
        s
    }
}

/// Whether a frame's input asks the session to go on: the window is open
/// and escape is not held.
pub open spec fn keeps_running(input: FrameInput) -> bool {
    input.window_open && !input.escape_down
}

/// Whether a frame's input is a click that places a point: the session is
/// drawing, the pointer is in the window and the left button is held.
pub open spec fn clicks(s: Session, input: FrameInput) -> bool {
    s.animation_state is Drawing && input.mouse is Some && input.left_button_down
}

/// The session after a frame's input at the reading `now`. If the session
/// is to stop, nothing changes. Otherwise, in this order: control and R
/// reset it; a click adds the point under the pointer; a click or the delete
/// key dismisses a toast that is up; enter asks to commit.
pub open spec fn handle_model(
    s: Session,
    input: FrameInput,
    text_width: int,
    glyphs: Seq<GlyphPixel>,
    now: u128,
) -> Session {
    if !keeps_running(input) {
        s
    } else {
        let s1 = if input.ctrl_down && input.r_pressed {
            reset_model(s, now)
        } else {
            s
        };
        let clicked = clicks(s1, input);
        let s2 = if clicked {
            add_point_model(s1, input.mouse->0)
        } else {
            s1
        };
        let s3 = if clicked || input.delete_pressed {
            dismiss_model(s2, now)
        } else {
            s2
        };
        if input.enter_pressed {
            commit_model(s3, text_width, glyphs, now)
        } else {
            s3
        }
    }
}

/// `MAX_STEPS` ticks in a row bring the step counter back to where it was;
/// from 0 the counter passes through 1, 2, and so on up to `MAX_STEPS - 1`
/// and returns to 0.
pub proof fn lemma_steps_wrap(step: int, n: nat)
    requires
        0 <= step < MAX_STEPS,
    ensures
        step_after(step, n) == (step + n) % (MAX_STEPS as int),
        0 <= step_after(step, n) < MAX_STEPS,
        step_after(step, MAX_STEPS as nat) == step,
    decreases n,
{
    if n > 0 {
        lemma_steps_wrap(step, (n - 1) as nat);
    }
    lemma_steps_wrap_full(step);
}

/// `MAX_STEPS` ticks from `step` lead back to `step`.
proof fn lemma_steps_wrap_full(step: int)
    requires
        0 <= step < MAX_STEPS,
    ensures
        step_after(step, MAX_STEPS as nat) == step,
{
    reveal_with_fuel(step_after, 8);
}

/// Adding a point that the polyline already holds leaves its length, and
/// the whole session, as they were.
pub proof fn lemma_duplicate_point_ignored(s: Session, p: Point)
    requires
        s.points.contains(p),
    ensures
        add_point_model(s, p) == s,
        add_point_model(s, p).points.len() == s.points.len(),
{
}

/// Adding a point never makes the polyline hold a point twice that it held
/// once, and lengthens it by at most one.
pub proof fn lemma_add_point_length(s: Session, p: Point)
    ensures
        add_point_model(s, p).points.contains(p),
        add_point_model(s, p).points.len() == if s.points.contains(p) {
            s.points.len()
        } else {
            s.points.len() + 1
        },
{
    if !s.points.contains(p) {
        assert(s.points.push(p)[s.points.len() as int] == p);
    }
}

/// A commit while drawing with fewer than two points leaves the session
/// drawing, with its points and its step, and puts the toast up with its
/// message: the toast shows at the reading of the commit and until
/// `TOAST_DURATION` has passed.
pub proof fn lemma_commit_needs_two_points(
    s: Session,
    text_width: int,
    glyphs: Seq<GlyphPixel>,
    now: u128,
    later: u128,
)
    requires
        s.animation_state is Drawing,
        s.points.len() < 2,
        now <= later,
    ensures
        commit_model(s, text_width, glyphs, now).animation_state is Drawing,
        commit_model(s, text_width, glyphs, now).points == s.points,
        commit_model(s, text_width, glyphs, now).current_step == s.current_step,
        commit_model(s, text_width, glyphs, now).shown_since == Some(now),
        commit_model(s, text_width, glyphs, now).toast_message == not_enough_points(),
        showing(commit_model(s, text_width, glyphs, now), now),
        showing(commit_model(s, text_width, glyphs, now), later) == (later - now < TOAST_DURATION),
{
}

/// A commit while drawing with two or more points starts the animation at
/// step 0 and raises no toast.
pub proof fn lemma_commit_starts_animation(
    s: Session,
    text_width: int,
    glyphs: Seq<GlyphPixel>,
    now: u128,
)
    requires
        s.animation_state is Drawing,
        s.points.len() >= 2,
    ensures
        commit_model(s, text_width, glyphs, now) == (Session {
            animation_state: AnimationState::Animating,
            current_step: 0,
            ..s
        }),
{
}

/// A commit while animating changes nothing: the only transition that a
/// commit makes is the one from drawing to animating.
pub proof fn lemma_commit_while_animating(
    s: Session,
    text_width: int,
    glyphs: Seq<GlyphPixel>,
    now: u128,
)
    requires
        s.animation_state is Animating,
    ensures
        commit_model(s, text_width, glyphs, now) == s,
{
}

/// A reset from any state gives an empty polyline, the drawing state, step
/// 0, a toast that never shows and a canvas of zeros.
pub proof fn lemma_reset_is_initial(s: Session, now: u128)
    requires
        0 <= s.width,
        0 <= s.height,
    ensures
        reset_model(s, now).points.len() == 0,
        reset_model(s, now).animation_state is Drawing,
        reset_model(s, now).current_step == 0,
        forall|t: u128| !showing(reset_model(s, now), t),
        reset_model(s, now).pixels.len() == s.width * s.height,
        forall|i: int| 0 <= i < s.width * s.height ==> reset_model(s, now).pixels[i] == 0u32,
        reset_model(s, now).width == s.width,
        reset_model(s, now).height == s.height,
{
    assert(0 <= s.width * s.height) by (nonlinear_arith)
        requires
            0 <= s.width,
            0 <= s.height,
    ;
}

/// A frame's input that asks the session to stop changes nothing.
pub proof fn lemma_stop_request(
    s: Session,
    input: FrameInput,
    text_width: int,
    glyphs: Seq<GlyphPixel>,
    now: u128,
)
    requires
        !input.window_open || input.escape_down,
    ensures
        !keeps_running(input),
        handle_model(s, input, text_width, glyphs, now) == s,
{
}

/// A click while drawing, with no reset and no commit asked for in that
/// frame: a point that the polyline holds leaves the polyline as it is, any
/// other point is appended to it. The session stays drawing and its toast
/// is down.
pub proof fn lemma_click_request(
    s: Session,
    input: FrameInput,
    text_width: int,
    glyphs: Seq<GlyphPixel>,
    now: u128,
)
    requires
        keeps_running(input),
        s.animation_state is Drawing,
        input.mouse is Some,
        input.left_button_down,
        !(input.ctrl_down && input.r_pressed),
        !input.enter_pressed,
    ensures
        handle_model(s, input, text_width, glyphs, now).points == if s.points.contains(
            input.mouse->0,
        ) {
            s.points
        } else {
            s.points.push(input.mouse->0)
        },
        handle_model(s, input, text_width, glyphs, now).animation_state is Drawing,
        handle_model(s, input, text_width, glyphs, now).current_step == s.current_step,
        !showing(handle_model(s, input, text_width, glyphs, now), now),
{
}

/// A commit requested by a frame's input, with nothing else asked for in that
/// frame, is a commit: while drawing with fewer than two points the session
/// stays drawing and its toast shows at once, and while animating nothing
/// changes.
pub proof fn lemma_commit_request(
    s: Session,
    input: FrameInput,
    text_width: int,
    glyphs: Seq<GlyphPixel>,
    now: u128,
)
    requires
        keeps_running(input),
        input.enter_pressed,
        !(input.ctrl_down && input.r_pressed),
        !input.left_button_down,
        !input.delete_pressed,
    ensures
        handle_model(s, input, text_width, glyphs, now) == commit_model(
            s,
            text_width,
            glyphs,
            now,
        ),
        s.animation_state is Drawing && s.points.len() < 2 ==> handle_model(
            s,
            input,
            text_width,
            glyphs,
            now,
        ).animation_state is Drawing && showing(
            handle_model(s, input, text_width, glyphs, now),
            now,
        ),
        s.animation_state is Animating ==> handle_model(s, input, text_width, glyphs, now) == s,
{
}

/// A reset requested by a frame's input resets the session whatever state it
/// was in, as long as nothing else is asked for in that frame.
pub proof fn lemma_reset_request(
    s: Session,
    input: FrameInput,
    text_width: int,
    glyphs: Seq<GlyphPixel>,
    now: u128,
)
    requires
        keeps_running(input),
        input.ctrl_down && input.r_pressed,
        !input.left_button_down,
        !input.enter_pressed,
    ensures
        handle_model(s, input, text_width, glyphs, now) == reset_model(s, now),
{
}

/// First position on the canvas of a run that starts at `start`.
pub open spec fn clipped_start(start: int) -> int {
    if start < 0 {
        0
    } else {
        start
    }
}

/// Number of positions at or after 0 in a run of `extent` positions that
/// starts at `start`.
pub open spec fn clipped_extent(start: int, extent: int) -> int {
    if start >= 0 {
        extent
    } else if start + extent > 0 {
        start + extent
    } else {
        0
    }
}

/// A rectangle that reaches over the left or the top edge of the canvas
/// fills the same pixels as its part at and after column 0 and row 0.
pub proof fn lemma_fill_rect_clipped(
    buf: Seq<u32>,
    w: int,
    h: int,
    left: int,
    top: int,
    rw: int,
    rh: int,
    color: u32,
)
    requires
        0 <= w,
        0 <= h,
        buf.len() == w * h,
        0 <= rw,
        0 <= rh,
    ensures
        fill_rect(buf, w, left, top, rw, rh, color) == fill_rect(
            buf,
            w,
            clipped_start(left),
            clipped_start(top),
            clipped_extent(left, rw),
            clipped_extent(top, rh),
            color,
        ),
{
    let a = fill_rect(buf, w, left, top, rw, rh, color);
    let b = fill_rect(
        buf,
        w,
        clipped_start(left),
        clipped_start(top),
        clipped_extent(left, rw),
        clipped_extent(top, rh),
        color,
    );
    assert forall|i: int| 0 <= i < buf.len() implies a[i] == b[i] by {
        crate::canvas::lemma_index_coords(w, h, i);
    }
    assert(a =~= b);
}

/// First position on the canvas of a run that starts at `start`.
fn clip_start(start: i64) -> (r: usize)
    requires
        start <= i32::MAX,
    ensures
        r == clipped_start(start as int),
{
    if start < 0 {
        0
    } else {
        start as usize
    }
}

/// Number of positions at or after 0 in a run of `extent` positions that
/// starts at `start`.
fn clip_extent(start: i64, extent: i64) -> (r: usize)
    requires
        -0x1_0000_0000 <= start <= i32::MAX,
        0 <= extent <= 0xFFFF_FFFF,
    ensures
        r == clipped_extent(start as int, extent as int),
{
    if start >= 0 {
        extent as usize
    } else if start + extent > 0 {
        (start + extent) as usize
    } else {
        0
    }
}

/// Draws the segments between consecutive points of a polyline.
pub fn draw_lines_between(canvas: &mut PixelCanvas, points: &[Point])
    requires
        old(canvas).wf(),
    ensures
        final(canvas).wf(),
        final(canvas).same_size(old(canvas)),
        final(canvas)@ == draw_polyline(
            old(canvas)@,
            old(canvas).spec_width(),
            old(canvas).spec_height(),
            points@,
            LINE_COLOR,
        ),
{
    let mut i: usize = 1;
    while i < points.len()
        invariant
            1 <= i,
            i <= points@.len() || (points@.len() == 0 && i == 1),
            canvas.wf(),
            canvas.same_size(old(canvas)),
            canvas@ == draw_segments(
                old(canvas)@,
                old(canvas).spec_width(),
                old(canvas).spec_height(),
                points@,
                LINE_COLOR,
                (i - 1) as nat,
            ),
        decreases points@.len() - i,
    {
        let p1: Point = points[i - 1];
        let p2: Point = points[i];
        canvas.draw_line_aa(p1.x, p1.y, p2.x, p2.y, LINE_COLOR);
        i = i + 1;
    }
}

/// Draws the marker of each point.
pub fn draw_point_markers(canvas: &mut PixelCanvas, points: &[Point])
    requires
        old(canvas).wf(),
    ensures
        final(canvas).wf(),
        final(canvas).same_size(old(canvas)),
        final(canvas)@ == draw_markers(
            old(canvas)@,
            old(canvas).spec_width(),
            points@,
            points@.len(),
        ),
{
    let mut i: usize = 0;
    while i < points.len()
        invariant
            i <= points@.len(),
            canvas.wf(),
            canvas.same_size(old(canvas)),
            canvas@ == draw_markers(old(canvas)@, old(canvas).spec_width(), points@, i as nat),
        decreases points@.len() - i,
    {
        let p: Point = points[i];
        canvas.draw_circle_aa(p.x, p.y, POINT_RADIUS, POINT_COLOR);
        i = i + 1;
    }
}

/// Blends the pixels of shaped text into the canvas; those outside it are
/// dropped.
pub fn draw_text(canvas: &mut PixelCanvas, text: &ShapedText, color: u32)
    requires
        old(canvas).wf(),
        text.wf(),
    ensures
        final(canvas).wf(),
        final(canvas).same_size(old(canvas)),
        final(canvas)@ == draw_glyphs(
            old(canvas)@,
            old(canvas).spec_width(),
            old(canvas).spec_height(),
            text.pixels@,
            color,
            text.pixels@.len(),
        ),
{
    let mut i: usize = 0;
    while i < text.pixels.len()
        invariant
            i <= text.pixels@.len(),
            text.wf(),
            canvas.wf(),
            canvas.same_size(old(canvas)),
            canvas@ == draw_glyphs(
                old(canvas)@,
                old(canvas).spec_width(),
                old(canvas).spec_height(),
                text.pixels@,
                color,
                i as nat,
            ),
        decreases text.pixels@.len() - i,
    {
        let g: GlyphPixel = text.pixels[i];
        if (g.x as usize) < canvas.width() && (g.y as usize) < canvas.height() {
            canvas.draw_pixel_aa(g.x as i32, g.y as i32, color, g.coverage);
        }
        i = i + 1;
    }
}

/// A drawing session.
pub struct WindowManager {
    pub state: WindowState,
    pub canvas: PixelCanvas,
    pub toast: Toast,
    /// The title that the host gives its window.
    pub title: String,
    /// The clock reading of the last animation step.
    pub last_call: u128,
}

impl View for WindowManager {
    type V = Session;

    open spec fn view(&self) -> Session {
        Session {
            points: self.state.points@,
            animation_state: self.state.animation_state,
            current_step: self.state.current_step as int,
            width: self.state.buffer_width as int,
            height: self.state.buffer_height as int,
            pixels: self.canvas@,
            toast_message: self.toast.message@,
            shown_since: self.toast.shown_since,
            last_call: self.last_call,
            title: self.title@,
        }
    }
}

impl WindowManager {
    /// The canvas has the size that the state records and the step counter
    /// is below `MAX_STEPS`.
    pub open spec fn wf(&self) -> bool {
        &&& self.canvas.wf()
        &&& self.canvas.spec_width() == self.state.buffer_width
        &&& self.canvas.spec_height() == self.state.buffer_height
        &&& self.state.current_step < MAX_STEPS
    }

    /// Whether the canvas has the size that the state records and the step
    /// counter is below `MAX_STEPS`.
    pub fn is_valid(&self) -> (valid: bool)
        ensures
            valid == self.wf(),
    {
        self.canvas.is_valid() && self.canvas.width() == self.state.buffer_width
            && self.canvas.height() == self.state.buffer_height && self.state.current_step
            < MAX_STEPS
    }

    /// A new session on a canvas of `width` by `height` pixels.
    pub fn new(width: usize, height: usize, title: &str) -> (manager: WindowManager)
        requires
            width <= i32::MAX,
            height <= i32::MAX,
            width * height <= usize::MAX,
        ensures
            manager.wf(),
            manager@ == initial_session(width as int, height as int, title@),
    {
        WindowManager {
            state: WindowState {
                points: Vec::new(),
                animation_state: AnimationState::Drawing,
                current_step: 0,
                buffer_width: width,
                buffer_height: height,
            },
            canvas: PixelCanvas::new(width, height),
            toast: Toast::new(),
            title: title.to_owned(),
            last_call: 0,
        }
    }

    /// Where the text shaper is to lay out a message of the given measured
    /// width: the top left corner of the text inside the toast's box. It
    /// lies off the canvas where the box does.
    pub fn toast_text_origin(&self, text_width: i32) -> (origin: (i32, i32))
        requires
            self.wf(),
        ensures
            origin == (
                (toast_left(self.state.buffer_width as int, text_width as int)
                    + TEXT_INSET_X) as i32,
                (toast_top(self.state.buffer_height as int) + TEXT_INSET_Y) as i32,
            ),
            i32::MIN <= toast_left(self.state.buffer_width as int, text_width as int)
                + TEXT_INSET_X <= i32::MAX,
            i32::MIN <= toast_top(self.state.buffer_height as int) + TEXT_INSET_Y <= i32::MAX,
    {
        let wide: i64 = text_width as i64 + 20;
        let box_width: i64 = if wide > 0 { wide } else { 0 };
        let left: i64 = div_floor(self.state.buffer_width as i64 - box_width, 2);
        let top: i64 = self.state.buffer_height as i64 - 60;
        ((left + 10) as i32, (top + 12) as i32)
    }

    /// Sets every pixel of the canvas to zero.
    pub fn clear_buffer(&mut self)
        requires
            old(self).wf(),
        ensures
            final(self).wf(),
            final(self)@ == (Session {
                pixels: blank(old(self)@.width, old(self)@.height),
                ..old(self)@
            }),
    {
        self.canvas.clear();
        assert(self.canvas@ =~= blank(old(self)@.width, old(self)@.height));
    }

    /// Draws the lines of the control polyline.
    pub fn draw_lines(&mut self)
        requires
            old(self).wf(),
        ensures
            final(self).wf(),
            final(self)@ == (Session {
                pixels: draw_polyline(
                    old(self)@.pixels,
                    old(self)@.width,
                    old(self)@.height,
                    old(self)@.points,
                    LINE_COLOR,
                ),
                ..old(self)@
            }),
    {
        draw_lines_between(&mut self.canvas, self.state.points.as_slice());
    }

    /// Draws the markers of the control points.
    pub fn draw_points(&mut self)
        requires
            old(self).wf(),
        ensures
            final(self).wf(),
            final(self)@ == (Session {
                pixels: draw_markers(
                    old(self)@.pixels,
                    old(self)@.width,
                    old(self)@.points,
                    old(self)@.points.len(),
                ),
                ..old(self)@
            }),
    {
        draw_point_markers(&mut self.canvas, self.state.points.as_slice());
    }

    /// Draws the toast over whatever the canvas holds.
    fn draw_toast_box(&mut self, text: &ShapedText)
        requires
            old(self).wf(),
            text.wf(),
        ensures
            final(self).wf(),
            final(self)@ == (Session {
                pixels: paint_toast(
                    old(self)@.pixels,
                    old(self)@.width,
                    old(self)@.height,
                    text.width as int,
                    text.pixels@,
                ),
                ..old(self)@
            }),
    {
        let wide: i64 = text.width as i64 + 20;
        let box_width: i64 = if wide > 0 { wide } else { 0 };
        let left: i64 = div_floor(self.state.buffer_width as i64 - box_width, 2);
        let top: i64 = self.state.buffer_height as i64 - 60;
        let x_lo: usize = clip_start(left);
        let x_len: usize = clip_extent(left, box_width);
        let y_lo: usize = clip_start(top);
        let y_len: usize = clip_extent(top, 40);
        proof {
            lemma_fill_rect_clipped(
                self.canvas@,
                self.state.buffer_width as int,
                self.state.buffer_height as int,
                left as int,
                top as int,
                box_width as int,
                40,
                TOAST_BG_COLOR,
            );
        }
        self.canvas.fill_rect(x_lo, y_lo, x_len, y_len, TOAST_BG_COLOR);
        draw_text(&mut self.canvas, text, TOAST_TEXT_COLOR);
    }

    /// Draws the toast over whatever the canvas holds, if the toast is up at
    /// the reading `now`.
    pub fn draw_toast_at(&mut self, text: &ShapedText, now: u128)
        requires
            old(self).wf(),
            text.wf(),
        ensures
            final(self).wf(),
            final(self)@ == if showing(old(self)@, now) {
                Session {
                    pixels: paint_toast(
                        old(self)@.pixels,
                        old(self)@.width,
                        old(self)@.height,
                        text.width as int,
                        text.pixels@,
                    ),
                    ..old(self)@
                }
            } else {
                old(self)@
            },
    {
        if self.toast.is_showing_at(now) {
            self.draw_toast_box(text);
        }
    }

    /// Draws the scene: a blank canvas, the lines of the polyline on show
    /// and the markers of the control points.
    fn draw_scene(&mut self)
        requires
            old(self).wf(),
        ensures
            final(self).wf(),
            final(self)@ == (Session { pixels: scene(old(self)@), ..old(self)@ }),
    {
        match self.state.animation_state {
            AnimationState::Drawing => {
                self.clear_buffer();
                self.draw_lines();
                self.draw_points();
            },
            AnimationState::Animating => {
                let algorithm = ChaikinAlgorithm::new();
                let path: Vec<Point> = algorithm.get_step_points(
                    self.state.points.as_slice(),
                    self.state.current_step,
                );
                self.clear_buffer();
                draw_lines_between(&mut self.canvas, path.as_slice());
                self.draw_points();
            },
        }
    }

    /// Draws the session as it is at the reading `now`.
    pub fn redraw_at(&mut self, text: &ShapedText, now: u128)
        requires
            old(self).wf(),
            text.wf(),
        ensures
            final(self).wf(),
            final(self)@ == redraw_model(old(self)@, text.width as int, text.pixels@, now),
    {
        self.draw_scene();
        match self.state.animation_state {
            AnimationState::Drawing => {
                self.draw_toast_at(text, now);
            },
            AnimationState::Animating => {},
        }
    }

    /// Draws the session as it is now.
    pub fn redraw(&mut self, text: &ShapedText)
        requires
            old(self).wf(),
            text.wf(),
        ensures
            final(self).wf(),
            exists|now: u128|
                final(self)@ == #[trigger] redraw_model(
                    old(self)@,
                    text.width as int,
                    text.pixels@,
                    now,
                ),
    {
        let now: u128 = self.toast.now();
        self.redraw_at(text, now);
    }

    /// Whether the control polyline holds `point`.
    fn has_point(&self, point: Point) -> (found: bool)
        ensures
            found == self.state.points@.contains(point),
    {
        let mut i: usize = 0;
        while i < self.state.points.len()
            invariant
                i <= self.state.points@.len(),
                forall|k: int| 0 <= k < i ==> self.state.points@[k] != point,
            decreases self.state.points@.len() - i,
        {
            if self.state.points[i] == point {
                return true;
            }
            i = i + 1;
        }
        false
    }

    /// Adds the point `(x, y)` to the control polyline, unless the polyline
    /// already holds it.
    pub fn add_point(&mut self, x: i32, y: i32)
        requires
            old(self).wf(),
        ensures
            final(self).wf(),
            final(self)@ == add_point_model(old(self)@, Point { x, y }),
    {
        let point = Point::new(x, y);
        if self.has_point(point) {
            return ;
        }
        self.state.points.push(point);
        self.toast.dismiss();
        self.draw_scene();
    }

    /// Takes the toast down and draws the scene anew, if the toast is up at
    /// the reading `now`.
    pub fn dismiss_toast_at(&mut self, now: u128)
        requires
            old(self).wf(),
        ensures
            final(self).wf(),
            final(self)@ == dismiss_model(old(self)@, now),
    {
        if self.toast.is_showing_at(now) {
            self.toast.dismiss();
            self.draw_scene();
        }
    }

    /// Asks to start the animation at the reading `now`. Only a session that
    /// is drawing is moved by it.
    pub fn commit_at(&mut self, text: &ShapedText, now: u128)
        requires
            old(self).wf(),
            text.wf(),
        ensures
            final(self).wf(),
            final(self)@ == commit_model(old(self)@, text.width as int, text.pixels@, now),
    {
        match self.state.animation_state {
            AnimationState::Animating => {},
            AnimationState::Drawing => {
                if self.state.points.len() < 2 {
                    self.toast.show_at("You did not select enough points", now);
                    self.draw_toast_at(text, now);
                } else {
                    self.state.animation_state = AnimationState::Animating;
                    self.state.current_step = 0;
                }
            },
        }
    }

    /// Puts the session back into its first state at the reading `now`.
    pub fn reset_at(&mut self, now: u128)
        requires
            old(self).wf(),
        ensures
            final(self).wf(),
            final(self)@ == reset_model(old(self)@, now),
    {
        self.last_call = now;
        self.toast = Toast::with_clock(self.toast.clock);
        self.state.points.clear();
        self.state.animation_state = AnimationState::Drawing;
        self.state.current_step = 0;
        self.toast.dismiss();
        self.clear_buffer();
    }

    /// Puts the session back into its first state.
    pub fn reset(&mut self)
        requires
            old(self).wf(),
        ensures
            final(self).wf(),
            final(self)@ == reset_model(old(self)@, final(self)@.last_call),
    {
        let now: u128 = self.toast.now();
        self.reset_at(now);
    }

    /// Advances the animation by one step if one is due at the reading `now`.
    pub fn update_at(&mut self, now: u128)
        requires
            old(self).wf(),
        ensures
            final(self).wf(),
            final(self)@ == tick_model(old(self)@, now),
    {
        match self.state.animation_state {
            AnimationState::Animating => {
                let due: bool = if now >= self.last_call {
                    now - self.last_call > TICK_INTERVAL
                } else {
                    false
                };
                if due {
                    self.state.current_step = (self.state.current_step + 1) % MAX_STEPS;
                    self.last_call = now;
                }
            },
            AnimationState::Drawing => {},
        }
    }

    /// Advances the animation by one step if one is due now.
    pub fn update(&mut self)
        requires
            old(self).wf(),
        ensures
            final(self).wf(),
            exists|now: u128| final(self)@ == #[trigger] tick_model(old(self)@, now),
    {
        let now: u128 = self.toast.now();
        self.update_at(now);
    }

    /// Acts on what the host polled in one frame, at the reading `now`.
    /// Returns whether the session is to go on.
    pub fn handle_input_at(&mut self, input: &FrameInput, text: &ShapedText, now: u128) -> (running:
        bool)
        requires
            old(self).wf(),
            text.wf(),
        ensures
            final(self).wf(),
            running == keeps_running(*input),
            final(self)@ == handle_model(
                old(self)@,
                *input,
                text.width as int,
                text.pixels@,
                now,
            ),
    {
        if !input.window_open || input.escape_down {
            return false;
        }
        if input.ctrl_down && input.r_pressed {
            self.reset_at(now);
        }
        let delete_pressed: bool = input.delete_pressed;
        let mut mouse_clicked: bool = false;
        match self.state.animation_state {
            AnimationState::Drawing => {
                match input.mouse {
                    Some(point) => {
                        if input.left_button_down {
                            mouse_clicked = true;
                            self.add_point(point.x, point.y);
                        }
                    },
                    None => {},
                }
            },
            AnimationState::Animating => {},
        }
        if mouse_clicked || delete_pressed {
            self.dismiss_toast_at(now);
        }
        if input.enter_pressed {
            self.commit_at(text, now);
        }
        true
    }

    /// Acts on what the host polled in one frame. Returns whether the
    /// session is to go on.
    pub fn handle_input(&mut self, input: &FrameInput, text: &ShapedText) -> (running: bool)
        requires
            old(self).wf(),
            text.wf(),
        ensures
            final(self).wf(),
            running == keeps_running(*input),
            exists|now: u128|
                final(self)@ == #[trigger] handle_model(
                    old(self)@,
                    *input,
                    text.width as int,
                    text.pixels@,
                    now,
                ),
    {
        let now: u128 = self.toast.now();
        self.handle_input_at(input, text, now)
    }
}

} // verus!
