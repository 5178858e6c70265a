//! Geometry and session data: points, the animation state and the state of
//! a drawing session.

use vstd::prelude::*;
use crate::fixed::ONE;

verus! {

/// A position on the plane. Both coordinates are fixed-point values with
/// sixteen fractional bits, so `ONE` is one pixel. Two points are equal when
/// both coordinates are.
#[derive(Clone, Copy, PartialEq, Eq, Structural, Debug)]
pub struct Point {
    pub x: i32,
    pub y: i32,
}

impl Point {
    /// The point with the given fixed-point coordinates.
    pub fn new(x: i32, y: i32) -> (p: Point)
        ensures
            p == (Point { x, y }),
    {
        Point { x, y }
    }

    /// The point at the whole pixel coordinates `(x, y)`.
    pub fn from_pixels(x: i16, y: i16) -> (p: Point)
        ensures
            p.x == x * ONE,
            p.y == y * ONE,
    {
        Point { x: x as i32 * 65536, y: y as i32 * 65536 }
    }
}

/// What the session is doing.
#[derive(Clone, Copy, PartialEq, Eq, Structural, Debug)]
pub enum AnimationState {
    /// Points are being placed.
    Drawing,
    /// The subdivision steps are being played back.
    Animating,
}

/// The state of a drawing session.
pub struct WindowState {
    /// The control polyline, in the order in which its points were placed.
    pub points: Vec<Point>,
    pub animation_state: AnimationState,
    /// The subdivision step on show; it counts only while animating.
    pub current_step: usize,
    pub buffer_width: usize,
    pub buffer_height: usize,
}

} // verus!
