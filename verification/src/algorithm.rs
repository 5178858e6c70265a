//! Chaikin's corner-cutting subdivision of a polyline.

use vstd::prelude::*;
use crate::fixed::{lerp, lerp_of, lemma_lerp_between, ONE};
use crate::types::Point;

verus! {

/// The point at ratio `t` on the way from `a` to `b`.
pub open spec fn cut(a: Point, b: Point, t: int) -> Point {
    Point { x: lerp(a.x as int, b.x as int, t) as i32, y: lerp(a.y as int, b.y as int, t) as i32 }
}

/// One step of corner cutting with the ratios `q` and `r`. A polyline of
/// fewer than three points is left as it is. Otherwise the first point is
/// kept, each segment gives its points at ratio `q` and at ratio `r`, in
/// that order, and the last point is kept.
pub open spec fn subdivide(p: Seq<Point>, q: int, r: int) -> Seq<Point> {
    if p.len() <= 2 {
        p
    } else {
        Seq::new(
            2 * p.len(),
            |j: int|
                if j == 0 {
                    p[0]
                } else if j == 2 * p.len() - 1 {
                    p[p.len() - 1]
                } else if j % 2 == 1 {
                    cut(p[j / 2], p[j / 2 + 1], q)
                } else {
                    cut(p[j / 2 - 1], p[j / 2], r)
                },
        )
    }
}

/// `k` steps of corner cutting, one after the other.
pub open spec fn subdivide_times(p: Seq<Point>, q: int, r: int, k: nat) -> Seq<Point>
    decreases k,
{
    if k == 0 {
        p
    } else {
        subdivide(subdivide_times(p, q, r, (k - 1) as nat), q, r)
    }
}

/// A polyline of zero, one or two points is unchanged by a step.
pub proof fn lemma_short_polyline_unchanged(p: Seq<Point>, q: int, r: int)
    requires
        p.len() <= 2,
    ensures
        subdivide(p, q, r) == p,
{
}

/// A step on `n >= 3` points yields the first point, `2 * (n - 1)` cut
/// points and the last point, `2 * n` points in all.
pub proof fn lemma_subdivide_shape(p: Seq<Point>, q: int, r: int)
    requires
        p.len() >= 3,
    ensures
        subdivide(p, q, r).len() == 2 * (p.len() - 1) + 2,
        subdivide(p, q, r).first() == p.first(),
        subdivide(p, q, r).last() == p.last(),
        forall|i: int|
            0 <= i < p.len() - 1 ==> {
                &&& subdivide(p, q, r)[2 * i + 1] == cut(#[trigger] p[i], p[i + 1], q)
                &&& subdivide(p, q, r)[2 * i + 2] == cut(p[i], p[i + 1], r)
            },
{
    assert forall|i: int| 0 <= i < p.len() - 1 implies {
        &&& subdivide(p, q, r)[2 * i + 1] == cut(#[trigger] p[i], p[i + 1], q)
        &&& subdivide(p, q, r)[2 * i + 2] == cut(p[i], p[i + 1], r)
    } by {
        let a: int = 2 * i + 1;
        let b: int = 2 * i + 2;
        assert(a % 2 == 1 && a / 2 == i);
        assert(b % 2 == 0 && b / 2 - 1 == i);
    }
}

/// No steps leave the polyline as it is, and `k + 1` steps are one step
/// applied to the result of `k` steps.
pub proof fn lemma_steps_compose(p: Seq<Point>, q: int, r: int, k: nat)
    ensures
        subdivide_times(p, q, r, 0) == p,
        subdivide_times(p, q, r, k + 1) == subdivide(subdivide_times(p, q, r, k), q, r),
{
    assert(subdivide_times(p, q, r, k + 1) == subdivide(
        subdivide_times(p, q, r, ((k + 1) - 1) as nat),
        q,
        r,
    ));
}

/// Any number of steps leaves a polyline of fewer than three points as it is.
pub proof fn lemma_short_polyline_fixed(p: Seq<Point>, q: int, r: int, k: nat)
    requires
        p.len() <= 2,
    ensures
        subdivide_times(p, q, r, k) == p,
    decreases k,
{
    if k > 0 {
        lemma_short_polyline_fixed(p, q, r, (k - 1) as nat);
    }
}

/// A polyline of at least three points has `2^k` times as many after `k`
/// steps: each step doubles the count.
pub proof fn lemma_steps_double(p: Seq<Point>, q: int, r: int, k: nat)
    requires
        p.len() >= 3,
    ensures
        subdivide_times(p, q, r, k).len() >= 3,
        subdivide_times(p, q, r, k + 1).len() == 2 * subdivide_times(p, q, r, k).len(),
    decreases k,
{
    if k > 0 {
        lemma_steps_double(p, q, r, (k - 1) as nat);
    }
    lemma_steps_compose(p, q, r, k);
}

/// Copies a polyline.
pub fn copy_points(points: &[Point]) -> (out: Vec<Point>)
    ensures
        out@ == points@,
{
    let mut out: Vec<Point> = Vec::new();
    let mut i: usize = 0;
    while i < points.len()
        invariant
            i <= points.len(),
            out@ == points@.take(i as int),
        decreases points.len() - i,
    {
        out.push(points[i]);
        i = i + 1;
    }
    assert(points@.take(points@.len() as int) =~= points@);
    out
}

/// Chaikin's algorithm with its two cutting ratios, fixed-point values
/// strictly between 0 and 1 with the first below the second.
pub struct ChaikinAlgorithm {
    q_ratio: u32,
    r_ratio: u32,
}

impl ChaikinAlgorithm {
    #[verifier::type_invariant]
    spec fn ratios_in_order(&self) -> bool {
        0 < self.q_ratio < self.r_ratio < ONE
    }

    /// The ratio of the first cut on each segment.
    pub closed spec fn q(&self) -> int {
        self.q_ratio as int
    }

    /// The ratio of the second cut on each segment.
    pub closed spec fn r(&self) -> int {
        self.r_ratio as int
    }

    /// The algorithm with the usual ratios, 1/4 and 3/4.
    pub fn new() -> (alg: ChaikinAlgorithm)
        ensures
            alg.q() == ONE / 4,
            alg.r() == 3 * (ONE / 4),
    {
        ChaikinAlgorithm { q_ratio: 16384, r_ratio: 49152 }
    }

    /// The algorithm with ratios of the caller's choice.
    pub fn with_ratios(q_ratio: u32, r_ratio: u32) -> (alg: ChaikinAlgorithm)
        requires
            0 < q_ratio < r_ratio < ONE,
        ensures
            alg.q() == q_ratio,
            alg.r() == r_ratio,
    {
        ChaikinAlgorithm { q_ratio, r_ratio }
    }

    /// The point at ratio `t` on the way from `a` to `b`.
    fn cut_point(a: Point, b: Point, t: u32) -> (p: Point)
        requires
            t <= ONE,
        ensures
            p == cut(a, b, t as int),
    {
        let x: i32 = lerp_of(a.x, b.x, t);
        let y: i32 = lerp_of(a.y, b.y, t);
        Point { x, y }
    }

    /// One step of corner cutting.
    pub fn calculate_step(&self, points: &[Point]) -> (out: Vec<Point>)
        ensures
            out@ == subdivide(points@, self.q(), self.r()),
    {
        proof {
            use_type_invariant(self);
        }
        let n: usize = points.len();
        if n <= 2 {
            return copy_points(points);
        }
        let ghost goal: Seq<Point> = subdivide(points@, self.q(), self.r());
        let mut out: Vec<Point> = Vec::new();
        out.push(points[0]);
        let mut i: usize = 0;
        while i < n - 1
            invariant
                n == points@.len(),
                n >= 3,
                i <= n - 1,
                0 < self.q_ratio < self.r_ratio < ONE,
                goal == subdivide(points@, self.q(), self.r()),
                out@.len() == 2 * i + 1,
                forall|j: int| 0 <= j < out@.len() ==> out@[j] == goal[j],
            decreases n - 1 - i,
        {
            let p0: Point = points[i];
            let p1: Point = points[i + 1];
            let q: Point = Self::cut_point(p0, p1, self.q_ratio);
            let r: Point = Self::cut_point(p0, p1, self.r_ratio);
            proof {
                let a: int = 2 * i + 1;
                let b: int = 2 * i + 2;
                assert(a % 2 == 1 && a / 2 == i);
                assert(b % 2 == 0 && b / 2 - 1 == i);
                assert(goal[a] == q);
                assert(goal[b] == r);
            }
            out.push(q);
            out.push(r);
            i = i + 1;
        }
        out.push(points[n - 1]);
        assert(out@ =~= goal);
        out
    }

    /// The polyline after each number of steps from 0 to `steps`. For a
    /// polyline of fewer than three points, which no step changes, only the
    /// polyline itself is returned.
    pub fn calculate_steps(&self, initial_points: &[Point], steps: usize) -> (out: Vec<Vec<Point>>)
        ensures
            initial_points@.len() <= 2 ==> out@.len() == 1 && out@[0]@ == initial_points@,
            initial_points@.len() > 2 ==> out@.len() == steps + 1,
            initial_points@.len() > 2 ==> forall|k: int|
                0 <= k <= steps ==> (#[trigger] out@[k])@ == subdivide_times(
                    initial_points@,
                    self.q(),
                    self.r(),
                    k as nat,
                ),
    {
        let mut out: Vec<Vec<Point>> = Vec::new();
        if initial_points.len() <= 2 {
            out.push(copy_points(initial_points));
            return out;
        }
        let mut current: Vec<Point> = copy_points(initial_points);
        out.push(copy_points(initial_points));
        let mut i: usize = 0;
        while i < steps
            invariant
                i <= steps,
                current@ == subdivide_times(initial_points@, self.q(), self.r(), i as nat),
                out@.len() == i + 1,
                forall|k: int|
                    0 <= k <= i ==> (#[trigger] out@[k])@ == subdivide_times(
                        initial_points@,
                        self.q(),
                        self.r(),
                        k as nat,
                    ),
            decreases steps - i,
        {
            proof {
                lemma_steps_compose(initial_points@, self.q(), self.r(), i as nat);
            }
            current = self.calculate_step(current.as_slice());
            out.push(copy_points(current.as_slice()));
            i = i + 1;
        }
        out
    }

    /// The polyline after `step` steps, each computed from the one before.
    pub fn get_step_points(&self, initial_points: &[Point], step: usize) -> (out: Vec<Point>)
        ensures
            out@ == subdivide_times(initial_points@, self.q(), self.r(), step as nat),
    {
        if step == 0 || initial_points.len() <= 2 {
            proof {
                if initial_points@.len() <= 2 {
                    lemma_short_polyline_fixed(
                        initial_points@,
                        self.q(),
                        self.r(),
                        step as nat,
                    );
                }
            }
            return copy_points(initial_points);
        }
        let mut current: Vec<Point> = copy_points(initial_points);
        let mut i: usize = 0;
        while i < step
            invariant
                i <= step,
                current@ == subdivide_times(initial_points@, self.q(), self.r(), i as nat),
            decreases step - i,
        {
            proof {
                lemma_steps_compose(initial_points@, self.q(), self.r(), i as nat);
            }
            current = self.calculate_step(current.as_slice());
            i = i + 1;
        }
        current
    }
}

} // verus!
