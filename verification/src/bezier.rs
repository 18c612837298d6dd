//! Bézier curves over exact rational coordinates.
//!
//! A curve is linear, quadratic or cubic depending on which handles its two
//! manipulator groups carry. Splitting at a parameter runs de Casteljau's
//! algorithm exactly: each axis is put over a common denominator, the
//! integer lerp levels are computed in `i128`, and every resulting
//! coordinate is reduced to canonical form, so equal points are structurally
//! equal wherever they were computed.

use vstd::prelude::*;

verus! {

use crate::num::{
    Rat,
    rat_small,
    rat_norm,
    normalize,
    lemma_mul_bound,
    lemma_mul_pos,
    COORD_LIMIT,
};

/// A point in the plane with exact rational coordinates.
#[derive(Clone, Copy, PartialEq, Eq, Structural, Debug)]
pub struct Point {
    pub x: Rat,
    pub y: Rat,
}

pub open spec fn point_small(p: Point) -> bool {
    rat_small(p.x) && rat_small(p.y)
}

/// An anchor together with the optional incoming and outgoing handles.
#[derive(Clone, Copy, PartialEq, Eq, Debug)]
pub struct ManipulatorGroup {
    pub anchor: Point,
    pub in_handle: Option<Point>,
    pub out_handle: Option<Point>,
}

pub open spec fn group_small(g: ManipulatorGroup) -> bool {
    &&& point_small(g.anchor)
    &&& (g.in_handle matches Some(h) ==> point_small(h))
    &&& (g.out_handle matches Some(h) ==> point_small(h))
}

/// Content equality of two optional points.
pub fn opt_point_eq(a: &Option<Point>, b: &Option<Point>) -> (r: bool)
    ensures
        r == (a == b),
{
    match (a, b) {
        (Option::None, Option::None) => true,
        (Option::Some(x), Option::Some(y)) => x == y,
        _ => false,
    }
}

/// Content equality of two manipulator groups.
pub fn group_eq(a: &ManipulatorGroup, b: &ManipulatorGroup) -> (r: bool)
    ensures
        r == (a == b),
{
    let r = a.anchor == b.anchor && opt_point_eq(&a.in_handle, &b.in_handle) && opt_point_eq(
        &a.out_handle,
        &b.out_handle,
    );
    proof {
        if a.anchor == b.anchor && a.in_handle == b.in_handle && a.out_handle == b.out_handle {
            assert(*a == *b);
        }
    }
    r
}

/// Which handles a curve carries.
#[derive(Clone, Copy, PartialEq, Eq, Debug)]
pub enum BezierHandles {
    Linear,
    Quadratic { handle: Point },
    Cubic { handle_start: Point, handle_end: Point },
}

/// A Bézier curve of degree one, two or three.
#[derive(Clone, Copy, PartialEq, Eq, Debug)]
pub struct Bezier {
    pub start: Point,
    pub end: Point,
    pub handles: BezierHandles,
}

pub open spec fn bezier_small(b: Bezier) -> bool {
    &&& point_small(b.start)
    &&& point_small(b.end)
    &&& (b.handles matches BezierHandles::Quadratic { handle } ==> point_small(handle))
    &&& (b.handles matches BezierHandles::Cubic { handle_start, handle_end } ==> point_small(
        handle_start,
    ) && point_small(handle_end))
}

pub open spec fn bez_handle_start_spec(b: Bezier) -> Option<Point> {
    match b.handles {
        BezierHandles::Linear => None,
        BezierHandles::Quadratic { handle } => Some(handle),
        BezierHandles::Cubic { handle_start, handle_end } => Some(handle_start),
    }
}

pub open spec fn bez_handle_end_spec(b: Bezier) -> Option<Point> {
    match b.handles {
        BezierHandles::Linear => None,
        BezierHandles::Quadratic { handle } => None,
        BezierHandles::Cubic { handle_start, handle_end } => Some(handle_end),
    }
}

/// One level of integer de Casteljau: `(q - p) * a + p * b` for the
/// parameter `p / q`, with `u == q - p`.
pub open spec fn lerp_n(a: int, b: int, p: int, q: int) -> int {
    (q - p) * a + p * b
}

/// Bounded integer lerp step; `lim` bounds both inputs.
fn lerp_step(a: i128, b: i128, p: i128, u: i128, lim: Ghost<int>) -> (r: i128)
    requires
        -lim@ <= a as int <= lim@,
        -lim@ <= b as int <= lim@,
        0 < lim@ <= 0x1000_0000_0000_0000_0000_0000_0000,
        0 <= p,
        0 <= u,
        p + u <= COORD_LIMIT,
    ensures
        r as int == lerp_n(a as int, b as int, p as int, (p + u) as int),
        -(0x2_0000 * lim@) <= r as int <= 0x2_0000 * lim@,
{
    proof {
        lemma_mul_bound(u as int, a as int, 0x1_0000, lim@);
        lemma_mul_bound(p as int, b as int, 0x1_0000, lim@);
    }
    u * a + p * b
}

// ------------------------------------------------------------------
// Per-axis exact split at p / q, one function per curve degree.
// Control coordinates are put over the common denominator (the product of
// their denominators); the lerp levels then stay integral.
// ------------------------------------------------------------------
pub open spec fn lin_den(c0: Rat, c1: Rat) -> int {
    c0.d * c1.d
}

pub open spec fn lin_mid(c0: Rat, c1: Rat, p: int, q: int) -> Rat {
    rat_norm(lerp_n(c0.n * c1.d, c1.n * c0.d, p, q), lin_den(c0, c1) * q)
}

/// Midpoint of a linear curve axis at `p / q`.
fn lin_axis(c0: Rat, c1: Rat, p: i128, q: i128) -> (r: Rat)
    requires
        rat_small(c0),
        rat_small(c1),
        0 <= p <= q,
        1 <= q <= COORD_LIMIT,
    ensures
        r == lin_mid(c0, c1, p as int, q as int),
{
    proof {
        lemma_mul_bound(c0.n as int, c1.d as int, 0x1_0000, 0x1_0000);
        lemma_mul_bound(c1.n as int, c0.d as int, 0x1_0000, 0x1_0000);
        lemma_mul_pos(c0.d as int, c1.d as int);
        lemma_mul_bound(c0.d as int, c1.d as int, 0x1_0000, 0x1_0000);
    }
    let n0 = c0.n * c1.d;
    let n1 = c1.n * c0.d;
    let m = lerp_step(n0, n1, p, q - p, Ghost(0x1_0000_0000int));
    let dd = c0.d * c1.d;
    proof {
        lemma_mul_pos(dd as int, q as int);
        lemma_mul_bound(dd as int, q as int, 0x1_0000_0000, 0x1_0000);
    }
    normalize(m, dd * q)
}

pub open spec fn quad_den(c0: Rat, c1: Rat, c2: Rat) -> int {
    c0.d * (c1.d * c2.d)
}

pub open spec fn quad_n0(c0: Rat, c1: Rat, c2: Rat) -> int {
    c0.n * (c1.d * c2.d)
}

pub open spec fn quad_n1(c0: Rat, c1: Rat, c2: Rat) -> int {
    c1.n * (c0.d * c2.d)
}

pub open spec fn quad_n2(c0: Rat, c1: Rat, c2: Rat) -> int {
    c2.n * (c0.d * c1.d)
}

pub open spec fn quad_a0(c0: Rat, c1: Rat, c2: Rat, p: int, q: int) -> int {
    lerp_n(quad_n0(c0, c1, c2), quad_n1(c0, c1, c2), p, q)
}

pub open spec fn quad_a1(c0: Rat, c1: Rat, c2: Rat, p: int, q: int) -> int {
    lerp_n(quad_n1(c0, c1, c2), quad_n2(c0, c1, c2), p, q)
}

pub open spec fn quad_m(c0: Rat, c1: Rat, c2: Rat, p: int, q: int) -> int {
    lerp_n(quad_a0(c0, c1, c2, p, q), quad_a1(c0, c1, c2, p, q), p, q)
}

/// `(first handle, midpoint, second handle)` of a quadratic axis at `p / q`.
pub open spec fn quad_axis_spec(c0: Rat, c1: Rat, c2: Rat, p: int, q: int) -> (Rat, Rat, Rat) {
    let dd = quad_den(c0, c1, c2);
    (
        rat_norm(quad_a0(c0, c1, c2, p, q), dd * q),
        rat_norm(quad_m(c0, c1, c2, p, q), dd * q * q),
        rat_norm(quad_a1(c0, c1, c2, p, q), dd * q),
    )
}

fn quad_axis(c0: Rat, c1: Rat, c2: Rat, p: i128, q: i128) -> (r: (Rat, Rat, Rat))
    requires
        rat_small(c0),
        rat_small(c1),
        rat_small(c2),
        0 <= p <= q,
        1 <= q <= COORD_LIMIT,
    ensures
        r == quad_axis_spec(c0, c1, c2, p as int, q as int),
{
    proof {
        lemma_mul_bound(c1.d as int, c2.d as int, 0x1_0000, 0x1_0000);
        lemma_mul_bound(c0.d as int, c2.d as int, 0x1_0000, 0x1_0000);
        lemma_mul_bound(c0.d as int, c1.d as int, 0x1_0000, 0x1_0000);
        lemma_mul_pos(c1.d as int, c2.d as int);
        lemma_mul_bound(c0.n as int, (c1.d * c2.d) as int, 0x1_0000, 0x1_0000_0000);
        lemma_mul_bound(c1.n as int, (c0.d * c2.d) as int, 0x1_0000, 0x1_0000_0000);
        lemma_mul_bound(c2.n as int, (c0.d * c1.d) as int, 0x1_0000, 0x1_0000_0000);
        lemma_mul_pos(c0.d as int, (c1.d * c2.d) as int);
        lemma_mul_bound(c0.d as int, (c1.d * c2.d) as int, 0x1_0000, 0x1_0000_0000);
    }
    let n0 = c0.n * (c1.d * c2.d);
    let n1 = c1.n * (c0.d * c2.d);
    let n2 = c2.n * (c0.d * c1.d);
    let u = q - p;
    let a0 = lerp_step(n0, n1, p, u, Ghost(0x1_0000_0000_0000int));
    let a1 = lerp_step(n1, n2, p, u, Ghost(0x1_0000_0000_0000int));
    let m = lerp_step(a0, a1, p, u, Ghost(0x2_0000_0000_0000_0000int));
    let dd = c0.d * (c1.d * c2.d);
    proof {
        lemma_mul_pos(dd as int, q as int);
        lemma_mul_bound(dd as int, q as int, 0x1_0000_0000_0000, 0x1_0000);
        lemma_mul_pos((dd * q) as int, q as int);
        lemma_mul_bound((dd * q) as int, q as int, 0x1_0000_0000_0000_0000, 0x1_0000);
    }
    let dq = dd * q;
    let dq2 = dq * q;
    (normalize(a0, dq), normalize(m, dq2), normalize(a1, dq))
}

pub open spec fn cu_den(c0: Rat, c1: Rat, c2: Rat, c3: Rat) -> int {
    c0.d * (c1.d * (c2.d * c3.d))
}

pub open spec fn cu_n0(c0: Rat, c1: Rat, c2: Rat, c3: Rat) -> int {
    c0.n * (c1.d * (c2.d * c3.d))
}

pub open spec fn cu_n1(c0: Rat, c1: Rat, c2: Rat, c3: Rat) -> int {
    c1.n * (c0.d * (c2.d * c3.d))
}

pub open spec fn cu_n2(c0: Rat, c1: Rat, c2: Rat, c3: Rat) -> int {
    c2.n * (c0.d * (c1.d * c3.d))
}

pub open spec fn cu_n3(c0: Rat, c1: Rat, c2: Rat, c3: Rat) -> int {
    c3.n * (c0.d * (c1.d * c2.d))
}

pub open spec fn cu_a0(c0: Rat, c1: Rat, c2: Rat, c3: Rat, p: int, q: int) -> int {
    lerp_n(cu_n0(c0, c1, c2, c3), cu_n1(c0, c1, c2, c3), p, q)
}

pub open spec fn cu_a1(c0: Rat, c1: Rat, c2: Rat, c3: Rat, p: int, q: int) -> int {
    lerp_n(cu_n1(c0, c1, c2, c3), cu_n2(c0, c1, c2, c3), p, q)
}

pub open spec fn cu_a2(c0: Rat, c1: Rat, c2: Rat, c3: Rat, p: int, q: int) -> int {
    lerp_n(cu_n2(c0, c1, c2, c3), cu_n3(c0, c1, c2, c3), p, q)
}

pub open spec fn cu_b0(c0: Rat, c1: Rat, c2: Rat, c3: Rat, p: int, q: int) -> int {
    lerp_n(cu_a0(c0, c1, c2, c3, p, q), cu_a1(c0, c1, c2, c3, p, q), p, q)
}

pub open spec fn cu_b1(c0: Rat, c1: Rat, c2: Rat, c3: Rat, p: int, q: int) -> int {
    lerp_n(cu_a1(c0, c1, c2, c3, p, q), cu_a2(c0, c1, c2, c3, p, q), p, q)
}

pub open spec fn cu_c(c0: Rat, c1: Rat, c2: Rat, c3: Rat, p: int, q: int) -> int {
    lerp_n(cu_b0(c0, c1, c2, c3, p, q), cu_b1(c0, c1, c2, c3, p, q), p, q)
}

/// `(first handle start, first handle end, midpoint, second handle start,
/// second handle end)` of a cubic axis at `p / q`.
pub open spec fn cu_axis_spec(c0: Rat, c1: Rat, c2: Rat, c3: Rat, p: int, q: int) -> (
    Rat,
    Rat,
    Rat,
    Rat,
    Rat,
) {
    let dd = cu_den(c0, c1, c2, c3);
    (
        rat_norm(cu_a0(c0, c1, c2, c3, p, q), dd * q),
        rat_norm(cu_b0(c0, c1, c2, c3, p, q), dd * q * q),
        rat_norm(cu_c(c0, c1, c2, c3, p, q), dd * q * q * q),
        rat_norm(cu_b1(c0, c1, c2, c3, p, q), dd * q * q),
        rat_norm(cu_a2(c0, c1, c2, c3, p, q), dd * q),
    )
}

fn cu_axis(c0: Rat, c1: Rat, c2: Rat, c3: Rat, p: i128, q: i128) -> (r: (Rat, Rat, Rat, Rat, Rat))
    requires
        rat_small(c0),
        rat_small(c1),
        rat_small(c2),
        rat_small(c3),
        0 <= p <= q,
        1 <= q <= COORD_LIMIT,
    ensures
        r == cu_axis_spec(c0, c1, c2, c3, p as int, q as int),
{
    proof {
        lemma_mul_bound(c2.d as int, c3.d as int, 0x1_0000, 0x1_0000);
        lemma_mul_pos(c2.d as int, c3.d as int);
        lemma_mul_bound(c1.d as int, (c2.d * c3.d) as int, 0x1_0000, 0x1_0000_0000);
        lemma_mul_pos(c1.d as int, (c2.d * c3.d) as int);
        lemma_mul_bound(c1.d as int, c3.d as int, 0x1_0000, 0x1_0000);
        lemma_mul_bound(c1.d as int, c2.d as int, 0x1_0000, 0x1_0000);
        lemma_mul_bound(c0.d as int, (c2.d * c3.d) as int, 0x1_0000, 0x1_0000_0000);
        lemma_mul_bound(c0.d as int, (c1.d * c3.d) as int, 0x1_0000, 0x1_0000_0000);
        lemma_mul_bound(c0.d as int, (c1.d * c2.d) as int, 0x1_0000, 0x1_0000_0000);
        lemma_mul_bound(c0.n as int, (c1.d * (c2.d * c3.d)) as int, 0x1_0000, 0x1_0000_0000_0000);
        lemma_mul_bound(c1.n as int, (c0.d * (c2.d * c3.d)) as int, 0x1_0000, 0x1_0000_0000_0000);
        lemma_mul_bound(c2.n as int, (c0.d * (c1.d * c3.d)) as int, 0x1_0000, 0x1_0000_0000_0000);
        lemma_mul_bound(c3.n as int, (c0.d * (c1.d * c2.d)) as int, 0x1_0000, 0x1_0000_0000_0000);
        lemma_mul_pos(c0.d as int, (c1.d * (c2.d * c3.d)) as int);
        lemma_mul_bound(c0.d as int, (c1.d * (c2.d * c3.d)) as int, 0x1_0000, 0x1_0000_0000_0000);
    }
    let n0 = c0.n * (c1.d * (c2.d * c3.d));
    let n1 = c1.n * (c0.d * (c2.d * c3.d));
    let n2 = c2.n * (c0.d * (c1.d * c3.d));
    let n3 = c3.n * (c0.d * (c1.d * c2.d));
    let u = q - p;
    let a0 = lerp_step(n0, n1, p, u, Ghost(0x1_0000_0000_0000_0000int));
    let a1 = lerp_step(n1, n2, p, u, Ghost(0x1_0000_0000_0000_0000int));
    let a2 = lerp_step(n2, n3, p, u, Ghost(0x1_0000_0000_0000_0000int));
    let b0 = lerp_step(a0, a1, p, u, Ghost(0x2_0000_0000_0000_0000_0000int));
    let b1 = lerp_step(a1, a2, p, u, Ghost(0x2_0000_0000_0000_0000_0000int));
    let cc = lerp_step(b0, b1, p, u, Ghost(0x4_0000_0000_0000_0000_0000_0000int));
    let dd = c0.d * (c1.d * (c2.d * c3.d));
    proof {
        lemma_mul_pos(dd as int, q as int);
        lemma_mul_bound(dd as int, q as int, 0x1_0000_0000_0000_0000, 0x1_0000);
        lemma_mul_pos((dd * q) as int, q as int);
        lemma_mul_bound((dd * q) as int, q as int, 0x1_0000_0000_0000_0000_0000, 0x1_0000);
        lemma_mul_pos((dd * q * q) as int, q as int);
        lemma_mul_bound((dd * q * q) as int, q as int, 0x1_0000_0000_0000_0000_0000_0000, 0x1_0000);
    }
    let dq = dd * q;
    let dq2 = dq * q;
    let dq3 = dq2 * q;
    (normalize(a0, dq), normalize(b0, dq2), normalize(cc, dq3), normalize(b1, dq2), normalize(
        a2,
        dq,
    ))
}

/// The two halves of `b` split at the parameter `t`, each coordinate in
/// canonical form. The midpoint is the curve's exact value at `t`.
pub open spec fn bez_split_spec(b: Bezier, t: Rat) -> (Bezier, Bezier) {
    let p = t.n as int;
    let q = t.d as int;
    match b.handles {
        BezierHandles::Linear => {
            let m = Point { x: lin_mid(b.start.x, b.end.x, p, q), y: lin_mid(b.start.y, b.end.y, p, q) };
            (
                Bezier { start: b.start, end: m, handles: BezierHandles::Linear },
                Bezier { start: m, end: b.end, handles: BezierHandles::Linear },
            )
        },
        BezierHandles::Quadratic { handle } => {
            let ax = quad_axis_spec(b.start.x, handle.x, b.end.x, p, q);
            let ay = quad_axis_spec(b.start.y, handle.y, b.end.y, p, q);
            let m = Point { x: ax.1, y: ay.1 };
            (
                Bezier {
                    start: b.start,
                    end: m,
                    handles: BezierHandles::Quadratic { handle: Point { x: ax.0, y: ay.0 } },
                },
                Bezier {
                    start: m,
                    end: b.end,
                    handles: BezierHandles::Quadratic { handle: Point { x: ax.2, y: ay.2 } },
                },
            )
        },
        BezierHandles::Cubic { handle_start, handle_end } => {
            let ax = cu_axis_spec(b.start.x, handle_start.x, handle_end.x, b.end.x, p, q);
            let ay = cu_axis_spec(b.start.y, handle_start.y, handle_end.y, b.end.y, p, q);
            let m = Point { x: ax.2, y: ay.2 };
            (
                Bezier {
                    start: b.start,
                    end: m,
                    handles: BezierHandles::Cubic {
                        handle_start: Point { x: ax.0, y: ay.0 },
                        handle_end: Point { x: ax.1, y: ay.1 },
                    },
                },
                Bezier {
                    start: m,
                    end: b.end,
                    handles: BezierHandles::Cubic {
                        handle_start: Point { x: ax.3, y: ay.3 },
                        handle_end: Point { x: ax.4, y: ay.4 },
                    },
                },
            )
        },
    }
}

/// The curve's exact value at `t`: the shared endpoint of its two halves.
pub open spec fn bez_eval_spec(b: Bezier, t: Rat) -> Point {
    bez_split_spec(b, t).0.end
}

impl Bezier {
    /// The outgoing handle at the start, if the degree provides one.
    pub fn handle_start(&self) -> (r: Option<Point>)
        ensures
            r == bez_handle_start_spec(*self),
    {
        match self.handles {
            BezierHandles::Linear => None,
            BezierHandles::Quadratic { handle } => Some(handle),
            BezierHandles::Cubic { handle_start, handle_end: _ } => Some(handle_start),
        }
    }

    /// The incoming handle at the end, if the degree provides one.
    pub fn handle_end(&self) -> (r: Option<Point>)
        ensures
            r == bez_handle_end_spec(*self),
    {
        match self.handles {
            BezierHandles::Linear => None,
            BezierHandles::Quadratic { handle: _ } => None,
            BezierHandles::Cubic { handle_start: _, handle_end } => Some(handle_end),
        }
    }

    /// Split the curve at parameter `t` into the two curves that trace its
    /// first and second part.
    pub fn split(&self, t: Rat) -> (r: (Bezier, Bezier))
        requires
            bezier_small(*self),
            0 <= t.n <= t.d,
            0 < t.d <= COORD_LIMIT,
        ensures
            r == bez_split_spec(*self, t),
    {
        let p = t.n;
        let q = t.d;
        match self.handles {
            BezierHandles::Linear => {
                let mx = lin_axis(self.start.x, self.end.x, p, q);
                let my = lin_axis(self.start.y, self.end.y, p, q);
                let m = Point { x: mx, y: my };
                (
                    Bezier { start: self.start, end: m, handles: BezierHandles::Linear },
                    Bezier { start: m, end: self.end, handles: BezierHandles::Linear },
                )
            },
            BezierHandles::Quadratic { handle } => {
                let ax = quad_axis(self.start.x, handle.x, self.end.x, p, q);
                let ay = quad_axis(self.start.y, handle.y, self.end.y, p, q);
                let m = Point { x: ax.1, y: ay.1 };
                (
                    Bezier {
                        start: self.start,
                        end: m,
                        handles: BezierHandles::Quadratic { handle: Point { x: ax.0, y: ay.0 } },
                    },
                    Bezier {
                        start: m,
                        end: self.end,
                        handles: BezierHandles::Quadratic { handle: Point { x: ax.2, y: ay.2 } },
                    },
                )
            },
            BezierHandles::Cubic { handle_start, handle_end } => {
                let ax = cu_axis(self.start.x, handle_start.x, handle_end.x, self.end.x, p, q);
                let ay = cu_axis(self.start.y, handle_start.y, handle_end.y, self.end.y, p, q);
                let m = Point { x: ax.2, y: ay.2 };
                (
                    Bezier {
                        start: self.start,
                        end: m,
                        handles: BezierHandles::Cubic {
                            handle_start: Point { x: ax.0, y: ay.0 },
                            handle_end: Point { x: ax.1, y: ay.1 },
                        },
                    },
                    Bezier {
                        start: m,
                        end: self.end,
                        handles: BezierHandles::Cubic {
                            handle_start: Point { x: ax.3, y: ay.3 },
                            handle_end: Point { x: ax.4, y: ay.4 },
                        },
                    },
                )
            },
        }
    }

    /// The curve's exact value at parameter `t`.
    pub fn evaluate(&self, t: Rat) -> (r: Point)
        requires
            bezier_small(*self),
            0 <= t.n <= t.d,
            0 < t.d <= COORD_LIMIT,
        ensures
            r == bez_eval_spec(*self, t),
    {
        let (first, _second) = self.split(t);
        first.end
    }
}

} // verus!
