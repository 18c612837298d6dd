//! Subpaths: chains of manipulator groups tracing a piecewise Bézier curve.
//!
//! A subpath is open (its curve runs from the first anchor to the last) or
//! closed (a final segment returns to the first anchor). Splitting at a
//! parametric position cuts the curve exactly: a closed subpath opens at the
//! cut, an open subpath falls into two open subpaths.

use vstd::prelude::*;

verus! {

use crate::num::{Rat, lemma_mul_bound, lemma_div_exact, COORD_LIMIT};
use crate::bezier::{
    Point,
    ManipulatorGroup,
    Bezier,
    BezierHandles,
    group_small,
    bezier_small,
    bez_split_spec,
    bez_eval_spec,
    bez_handle_start_spec,
    bez_handle_end_spec,
};
use vstd::arithmetic::div_mod::lemma_div_is_ordered;

/// How a position on a subpath is addressed.
#[derive(Clone, Copy, PartialEq, Debug)]
pub enum ComputeType {
    Parametric(Rat),
    Euclidean(Rat),
    EuclideanWithinError { t: Rat, epsilon: Rat },
}

/// A chain of manipulator groups, optionally closed into a loop.
#[derive(Clone, PartialEq, Debug)]
pub struct Subpath {
    pub manipulator_groups: Vec<ManipulatorGroup>,
    pub closed: bool,
}

/// Every coordinate of every group is within the geometry kernel's range.
pub open spec fn subpath_small(gs: Seq<ManipulatorGroup>) -> bool {
    forall|i: int| 0 <= i < gs.len() ==> group_small(#[trigger] gs[i])
}

/// Number of curve segments the chain traces.
pub open spec fn num_curves(gs: Seq<ManipulatorGroup>, closed: bool) -> int {
    if gs.len() == 0 {
        0
    } else if closed {
        gs.len() as int
    } else {
        gs.len() - 1
    }
}

/// The curve between a group and its successor (wrapping on the last group
/// of a closed subpath). Which handles the two groups carry decides the
/// curve's degree.
pub open spec fn curve_at(gs: Seq<ManipulatorGroup>, i: int) -> Bezier {
    let g0 = gs[i];
    let g1 = if i + 1 == gs.len() {
        gs[0]
    } else {
        gs[i + 1]
    };
    bez_between(g0, g1)
}

pub open spec fn bez_between(g0: ManipulatorGroup, g1: ManipulatorGroup) -> Bezier {
    Bezier {
        start: g0.anchor,
        end: g1.anchor,
        handles: match (g0.out_handle, g1.in_handle) {
            (Option::None, Option::None) => BezierHandles::Linear,
            (Option::Some(h), Option::None) => BezierHandles::Quadratic { handle: h },
            (Option::None, Option::Some(h)) => BezierHandles::Quadratic { handle: h },
            (Option::Some(h0), Option::Some(h1)) => BezierHandles::Cubic {
                handle_start: h0,
                handle_end: h1,
            },
        },
    }
}

/// Index of the curve segment the parameter `t` falls in, before clamping.
pub open spec fn param_raw_index(k: int, t: Rat) -> int {
    (t.n * k) / (t.d as int)
}

/// Position within that segment, as a numerator over `t.d`.
pub open spec fn param_rem(k: int, t: Rat) -> int {
    (t.n * k) % (t.d as int)
}

/// The curve segment actually split: the raw index, clamped to the last
/// segment when `t` is the very end of the subpath.
pub open spec fn param_index(k: int, t: Rat) -> int {
    if param_raw_index(k, t) >= k {
        k - 1
    } else {
        param_raw_index(k, t)
    }
}

/// The local parameter handed to the curve split.
pub open spec fn param_tau(k: int, t: Rat) -> Rat {
    if t.n == t.d {
        t
    } else {
        Rat { n: param_rem(k, t) as i128, d: t.d }
    }
}

/// Locate the split position: `(raw index, clamped index, local parameter,
/// remainder numerator)`.
fn split_params(k: usize, tv: Rat) -> (r: (usize, usize, Rat, i128))
    requires
        k >= 1,
        0 <= tv.n <= tv.d,
        0 < tv.d <= COORD_LIMIT,
    ensures
        r.0 as int == param_raw_index(k as int, tv),
        r.0 <= k,
        r.1 as int == param_index(k as int, tv),
        r.1 < k,
        r.2 == param_tau(k as int, tv),
        0 <= r.2.n <= r.2.d,
        0 < r.2.d <= COORD_LIMIT,
        r.3 as int == param_rem(k as int, tv),
{
    let a: u128 = tv.n as u128;
    let b: u128 = tv.d as u128;
    let k128: u128 = k as u128;
    proof {
        lemma_mul_bound(a as int, k128 as int, 0x1_0000, 0xFFFF_FFFF_FFFF_FFFF);
        lemma_mul_bound(b as int, k128 as int, 0x1_0000, 0xFFFF_FFFF_FFFF_FFFF);
    }
    let scaled: u128 = a * k128;
    let idx128: u128 = scaled / b;
    let rem128: u128 = scaled % b;
    proof {
        // a <= b, so the scaled position is at most b * k and the index at
        // most k.
        assert((a * k128) as int <= (b * k128) as int) by (nonlinear_arith)
            requires
                a as int <= b as int,
                k128 as int >= 0,
        ;
        lemma_div_is_ordered((a * k128) as int, (b * k128) as int, b as int);
        assert((b * k128) as int == (b as int) * (k128 as int));
        lemma_div_exact((b as int) * (k128 as int), b as int);
    }
    let idx: usize = idx128 as usize;
    let rem: i128 = rem128 as i128;
    let tau = if tv.n == tv.d {
        tv
    } else {
        Rat { n: rem, d: tv.d }
    };
    let ci: usize = if idx >= k {
        k - 1
    } else {
        idx
    };
    (idx, ci, tau, rem)
}

/// Copy a list of manipulator groups.
pub fn copy_groups(v: &Vec<ManipulatorGroup>) -> (r: Vec<ManipulatorGroup>)
    ensures
        r@ == v@,
{
    let mut r: Vec<ManipulatorGroup> = Vec::new();
    let mut i: usize = 0;
    while i < v.len()
        invariant
            i <= v.len(),
            r@ == v@.take(i as int),
        decreases v.len() - i,
    {
        r.push(v[i]);
        i = i + 1;
        proof {
            assert(r@ =~= v@.take(i as int));
        }
    }
    proof {
        assert(r@ =~= v@);
    }
    r
}

/// The two manipulator-group chains `split` produces: the first (or only)
/// open subpath, and the second when the subpath was open.
pub open spec fn subpath_split_spec(gs: Seq<ManipulatorGroup>, closed: bool, t: Rat) -> (
    Seq<ManipulatorGroup>,
    Option<Seq<ManipulatorGroup>>,
) {
    let k = num_curves(gs, closed);
    let idx = param_raw_index(k, t);
    let rem = param_rem(k, t);
    let halves = bez_split_spec(curve_at(gs, param_index(k, t)), param_tau(k, t));
    let fb = halves.0;
    let sb = halves.1;
    let cut = if t.n > 0 {
        if idx >= gs.len() {
            gs.len() as int
        } else {
            idx + 1
        }
    } else {
        0
    };
    let first0 = gs.take(cut);
    let second0 = gs.skip(cut);
    if closed && (t.n == 0 || t.n == t.d) {
        let last_curve = curve_at(gs, k - 1);
        let first1 = first0.push(
            ManipulatorGroup {
                anchor: fb.end,
                in_handle: bez_handle_end_spec(last_curve),
                out_handle: None,
            },
        );
        (second0 + first1, None)
    } else {
        let f1 = if first0.len() > 0 {
            first0.update(
                first0.len() - 1,
                ManipulatorGroup {
                    anchor: first0.last().anchor,
                    in_handle: first0.last().in_handle,
                    out_handle: bez_handle_start_spec(fb),
                },
            )
        } else {
            first0
        };
        let s1 = if second0.len() > 0 {
            second0.update(
                0,
                ManipulatorGroup {
                    anchor: second0[0].anchor,
                    in_handle: bez_handle_end_spec(sb),
                    out_handle: second0[0].out_handle,
                },
            )
        } else {
            second0
        };
        let f2 = if rem != 0 || t.n == 0 {
            f1.push(
                ManipulatorGroup {
                    anchor: fb.end,
                    in_handle: bez_handle_end_spec(fb),
                    out_handle: None,
                },
            )
        } else {
            f1
        };
        let s2 = if t.n != 0 {
            s1.insert(
                0,
                ManipulatorGroup {
                    anchor: sb.start,
                    in_handle: None,
                    out_handle: bez_handle_start_spec(sb),
                },
            )
        } else {
            s1
        };
        if closed {
            (s2 + f2, None)
        } else {
            (f2, Some(s2))
        }
    }
}

/// The point `evaluate` returns: the exact curve value at the located
/// position.
pub open spec fn subpath_eval_spec(gs: Seq<ManipulatorGroup>, closed: bool, t: Rat) -> Point {
    let k = num_curves(gs, closed);
    bez_eval_spec(curve_at(gs, param_index(k, t)), param_tau(k, t))
}

impl Subpath {
    /// A subpath over the given manipulator groups.
    pub fn new(manipulator_groups: Vec<ManipulatorGroup>, closed: bool) -> (r: Subpath)
        ensures
            r.manipulator_groups@ == manipulator_groups@,
            r.closed == closed,
    {
        Subpath { manipulator_groups, closed }
    }

    /// Number of curve segments: one fewer than the groups when open, as
    /// many as the groups when closed.
    pub fn len_segments(&self) -> (r: usize)
        requires
            self.manipulator_groups.len() >= 1,
        ensures
            r as int == num_curves(self.manipulator_groups@, self.closed),
    {
        if self.closed {
            self.manipulator_groups.len()
        } else {
            self.manipulator_groups.len() - 1
        }
    }

    /// The `i`-th curve segment.
    pub fn get_curve(&self, i: usize) -> (r: Bezier)
        requires
            i < num_curves(self.manipulator_groups@, self.closed),
        ensures
            r == curve_at(self.manipulator_groups@, i as int),
            subpath_small(self.manipulator_groups@) ==> bezier_small(r),
    {
        let n = self.manipulator_groups.len();
        let g0 = self.manipulator_groups[i];
        let j = i + 1;
        let g1 = if j == n {
            self.manipulator_groups[0]
        } else {
            self.manipulator_groups[j]
        };
        Bezier {
            start: g0.anchor,
            end: g1.anchor,
            handles: match (g0.out_handle, g1.in_handle) {
                (Option::None, Option::None) => BezierHandles::Linear,
                (Option::Some(h), Option::None) => BezierHandles::Quadratic { handle: h },
                (Option::None, Option::Some(h)) => BezierHandles::Quadratic { handle: h },
                (Option::Some(h0), Option::Some(h1)) => BezierHandles::Cubic {
                    handle_start: h0,
                    handle_end: h1,
                },
            },
        }
    }

    /// All curve segments in order.
    pub fn curves(&self) -> (r: Vec<Bezier>)
        ensures
            r@.len() == num_curves(self.manipulator_groups@, self.closed),
            forall|i: int|
                0 <= i < r@.len() ==> r@[i] == curve_at(self.manipulator_groups@, i),
    {
        let mut r: Vec<Bezier> = Vec::new();
        if self.manipulator_groups.len() == 0 {
            return r;
        }
        let k = self.len_segments();
        let mut i: usize = 0;
        while i < k
            invariant
                i <= k,
                k as int == num_curves(self.manipulator_groups@, self.closed),
                self.manipulator_groups.len() >= 1,
                r@.len() == i,
                forall|j: int|
                    0 <= j < i ==> r@[j] == curve_at(self.manipulator_groups@, j),
            decreases k - i,
        {
            r.push(self.get_curve(i));
            i = i + 1;
        }
        r
    }

    /// The exact point at the parametric position `t`. Only parametric
    /// addressing is provided; Euclidean addressing is excluded by the
    /// precondition.
    pub fn evaluate(&self, t: ComputeType) -> (r: Point)
        requires
            t matches ComputeType::Parametric(tv) && 0 <= tv.n <= tv.d && 0 < tv.d <= COORD_LIMIT,
            subpath_small(self.manipulator_groups@),
            num_curves(self.manipulator_groups@, self.closed) >= 1,
        ensures
            t matches ComputeType::Parametric(tv) ==> r == subpath_eval_spec(
                self.manipulator_groups@,
                self.closed,
                tv,
            ),
    {
        match t {
            ComputeType::Parametric(tv) => {
                let k = self.len_segments();
                let (_idx, ci, tau, _rem) = split_params(k, tv);
                let curve = self.get_curve(ci);
                curve.evaluate(tau)
            },
            _ => unreached(),
        }
    }

    /// Split the subpath at the parametric position `t`.
    ///
    /// A closed subpath opens at the cut and comes back as a single open
    /// subpath; an open subpath comes back as two open subpaths. Only
    /// parametric addressing is provided; Euclidean addressing is excluded
    /// by the precondition.
    pub fn split(&self, t: ComputeType) -> (r: (Subpath, Option<Subpath>))
        requires
            t matches ComputeType::Parametric(tv) && 0 <= tv.n <= tv.d && 0 < tv.d <= COORD_LIMIT,
            subpath_small(self.manipulator_groups@),
            num_curves(self.manipulator_groups@, self.closed) >= 1,
        ensures
            t matches ComputeType::Parametric(tv) ==> ({
                let sp = subpath_split_spec(self.manipulator_groups@, self.closed, tv);
                &&& r.0.manipulator_groups@ == sp.0
                &&& r.0.closed == false
                &&& (r.1 is Some) == (sp.1 is Some)
                &&& (r.1 matches Some(second) ==> Some(second.manipulator_groups@) == sp.1
                    && second.closed == false)
            }),
    {
        match t {
            ComputeType::Parametric(tv) => {
                let ghost gs = self.manipulator_groups@;
                let k = self.len_segments();
                let (idx, ci, tau, rem) = split_params(k, tv);
                let curve = self.get_curve(ci);
                let halves = curve.split(tau);
                let fb = halves.0;
                let sb = halves.1;
                let num_groups = self.manipulator_groups.len();
                let mut first_split: Vec<ManipulatorGroup>;
                let mut second_split: Vec<ManipulatorGroup>;
                if tv.n > 0 {
                    let cut: usize = if num_groups <= idx {
                        num_groups
                    } else {
                        idx + 1
                    };
                    let mut c = copy_groups(&self.manipulator_groups);
                    let c2 = c.split_off(cut);
                    first_split = c;
                    second_split = c2;
                } else {
                    first_split = Vec::new();
                    second_split = copy_groups(&self.manipulator_groups);
                }
                if self.closed && (tv.n == 0 || tv.n == tv.d) {
                    let last_curve = self.get_curve(k - 1);
                    first_split.push(
                        ManipulatorGroup {
                            anchor: fb.end,
                            in_handle: last_curve.handle_end(),
                            out_handle: None,
                        },
                    );
                    second_split.append(&mut first_split);
                    (Subpath::new(second_split, false), None)
                } else {
                    let flen = first_split.len();
                    if flen > 0 {
                        let mut g = first_split[flen - 1];
                        g.out_handle = fb.handle_start();
                        first_split[flen - 1] = g;
                    }
                    if second_split.len() > 0 {
                        let mut g = second_split[0];
                        g.in_handle = sb.handle_end();
                        second_split[0] = g;
                    }
                    if rem != 0 || tv.n == 0 {
                        first_split.push(
                            ManipulatorGroup {
                                anchor: fb.end,
                                in_handle: fb.handle_end(),
                                out_handle: None,
                            },
                        );
                    }
                    if tv.n != 0 {
                        second_split.insert(
                            0,
                            ManipulatorGroup {
                                anchor: sb.start,
                                in_handle: None,
                                out_handle: sb.handle_start(),
                            },
                        );
                    }
                    if self.closed {
                        second_split.append(&mut first_split);
                        (Subpath::new(second_split, false), None)
                    } else {
                        (Subpath::new(first_split, false), Some(Subpath::new(second_split, false)))
                    }
                }
            },
            _ => unreached(),
        }
    }
}

} // verus!
