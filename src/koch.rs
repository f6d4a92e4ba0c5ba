//! The Koch curve between two lattice points.

use crate::geometry::{
    divisible, lemma_combination_divisible, lemma_divisible_step, minus, offset, plus, pow3,
    rotate60, scale, third, third_of, times, translate, turn, Coords, Point,
};
use vstd::arithmetic::div_mod::lemma_mod_multiples_basic;
use vstd::arithmetic::power::{lemma_pow_positive, pow};
use vstd::prelude::*;

verus! {

/// A line to be drawn from `start` to `end`.
#[derive(Clone, Copy, Debug, PartialEq, Eq, Structural)]
pub struct Segment {
    pub start: Point,
    pub end: Point,
}

/// A segment as a pair of mathematical points.
pub type Span = (Coords, Coords);

impl View for Segment {
    type V = Span;

    open spec fn view(&self) -> Span {
        (self.start@, self.end@)
    }
}

/// The segments of `s`, each as a pair of mathematical points.
pub open spec fn spans(s: Seq<Segment>) -> Seq<Span> {
    s.map_values(|g: Segment| g@)
}

/// How many subdivision steps remain when the recursion is at `depth` and
/// stops at `max_depth`.
pub open spec fn levels(depth: u32, max_depth: u32) -> nat {
    if depth >= max_depth {
        0
    } else {
        (max_depth - depth) as nat
    }
}

/// The Koch curve of order `n` from `p0` to `p1`, as the ordered sequence of
/// its segments. Order 0 is the straight segment. Otherwise the segment is cut
/// into thirds at `pa` and `pb`, the middle third is replaced by the two other
/// sides of the equilateral triangle over it, with apex `pn` to the left of
/// the direction of travel, and each of the four pieces is drawn at order
/// `n - 1`.
pub open spec fn koch_path(p0: Coords, p1: Coords, n: nat) -> Seq<Span>
    decreases n,
{
    if n == 0 {
        seq![(p0, p1)]
    } else {
        let d = third_of(minus(p1, p0));
        let pa = plus(p0, d);
        let pn = plus(pa, turn(d));
        let pb = plus(pa, d);
        koch_path(p0, pa, (n - 1) as nat) + koch_path(pa, pn, (n - 1) as nat) + koch_path(
            pn,
            pb,
            (n - 1) as nat,
        ) + koch_path(pb, p1, (n - 1) as nat)
    }
}

/// The absolute value of `v`.
pub open spec fn abs(v: int) -> int {
    if v < 0 {
        -v
    } else {
        v
    }
}

/// Whether every point that the subdivision of `p0`-`p1` can reach fits in
/// an `i64`: the curve strays from `p0` by at most three times the larger
/// coordinate of `p1 - p0`.
pub open spec fn has_room(p0: Coords, p1: Coords) -> bool {
    let d = minus(p1, p0);
    &&& abs(p0.0) + 3 * abs(d.0) <= i64::MAX
    &&& abs(p0.0) + 3 * abs(d.1) <= i64::MAX
    &&& abs(p0.1) + 3 * abs(d.0) <= i64::MAX
    &&& abs(p0.1) + 3 * abs(d.1) <= i64::MAX
}

/// The four pieces of a subdivided segment again have room, and the points
/// that cut it fit in an `i64`.
proof fn lemma_pieces_have_room(p0: Coords, p1: Coords, d: Coords)
    requires
        has_room(p0, p1),
        d.0 * 3 == p1.0 - p0.0,
        d.1 * 3 == p1.1 - p0.1,
    ensures
        ({
            let pa = plus(p0, d);
            let pn = plus(pa, turn(d));
            let pb = plus(pa, d);
            &&& has_room(p0, pa)
            &&& has_room(pa, pn)
            &&& has_room(pn, pb)
            &&& has_room(pb, p1)
        }),
{
}

/// Cutting a segment whose vector is a multiple of `3^n` gives pieces whose
/// vectors are multiples of `3^(n-1)`.
pub proof fn lemma_pieces_divisible(p0: Coords, p1: Coords, n: nat)
    requires
        n > 0,
        divisible(minus(p1, p0), n),
    ensures
        ({
            let d = third_of(minus(p1, p0));
            let pa = plus(p0, d);
            let pn = plus(pa, turn(d));
            let pb = plus(pa, d);
            &&& d.0 * 3 == p1.0 - p0.0
            &&& d.1 * 3 == p1.1 - p0.1
            &&& divisible(minus(pa, p0), (n - 1) as nat)
            &&& divisible(minus(pn, pa), (n - 1) as nat)
            &&& divisible(minus(pb, pn), (n - 1) as nat)
            &&& divisible(minus(p1, pb), (n - 1) as nat)
        }),
{
    let d = third_of(minus(p1, p0));
    let m = pow(3, (n - 1) as nat);
    lemma_divisible_step(p1.0 - p0.0, (n - 1) as nat);
    lemma_divisible_step(p1.1 - p0.1, (n - 1) as nat);
    lemma_pow_positive(3, (n - 1) as nat);
    lemma_combination_divisible(d.0, d.1, 0, -1, m);
    lemma_combination_divisible(d.0, d.1, 1, 1, m);
    lemma_combination_divisible(d.0, d.1, -1, 0, m);
}

/// Appends to `out` the segments of the Koch curve from `p0` to `p1`, cut
/// `max_depth - depth` times, in order along the curve.
pub fn draw_koch_line(out: &mut Vec<Segment>, p0: &Point, p1: &Point, depth: u32, max_depth: u32)
    requires
        has_room(p0@, p1@),
        divisible(minus(p1@, p0@), levels(depth, max_depth)),
    ensures
        spans(final(out)@) == spans(old(out)@) + koch_path(p0@, p1@, levels(depth, max_depth)),
    decreases levels(depth, max_depth),
{
    if max_depth <= depth {
        out.push(Segment { start: *p0, end: *p1 });
        assert(spans(out@) =~= spans(old(out)@) + seq![(p0@, p1@)]);
        return ;
    }
    let ghost n = levels(depth, max_depth);
    proof {
        lemma_pieces_divisible(p0@, p1@, n);
    }
    let d = third(offset(*p0, *p1));
    proof {
        lemma_pieces_have_room(p0@, p1@, d@);
    }
    let pa = translate(*p0, d);
    let pn = translate(pa, rotate60(d));
    let pb = translate(pa, d);
    assert(third_of(minus(p1@, p0@)) == d@);
    draw_koch_line(out, p0, &pa, depth + 1, max_depth);
    draw_koch_line(out, &pa, &pn, depth + 1, max_depth);
    draw_koch_line(out, &pn, &pb, depth + 1, max_depth);
    draw_koch_line(out, &pb, p1, depth + 1, max_depth);
    assert(spans(out@) =~= spans(old(out)@) + koch_path(p0@, p1@, n));
}

/// The segments of the Koch curve of order `max_depth` from `p0` to `p1`.
/// The curve is computed in units of `3^-max_depth`, where every point it
/// visits lies on the lattice: its endpoints are `p0` and `p1` stretched by
/// `3^max_depth`.
pub fn koch_curve(p0: &Point, p1: &Point, max_depth: u32) -> (r: Vec<Segment>)
    requires
        pow(3, max_depth as nat) <= i64::MAX,
        has_room(times(p0@, pow(3, max_depth as nat)), times(p1@, pow(3, max_depth as nat))),
    ensures
        spans(r@) == koch_path(
            times(p0@, pow(3, max_depth as nat)),
            times(p1@, pow(3, max_depth as nat)),
            max_depth as nat,
        ),
{
    let ghost n = max_depth as nat;
    let ghost m = pow(3, n);
    let unit = pow3(max_depth);
    proof {
        lemma_pow_positive(3, n);
        assert(p1.a * m - p0.a * m == (p1.a - p0.a) * m) by (nonlinear_arith);
        assert(p1.b * m - p0.b * m == (p1.b - p0.b) * m) by (nonlinear_arith);
        lemma_mod_multiples_basic(p1.a - p0.a, m);
        lemma_mod_multiples_basic(p1.b - p0.b, m);
        assert(levels(0, max_depth) == n);
    }
    let q0 = scale(*p0, unit);
    let q1 = scale(*p1, unit);
    let mut out: Vec<Segment> = Vec::new();
    assert(spans(out@) =~= Seq::<Span>::empty());
    draw_koch_line(&mut out, &q0, &q1, 0, max_depth);
    assert(spans(out@) =~= Seq::<Span>::empty() + koch_path(q0@, q1@, n));
    out
}

} // verus!
