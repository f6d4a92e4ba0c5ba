//! The Koch snowflake: three Koch curves over the sides of an equilateral
//! triangle, and the order in which its frames are shown.

use crate::geometry::{times, Coords, Point};
use crate::koch::{abs, koch_curve, koch_path, spans, Segment, Span};
use crate::koch_laws::{is_path, lemma_join_paths, lemma_koch_continuous};
use vstd::arithmetic::power::{lemma_pow_positive, pow};
use vstd::prelude::*;

verus! {

/// Side of the triangle drawn on the canvas, in pixels.
pub const CANVAS_SIZE: i64 = 1000;

/// The finest order shown; frames go from order 0 up to this one.
pub const LAST_DEPTH: u32 = 9;

/// The corners `(A, B, C)` of the triangle of side `side`, in units of
/// `3^-n`: `A` at the origin, `B` along the x axis, `C` at 60° from it.
pub open spec fn corners(side: int, n: nat) -> (Coords, Coords, Coords) {
    let s = side * pow(3, n);
    ((0, 0), (s, 0), (0, s))
}

/// The snowflake of order `n`: the curves over the sides B to A, C to B and
/// A to C, in that order.
pub open spec fn snowflake_path(side: int, n: nat) -> Seq<Span> {
    let (a, b, c) = corners(side, n);
    koch_path(b, a, n) + koch_path(c, b, n) + koch_path(a, c, n)
}

/// The segments of the snowflake of order `max_depth` over a triangle of
/// side `side`, in units of `3^-max_depth` so that every point is exact.
pub fn draw_koch_snowflake(side: i64, max_depth: u32) -> (r: Vec<Segment>)
    requires
        pow(3, max_depth as nat) <= i64::MAX,
        4 * abs(side as int) * pow(3, max_depth as nat) <= i64::MAX,
    ensures
        spans(r@) == snowflake_path(side as int, max_depth as nat),
{
    let ghost n = max_depth as nat;
    let ghost m = pow(3, n);
    let a = Point { a: 0, b: 0 };
    let b = Point { a: side, b: 0 };
    let c = Point { a: 0, b: side };
    proof {
        lemma_pow_positive(3, n);
        assert(-i64::MAX <= 4 * (side * m) <= i64::MAX) by (nonlinear_arith)
            requires
                4 * abs(side as int) * m <= i64::MAX,
                m > 0,
        ;
        assert(0 * m == 0);
        let (ca, cb, cc) = corners(side as int, n);
        assert(times(a@, m) == ca && times(b@, m) == cb && times(c@, m) == cc);
    }
    let mut out = koch_curve(&b, &a, max_depth);
    let mut side_cb = koch_curve(&c, &b, max_depth);
    let mut side_ac = koch_curve(&a, &c, max_depth);
    let ghost first = out@;
    let ghost cb = side_cb@;
    let ghost ac = side_ac@;
    out.append(&mut side_cb);
    let ghost second = out@;
    out.append(&mut side_ac);
    assert(spans(second) =~= spans(first) + spans(cb));
    assert(spans(out@) =~= spans(second) + spans(ac));
    assert(spans(out@) =~= snowflake_path(side as int, n));
    out
}

/// The three sides of a snowflake close up: joined end to start, as B to A,
/// A to C and C to B, they form one connected path that ends where it began.
pub proof fn lemma_snowflake_closed(side: int, n: nat)
    ensures
        ({
            let (a, b, c) = corners(side, n);
            is_path(koch_path(b, a, n) + koch_path(a, c, n) + koch_path(c, b, n), b, b)
        }),
{
    let (a, b, c) = corners(side, n);
    lemma_koch_continuous(b, a, n);
    lemma_koch_continuous(a, c, n);
    lemma_koch_continuous(c, b, n);
    lemma_join_paths(koch_path(b, a, n), koch_path(a, c, n), b, a, c);
    lemma_join_paths(koch_path(b, a, n) + koch_path(a, c, n), koch_path(c, b, n), b, c, b);
}

/// Where the animation stands: showing the frame of some order, or holding
/// the last frame once every order has been shown.
#[derive(Clone, Copy, Debug, PartialEq, Eq, Structural)]
pub enum Stage {
    Animating(u32),
    Holding,
}

/// The animation starts with the frame of order 0.
pub fn first_stage() -> (r: Stage)
    ensures
        r == Stage::Animating(0),
{
    Stage::Animating(0)
}

/// The stage after `s`: the next order until the last one has been shown,
/// then holding for good.
pub fn next_stage(s: Stage) -> (r: Stage)
    ensures
        match s {
            Stage::Animating(d) => if d < LAST_DEPTH {
                r == Stage::Animating((d + 1) as u32)
            } else {
                r == Stage::Holding
            },
            Stage::Holding => r == Stage::Holding,
        },
{
    match s {
        Stage::Animating(d) => if d < LAST_DEPTH {
            Stage::Animating(d + 1)
        } else {
            Stage::Holding
        },
        Stage::Holding => Stage::Holding,
    }
}

} // verus!
