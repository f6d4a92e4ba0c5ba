//! What holds of every Koch curve.

use crate::geometry::{
    divisible, lemma_third_norm, lemma_turn_keeps_norm, minus, norm, plus, third_of, turn, Coords,
};
use crate::koch::{koch_path, lemma_pieces_divisible, Span};
use vstd::arithmetic::power::pow;
use vstd::prelude::*;

verus! {

/// Whether `s` is a connected path from `p0` to `p1`: it is not empty, it
/// starts at `p0`, ends at `p1`, and each segment ends where the next one
/// starts.
pub open spec fn is_path(s: Seq<Span>, p0: Coords, p1: Coords) -> bool {
    &&& s.len() > 0
    &&& s[0].0 == p0
    &&& s[s.len() - 1].1 == p1
    &&& forall|i: int| 0 <= i < s.len() - 1 ==> #[trigger] s[i].1 == s[i + 1].0
}

/// Whether every segment of `s` has squared length `len` after scaling by
/// `scale`.
pub open spec fn all_norms(s: Seq<Span>, scale: int, len: int) -> bool {
    forall|i: int| 0 <= i < s.len() ==> #[trigger] norm(minus(s[i].1, s[i].0)) * scale == len
}

/// Two connected paths, the second starting where the first ends, make one.
pub proof fn lemma_join_paths(s: Seq<Span>, t: Seq<Span>, p0: Coords, p1: Coords, p2: Coords)
    requires
        is_path(s, p0, p1),
        is_path(t, p1, p2),
    ensures
        is_path(s + t, p0, p2),
{
    let u = s + t;
    assert forall|i: int| 0 <= i < u.len() - 1 implies #[trigger] u[i].1 == u[i + 1].0 by {
        if i < s.len() - 1 {
            assert(u[i] == s[i] && u[i + 1] == s[i + 1]);
        } else if i == s.len() - 1 {
            assert(u[i] == s[i] && u[i + 1] == t[0]);
        } else {
            assert(u[i] == t[i - s.len()] && u[i + 1] == t[i - s.len() + 1]);
        }
    }
}

/// A Koch curve of order `n` is made of exactly `4^n` segments.
pub proof fn lemma_koch_count(p0: Coords, p1: Coords, n: nat)
    ensures
        koch_path(p0, p1, n).len() == pow(4, n),
    decreases n,
{
    reveal(pow);
    if n > 0 {
        let d = third_of(minus(p1, p0));
        let pa = plus(p0, d);
        let pn = plus(pa, turn(d));
        let pb = plus(pa, d);
        lemma_koch_count(p0, pa, (n - 1) as nat);
        lemma_koch_count(pa, pn, (n - 1) as nat);
        lemma_koch_count(pn, pb, (n - 1) as nat);
        lemma_koch_count(pb, p1, (n - 1) as nat);
    }
}

/// A Koch curve is a connected path from its first endpoint to its second:
/// each segment ends exactly where the next one starts.
pub proof fn lemma_koch_continuous(p0: Coords, p1: Coords, n: nat)
    ensures
        is_path(koch_path(p0, p1, n), p0, p1),
    decreases n,
{
    if n > 0 {
        let d = third_of(minus(p1, p0));
        let pa = plus(p0, d);
        let pn = plus(pa, turn(d));
        let pb = plus(pa, d);
        let k = (n - 1) as nat;
        lemma_koch_continuous(p0, pa, k);
        lemma_koch_continuous(pa, pn, k);
        lemma_koch_continuous(pn, pb, k);
        lemma_koch_continuous(pb, p1, k);
        lemma_join_paths(koch_path(p0, pa, k), koch_path(pa, pn, k), p0, pa, pn);
        lemma_join_paths(koch_path(p0, pa, k) + koch_path(pa, pn, k), koch_path(pn, pb, k), p0, pn, pb);
        lemma_join_paths(
            koch_path(p0, pa, k) + koch_path(pa, pn, k) + koch_path(pn, pb, k),
            koch_path(pb, p1, k),
            p0,
            pb,
            p1,
        );
    }
}

/// Every segment of a Koch curve of order `n` is `3^n` times shorter than the
/// straight line between its endpoints (its squared length `9^n` times
/// smaller). With `4^n` segments, the curve is `(4/3)^n` times as long as
/// that line.
pub proof fn lemma_koch_segment_length(p0: Coords, p1: Coords, n: nat)
    requires
        divisible(minus(p1, p0), n),
    ensures
        koch_path(p0, p1, n).len() == pow(4, n),
        all_norms(koch_path(p0, p1, n), pow(9, n), norm(minus(p1, p0))),
    decreases n,
{
    lemma_koch_count(p0, p1, n);
    reveal(pow);
    if n > 0 {
        let d = third_of(minus(p1, p0));
        let pa = plus(p0, d);
        let pn = plus(pa, turn(d));
        let pb = plus(pa, d);
        let k = (n - 1) as nat;
        let w = pow(9, k);
        lemma_pieces_divisible(p0, p1, n);
        lemma_koch_segment_length(p0, pa, k);
        lemma_koch_segment_length(pa, pn, k);
        lemma_koch_segment_length(pn, pb, k);
        lemma_koch_segment_length(pb, p1, k);
        lemma_third_norm(minus(p1, p0), d);
        lemma_turn_keeps_norm(d);
        lemma_turn_keeps_norm(minus(pb, pn));
        assert(turn(minus(pb, pn)) == d);
        assert(minus(pa, p0) == d && minus(pn, pa) == turn(d) && minus(p1, pb) == d);
        let s = koch_path(p0, p1, n);
        let n9 = norm(d);
        assert(pow(9, n) == 9 * w);
        assert forall|i: int| 0 <= i < s.len() implies #[trigger] norm(minus(s[i].1, s[i].0))
            * pow(9, n) == norm(minus(p1, p0)) by {
            let x = norm(minus(s[i].1, s[i].0));
            let s1 = koch_path(p0, pa, k);
            let s2 = koch_path(pa, pn, k);
            let s3 = koch_path(pn, pb, k);
            let s4 = koch_path(pb, p1, k);
            if i < s1.len() {
                assert(s[i] == s1[i]);
            } else if i < s1.len() + s2.len() {
                assert(s[i] == s2[i - s1.len()]);
            } else if i < s1.len() + s2.len() + s3.len() {
                assert(s[i] == s3[i - s1.len() - s2.len()]);
            } else {
                assert(s[i] == s4[i - s1.len() - s2.len() - s3.len()]);
            }
            assert(x * w == n9);
            assert(x * (9 * w) == 9 * (x * w)) by (nonlinear_arith);
        }
    }
}

/// A Koch curve of order 0 is the straight segment between its endpoints.
pub proof fn lemma_koch_order_zero(p0: Coords, p1: Coords)
    ensures
        koch_path(p0, p1, 0) == seq![(p0, p1)],
{
}

/// The curve depends on its endpoints and order alone: equal inputs give
/// equal segment sequences.
pub proof fn lemma_koch_deterministic(p0: Coords, p1: Coords, q0: Coords, q1: Coords, n: nat)
    requires
        p0 == q0,
        p1 == q1,
    ensures
        koch_path(p0, p1, n) == koch_path(q0, q1, n),
{
}

} // verus!
