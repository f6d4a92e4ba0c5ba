//! Points of the triangular lattice and the exact operations on them.

use vstd::arithmetic::div_mod::{lemma_fundamental_div_mod, lemma_mod_multiples_basic};
use vstd::arithmetic::power::{lemma_pow_increases, lemma_pow_positive, pow};
use vstd::prelude::*;

verus! {

/// A lattice point `(a, b)`, standing for `a` steps along the x axis plus `b`
/// steps along the direction 60° counterclockwise from it.
#[derive(Clone, Copy, Debug, PartialEq, Eq, Structural)]
pub struct Point {
    pub a: i64,
    pub b: i64,
}

/// A point as a pair of mathematical integers.
pub type Coords = (int, int);

impl View for Point {
    type V = Coords;

    open spec fn view(&self) -> Coords {
        (self.a as int, self.b as int)
    }
}

/// Componentwise sum.
pub open spec fn plus(p: Coords, q: Coords) -> Coords {
    (p.0 + q.0, p.1 + q.1)
}

/// Componentwise difference `p - q`.
pub open spec fn minus(p: Coords, q: Coords) -> Coords {
    (p.0 - q.0, p.1 - q.1)
}

/// Both coordinates multiplied by `s`.
pub open spec fn times(p: Coords, s: int) -> Coords {
    (p.0 * s, p.1 * s)
}

/// `v` turned by 60° counterclockwise: multiplying `a + b*w` by `w`, where
/// `w * w == w - 1`, gives `-b + (a + b)*w`.
pub open spec fn turn(v: Coords) -> Coords {
    (-v.1, v.0 + v.1)
}

/// A third of the vector `v`.
pub open spec fn third_of(v: Coords) -> Coords {
    (v.0 / 3, v.1 / 3)
}

/// Squared Euclidean length of the vector `v`: for the plane vector
/// `(a + b / 2, b * sqrt(3) / 2)` it is `a*a + a*b + b*b`.
pub open spec fn norm(v: Coords) -> int {
    v.0 * v.0 + v.0 * v.1 + v.1 * v.1
}

/// Whether both coordinates of `v` are multiples of `3^n`.
pub open spec fn divisible(v: Coords, n: nat) -> bool {
    v.0 % pow(3, n) == 0 && v.1 % pow(3, n) == 0
}

/// Whether `v` fits in an `i64`.
pub open spec fn fits_i64(v: int) -> bool {
    i64::MIN <= v <= i64::MAX
}

/// Moves `p` by the vector `delta`.
pub fn translate(p: Point, delta: Point) -> (r: Point)
    requires
        fits_i64(p.a + delta.a),
        fits_i64(p.b + delta.b),
    ensures
        r@ == plus(p@, delta@),
{
    Point { a: p.a + delta.a, b: p.b + delta.b }
}

/// Stretches `p` away from the origin by the factor `s`.
pub fn scale(p: Point, s: i64) -> (r: Point)
    requires
        fits_i64(p.a * s),
        fits_i64(p.b * s),
    ensures
        r@ == times(p@, s as int),
{
    Point { a: p.a * s, b: p.b * s }
}

/// The vector from `from` to `to`.
pub fn offset(from: Point, to: Point) -> (r: Point)
    requires
        fits_i64(to.a - from.a),
        fits_i64(to.b - from.b),
    ensures
        r@ == minus(to@, from@),
{
    Point { a: to.a - from.a, b: to.b - from.b }
}

/// The vector `v` turned by 60° counterclockwise.
pub fn rotate60(v: Point) -> (r: Point)
    requires
        fits_i64(-v.b),
        fits_i64(v.a + v.b),
    ensures
        r@ == turn(v@),
{
    Point { a: -v.b, b: v.a + v.b }
}

/// A third of the vector `v`, whose coordinates are multiples of three.
pub fn third(v: Point) -> (r: Point)
    requires
        v.a % 3 == 0,
        v.b % 3 == 0,
    ensures
        times(r@, 3) == v@,
{
    Point { a: v.a / 3, b: v.b / 3 }
}

/// Squared Euclidean distance between `p0` and `p1`.
pub fn dist_sq(p0: Point, p1: Point) -> (r: i128)
    requires
        -0x4000_0000_0000_0000 <= p1.a - p0.a <= 0x4000_0000_0000_0000,
        -0x4000_0000_0000_0000 <= p1.b - p0.b <= 0x4000_0000_0000_0000,
    ensures
        r == norm(minus(p1@, p0@)),
{
    let da = p1.a as i128 - p0.a as i128;
    let db = p1.b as i128 - p0.b as i128;
    assert(0 <= da * da <= 0x1000_0000_0000_0000_0000_0000_0000_0000) by (nonlinear_arith)
        requires
            -0x4000_0000_0000_0000 <= da <= 0x4000_0000_0000_0000,
    ;
    assert(0 <= db * db <= 0x1000_0000_0000_0000_0000_0000_0000_0000) by (nonlinear_arith)
        requires
            -0x4000_0000_0000_0000 <= db <= 0x4000_0000_0000_0000,
    ;
    assert(-0x1000_0000_0000_0000_0000_0000_0000_0000 <= da * db
        <= 0x1000_0000_0000_0000_0000_0000_0000_0000) by (nonlinear_arith)
        requires
            -0x4000_0000_0000_0000 <= da <= 0x4000_0000_0000_0000,
            -0x4000_0000_0000_0000 <= db <= 0x4000_0000_0000_0000,
    ;
    let aa = da * da;
    let ab = da * db;
    let bb = db * db;
    aa + ab + bb
}

/// `3^n`.
pub fn pow3(n: u32) -> (r: i64)
    requires
        pow(3, n as nat) <= i64::MAX,
    ensures
        r == pow(3, n as nat),
{
    let mut r: i64 = 1;
    let mut i: u32 = 0;
    proof {
        reveal(pow);
    }
    while i < n
        invariant
            i <= n,
            r == pow(3, i as nat),
            pow(3, n as nat) <= i64::MAX,
        decreases n - i,
    {
        proof {
            reveal(pow);
            lemma_pow_increases(3, (i + 1) as nat, n as nat);
            lemma_pow_positive(3, i as nat);
            assert(pow(3, (i + 1) as nat) == 3 * pow(3, i as nat));
        }
        r = r * 3;
        i = i + 1;
    }
    r
}

/// Turning a vector by 60° keeps its length.
pub proof fn lemma_turn_keeps_norm(v: Coords)
    ensures
        norm(turn(v)) == norm(v),
{
    assert(norm(turn(v)) == norm(v)) by (nonlinear_arith);
}

/// Shrinking a vector to a third divides its squared length by nine.
pub proof fn lemma_third_norm(v: Coords, d: Coords)
    requires
        times(d, 3) == v,
    ensures
        norm(v) == 9 * norm(d),
{
    assert(norm(times(d, 3)) == 9 * norm(d)) by (nonlinear_arith);
}

/// Any integer combination of multiples of `m` is a multiple of `m`.
pub proof fn lemma_combination_divisible(x: int, y: int, i: int, j: int, m: int)
    requires
        m > 0,
        x % m == 0,
        y % m == 0,
    ensures
        (i * x + j * y) % m == 0,
{
    lemma_fundamental_div_mod(x, m);
    lemma_fundamental_div_mod(y, m);
    let qx = x / m;
    let qy = y / m;
    assert(i * x + j * y == (i * qx + j * qy) * m) by (nonlinear_arith)
        requires
            x == m * qx,
            y == m * qy,
    ;
    lemma_mod_multiples_basic(i * qx + j * qy, m);
}

/// A multiple of `3^(n+1)` is three times a multiple of `3^n`.
pub proof fn lemma_divisible_step(x: int, n: nat)
    requires
        x % pow(3, n + 1) == 0,
    ensures
        x % 3 == 0,
        (x / 3) % pow(3, n) == 0,
{
    let m = pow(3, n);
    assert(pow(3, n + 1) == 3 * m) by {
        reveal(pow);
    }
    lemma_pow_positive(3, n);
    lemma_fundamental_div_mod(x, 3 * m);
    let q = x / (3 * m);
    assert(x == (m * q) * 3) by (nonlinear_arith)
        requires
            x == (3 * m) * q + x % (3 * m),
            x % (3 * m) == 0,
    ;
    lemma_mod_multiples_basic(m * q, 3);
    assert(x / 3 == m * q) by {
        vstd::arithmetic::div_mod::lemma_div_multiples_vanish(m * q, 3);
    }
    assert(m * q == q * m) by (nonlinear_arith);
    lemma_mod_multiples_basic(q, m);
}

} // verus!
