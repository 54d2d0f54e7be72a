//! Distances between points with integer coordinates.

use vstd::prelude::*;
use vstd::arithmetic::div_mod::{lemma_fundamental_div_mod, lemma_fundamental_div_mod_converse};

verus! {

/// Squared distance between `(ax, ay)` and `(bx, by)`.
pub open spec fn dist_sq(ax: int, ay: int, bx: int, by: int) -> int {
    (ax - bx) * (ax - bx) + (ay - by) * (ay - by)
}

/// Whether `(bx, by)` lies strictly closer than `radius` to `(ax, ay)`.
/// A radius that is not positive reaches nothing.
pub open spec fn in_reach(ax: int, ay: int, bx: int, by: int, radius: int) -> bool {
    radius > 0 && dist_sq(ax, ay, bx, by) < radius * radius
}

/// The square of a difference of two 32-bit coordinates fits in 65 bits.
pub proof fn lemma_square_bound(d: int)
    requires
        -0x1_0000_0000 < d < 0x1_0000_0000,
    ensures
        0 <= d * d <= 0x1_0000_0000_0000_0000,
{
    assert(0 <= d * d <= 0x1_0000_0000_0000_0000) by (nonlinear_arith)
        requires
            -0x1_0000_0000 < d < 0x1_0000_0000,
    ;
}

/// Computes the squared distance between two points.
pub fn squared_distance(ax: i32, ay: i32, bx: i32, by: i32) -> (r: i128)
    ensures
        r == dist_sq(ax as int, ay as int, bx as int, by as int),
        0 <= r <= 0x2_0000_0000_0000_0000,
{
    let dx: i128 = ax as i128 - bx as i128;
    let dy: i128 = ay as i128 - by as i128;
    proof {
        lemma_square_bound(dx as int);
        lemma_square_bound(dy as int);
    }
    dx * dx + dy * dy
}

/// The quotient of `a` by a positive `b`, rounded toward zero.
pub open spec fn toward_zero(a: int, b: int) -> int {
    if a >= 0 {
        a / b
    } else {
        -((-a) / b)
    }
}

/// Divides and rounds toward zero.
pub fn div_toward_zero(a: i128, b: i128) -> (r: i128)
    requires
        b > 0,
        a > i128::MIN,
    ensures
        r == toward_zero(a as int, b as int),
{
    if a >= 0 {
        a / b
    } else {
        let q: i128 = (-a) / b;
        assert(0 <= q <= -a) by (nonlinear_arith)
            requires
                q == (-a) / (b as int),
                -a > 0,
                b > 0,
        ;
        -q
    }
}

/// Divides by a positive number and rounds down. Returns the quotient and
/// the remainder, which is never negative.
pub fn div_floor(a: i128, b: i128) -> (r: (i128, i128))
    requires
        b > 0,
        a > i128::MIN,
    ensures
        r.0 == a as int / b as int,
        r.1 == a as int % b as int,
        0 <= r.1 < b,
{
    if a >= 0 {
        (a / b, a % b)
    } else {
        let m: i128 = -a;
        let q: i128 = m / b;
        let rest: i128 = m % b;
        proof {
            lemma_fundamental_div_mod(m as int, b as int);
            assert(0 <= q <= m) by (nonlinear_arith)
                requires
                    m == b * q + rest,
                    0 <= rest < b,
                    m > 0,
            ;
        }
        if rest == 0 {
            proof {
                assert(a == (-q) * b + 0) by (nonlinear_arith)
                    requires
                        -a == b * q + rest,
                        rest == 0,
                ;
                lemma_fundamental_div_mod_converse(a as int, b as int, -q as int, 0);
            }
            (-q, 0)
        } else {
            proof {
                assert(a == (-q - 1) * b + (b - rest)) by (nonlinear_arith)
                    requires
                        -a == b * q + rest,
                ;
                lemma_fundamental_div_mod_converse(
                    a as int,
                    b as int,
                    -q - 1,
                    b as int - rest as int,
                );
            }
            (-q - 1, b - rest)
        }
    }
}

/// Whether `r` is the square root of `n`, rounded down.
pub open spec fn is_sqrt_floor(n: int, r: int) -> bool {
    0 <= r && r * r <= n < (r + 1) * (r + 1)
}

/// The square root of `n`, rounded down.
pub open spec fn sqrt_floor(n: int) -> int {
    choose|r: int| is_sqrt_floor(n, r)
}

/// A number has at most one rounded square root.
pub proof fn lemma_sqrt_floor_unique(n: int, a: int, b: int)
    requires
        is_sqrt_floor(n, a),
        is_sqrt_floor(n, b),
    ensures
        a == b,
{
    assert(a == b) by (nonlinear_arith)
        requires
            0 <= a,
            0 <= b,
            a * a <= n < (a + 1) * (a + 1),
            b * b <= n < (b + 1) * (b + 1),
    ;
}

/// Squaring keeps the order of numbers that are not negative.
pub proof fn lemma_square_ordered(a: int, b: int)
    requires
        0 <= a <= b,
    ensures
        a * a <= b * b,
{
    assert(a * a <= b * b) by (nonlinear_arith)
        requires
            0 <= a <= b,
    ;
}

/// Computes the square root, rounded down.
pub fn integer_sqrt(n: u64) -> (r: u64)
    ensures
        is_sqrt_floor(n as int, r as int),
        r == sqrt_floor(n as int),
        r <= 0xffff_ffff,
{
    let mut lo: u64 = 0;
    let mut hi: u64 = 0x1_0000_0000;
    assert(0x1_0000_0000int * 0x1_0000_0000int == 0x1_0000_0000_0000_0000int) by (nonlinear_arith);
    while hi - lo > 1
        invariant
            lo < hi <= 0x1_0000_0000,
            lo * lo <= n < hi * hi,
        decreases hi - lo,
    {
        let mid: u64 = lo + (hi - lo) / 2;
        proof {
            lemma_square_ordered(mid as int, 0xffff_ffff);
            assert(0xffff_ffffint * 0xffff_ffffint < 0x1_0000_0000_0000_0000int)
                by (nonlinear_arith);
        }
        if mid * mid <= n {
            lo = mid;
        } else {
            hi = mid;
        }
    }
    proof {
        assert(hi == lo + 1);
        lemma_sqrt_floor_unique(n as int, lo as int, sqrt_floor(n as int));
    }
    lo
}

/// Tests whether `(bx, by)` lies strictly closer than `radius` to `(ax, ay)`.
pub fn within(ax: i64, ay: i64, bx: i64, by: i64, radius: i64) -> (r: bool)
    ensures
        r == in_reach(ax as int, ay as int, bx as int, by as int, radius as int),
{
    if radius <= 0 {
        return false;
    }
    let rr: i128 = radius as i128;
    let dx: i128 = ax as i128 - bx as i128;
    let dy: i128 = ay as i128 - by as i128;
    if dx >= rr || dx <= -rr || dy >= rr || dy <= -rr {
        proof {
            lemma_far_on_one_axis(dx as int, dy as int, rr as int);
        }
        return false;
    }
    proof {
        lemma_near_on_both_axes(dx as int, dy as int, rr as int);
        assert(rr * rr <= 0x7fff_ffff_ffff_ffff * 0x7fff_ffff_ffff_ffff) by (nonlinear_arith)
            requires
                0 < rr <= 0x7fff_ffff_ffff_ffff,
        ;
    }
    dx * dx + dy * dy < rr * rr
}

/// A point that is at least a radius away along one axis is out of reach.
pub proof fn lemma_far_on_one_axis(dx: int, dy: int, radius: int)
    requires
        radius > 0,
        dx >= radius || dx <= -radius || dy >= radius || dy <= -radius,
    ensures
        dx * dx + dy * dy >= radius * radius,
{
    assert(dx * dx + dy * dy >= radius * radius) by (nonlinear_arith)
        requires
            radius > 0,
            dx >= radius || dx <= -radius || dy >= radius || dy <= -radius,
    ;
}

/// The squares of two offsets that are each shorter than a radius are each
/// below the square of the radius.
pub proof fn lemma_near_on_both_axes(dx: int, dy: int, radius: int)
    requires
        -radius < dx < radius,
        -radius < dy < radius,
    ensures
        0 <= dx * dx < radius * radius,
        0 <= dy * dy < radius * radius,
{
    assert(0 <= dx * dx < radius * radius) by (nonlinear_arith)
        requires
            -radius < dx < radius,
    ;
    assert(0 <= dy * dy < radius * radius) by (nonlinear_arith)
        requires
            -radius < dy < radius,
    ;
}

} // verus!
