//! Exact orientation and distance primitives.
//!
//! Both are read off the cross product
//! `(p.y - a.y) * (b.x - a.x) - (b.y - a.y) * (p.x - a.x)`. With `isize`
//! coordinates each product can need 129 bits with its sign, so neither is
//! formed as a signed machine word: the two are taken as 128-bit absolute
//! values with their signs. Their difference, twice the area of a triangle in
//! the square of all points, always fits in 128 bits. Nothing wraps or
//! saturates for any coordinates.

use vstd::prelude::*;
use crate::point::Point;

verus! {

/// Two to the power 64.
#[verifier::inline]
pub open spec fn pow64() -> int {
    0x1_0000_0000_0000_0000
}

/// Two to the power 128.
#[verifier::inline]
pub open spec fn pow128() -> int {
    0x1_0000_0000_0000_0000_0000_0000_0000_0000int
}

/// The cross product of `b - a` and `p - a`: positive when `p` lies to the left
/// of the directed line from `a` to `b`, negative when it lies to the right,
/// zero when the three points are collinear.
///
/// The solver does not multiply unknowns on its own. To have the value for
/// given points, assert it `by (nonlinear_arith)`.
pub open spec fn cross(p: Point, a: Point, b: Point) -> int {
    (p.y - a.y) * (b.x - a.x) - (b.y - a.y) * (p.x - a.x)
}

/// The sign of an integer: `1`, `0` or `-1`.
pub open spec fn sign(v: int) -> int {
    if v > 0 {
        1
    } else if v < 0 {
        -1
    } else {
        0
    }
}

/// The absolute value of an integer.
pub open spec fn magnitude(v: int) -> nat {
    if v < 0 {
        (-v) as nat
    } else {
        v as nat
    }
}

/// The side of the directed line from `a` to `b` on which `p` lies:
/// `1` for left, `-1` for right, `0` for on the line.
pub open spec fn side_of(p: Point, a: Point, b: Point) -> int {
    sign(cross(p, a, b))
}

/// The unnormalised distance of `p` from the line through `a` and `b`: the
/// absolute value of the cross product. It grows with the true distance for a
/// fixed line, which is all that comparing candidates against one line needs.
pub open spec fn line_distance(p: Point, a: Point, b: Point) -> nat {
    magnitude(cross(p, a, b))
}

/// Walking a line the other way swaps its sides.
pub proof fn lemma_reversed_line_swaps_sides(p: Point, a: Point, b: Point)
    ensures
        cross(p, b, a) == -cross(p, a, b),
        side_of(p, b, a) == -side_of(p, a, b),
{
    let px = p.x as int;
    let py = p.y as int;
    let ax = a.x as int;
    let ay = a.y as int;
    let bx = b.x as int;
    let by = b.y as int;
    assert((py - by) * (ax - bx) - (ay - by) * (px - bx) == -((py - ay) * (bx - ax) - (by - ay) * (
    px - ax))) by (nonlinear_arith);
}

/// A triangle winds the same way from each of its corners.
pub proof fn lemma_corners_wind_alike(p: Point, a: Point, b: Point)
    ensures
        cross(a, b, p) == cross(p, a, b),
        side_of(a, b, p) == side_of(p, a, b),
{
    let px = p.x as int;
    let py = p.y as int;
    let ax = a.x as int;
    let ay = a.y as int;
    let bx = b.x as int;
    let by = b.y as int;
    assert((ay - by) * (px - bx) - (py - by) * (ax - bx) == (py - ay) * (bx - ax) - (by - ay) * (px
        - ax)) by (nonlinear_arith);
}

/// A product of two integers below `2^64` in absolute value, by the absolute
/// values of its factors.
proof fn lemma_signed_product(x: int, y: int)
    by (nonlinear_arith)
    requires
        -pow64() < x < pow64(),
        -pow64() < y < pow64(),
    ensures
        magnitude(x) * magnitude(y) < pow128(),
        (x < 0) != (y < 0) ==> x * y == -(magnitude(x) * magnitude(y)),
        (x < 0) == (y < 0) ==> x * y == magnitude(x) * magnitude(y),
{
    assert(magnitude(x) <= pow64() - 1);
    assert(magnitude(y) <= pow64() - 1);
    assert(magnitude(x) * magnitude(y) <= (pow64() - 1) * (pow64() - 1));
}

/// A product of a factor between `0` and `w` lies between `w` times the
/// negative part and `w` times the positive part of the other factor.
proof fn lemma_scaled_part(u: int, c: int, w: int)
    by (nonlinear_arith)
    requires
        0 <= u <= w,
    ensures
        c >= 0 ==> 0 <= u * c <= w * c,
        c <= 0 ==> w * c <= u * c <= 0,
{
}

/// The cross product of three points is twice the area of their triangle, and
/// a triangle takes up at most half of the square that `isize` coordinates
/// span: the cross product stays below `2^128` in absolute value.
pub proof fn lemma_cross_bound(p: Point, a: Point, b: Point)
    ensures
        -pow128() < cross(p, a, b) < pow128(),
{
    let w: int = pow64() - 1;
    let lo: int = -0x8000_0000_0000_0000;
    let ax = a.x - lo;
    let bx = b.x - lo;
    let px = p.x - lo;
    let ca = b.y - p.y;
    let cb = p.y - a.y;
    let cp = a.y - b.y;
    assert(cross(p, a, b) == ax * ca + bx * cb + px * cp) by (nonlinear_arith)
        requires
            cross(p, a, b) == (p.y - a.y) * (b.x - a.x) - (b.y - a.y) * (p.x - a.x),
            ax == a.x - lo,
            bx == b.x - lo,
            px == p.x - lo,
            ca == b.y - p.y,
            cb == p.y - a.y,
            cp == a.y - b.y,
    ;
    lemma_scaled_part(ax, ca, w);
    lemma_scaled_part(bx, cb, w);
    lemma_scaled_part(px, cp, w);
}

/// The absolute value of a difference of two `isize` values.
fn unsigned(d: i128) -> (r: u128)
    requires
        -pow64() < d < pow64(),
    ensures
        r == magnitude(d as int),
{
    if d < 0 {
        (-d) as u128
    } else {
        d as u128
    }
}

/// The sign and the absolute value of `d1 * d2 - d3 * d4`, for factors that are
/// differences of `isize` values. Each product is formed as a 128-bit absolute
/// value with its sign, so that nothing leaves the range of a machine word.
fn determinant(d1: i128, d2: i128, d3: i128, d4: i128) -> (r: (i8, u128))
    requires
        -pow64() < d1 < pow64(),
        -pow64() < d2 < pow64(),
        -pow64() < d3 < pow64(),
        -pow64() < d4 < pow64(),
        -pow128() < d1 * d2 - d3 * d4 < pow128(),
    ensures
        r.0 == sign(d1 * d2 - d3 * d4),
        r.1 == magnitude(d1 * d2 - d3 * d4),
{
    proof {
        lemma_signed_product(d1 as int, d2 as int);
        lemma_signed_product(d3 as int, d4 as int);
    }
    let left: u128 = unsigned(d1) * unsigned(d2);
    let right: u128 = unsigned(d3) * unsigned(d4);
    let left_negative = (d1 < 0) != (d2 < 0);
    let right_negative = (d3 < 0) != (d4 < 0);
    if left_negative == right_negative {
        // Both products have the same sign: the larger one decides.
        if left == right {
            (0, 0)
        } else if left > right {
            (if left_negative { -1 } else { 1 }, left - right)
        } else {
            (if left_negative { 1 } else { -1 }, right - left)
        }
    } else {
        // Opposite signs: the absolute values add up.
        let size: u128 = left + right;
        if size == 0 {
            (0, 0)
        } else if right_negative {
            (1, size)
        } else {
            (-1, size)
        }
    }
}

/// The orientation test with the absolute value of the cross product.
fn cross_parts(p: &Point, a: &Point, b: &Point) -> (r: (i8, u128))
    ensures
        r.0 == side_of(*p, *a, *b),
        r.1 == line_distance(*p, *a, *b),
{
    proof {
        lemma_cross_bound(*p, *a, *b);
    }
    determinant(
        p.y as i128 - a.y as i128,
        b.x as i128 - a.x as i128,
        b.y as i128 - a.y as i128,
        p.x as i128 - a.x as i128,
    )
}

/// On which side of the directed line from `a` to `b` the point `p` lies:
/// `1` for left, `-1` for right, `0` for on the line. Exact for all coordinates.
pub fn side(p: &Point, a: &Point, b: &Point) -> (r: i8)
    ensures
        r == side_of(*p, *a, *b),
{
    cross_parts(p, a, b).0
}

/// The unnormalised distance of `p` from the line through `a` and `b`: the
/// absolute value of the cross product, for comparing candidates against one
/// line. Exact for all coordinates.
pub fn distance_from_line(p: &Point, a: &Point, b: &Point) -> (r: u128)
    ensures
        r == line_distance(*p, *a, *b),
{
    cross_parts(p, a, b).1
}

} // verus!
