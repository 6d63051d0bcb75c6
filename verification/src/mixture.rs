//! Hull vertices are the extreme points: exactly those input points that are
//! no mixture of other input points.
//!
//! A mixture of points is a weighted mean of them, with weights that are not
//! negative and not all zero. To stay within the integers the mean is stated
//! without the division: the sum of the weights times the mixture is the sum
//! of the weighted points. Mixtures of three points are all that is needed: an
//! input point that is no hull vertex is a mixture of three hull vertices.

use vstd::prelude::*;
use crate::convexity::{
    dot, is_candidate, is_furthest, is_highest, is_lex_max, is_lex_min, is_vertex, lemma_below,
    lemma_cross_from, lemma_cross_is_height, lemma_first_arc_within, lemma_furthest_is_vertex,
    lemma_highest_exists, lemma_lex_max_is_vertex, lemma_lex_min_is_vertex,
    lemma_outside_shrinks, lemma_second_arc_within, lemma_three_vectors_dependent, outside,
    supports,
};
use crate::geometry::{cross, lemma_reversed_line_swaps_sides, line_distance, pow64, side_of};
use crate::point::{lex_less, Point};

verus! {

/// `q` is the mixture of `v1`, `v2`, `v3` with the weights `l1`, `l2`, `l3`.
pub open spec fn is_mixture(
    q: Point,
    v1: Point,
    v2: Point,
    v3: Point,
    l1: int,
    l2: int,
    l3: int,
) -> bool {
    &&& l1 >= 0 && l2 >= 0 && l3 >= 0
    &&& l1 + l2 + l3 > 0
    &&& (l1 + l2 + l3) * q.x == l1 * v1.x + l2 * v2.x + l3 * v3.x
    &&& (l1 + l2 + l3) * q.y == l1 * v1.y + l2 * v2.y + l3 * v3.y
}

/// `q` is a mixture of three points of `points` other than itself.
pub open spec fn is_mixed(points: Seq<Point>, q: Point) -> bool {
    exists|v1: Point, v2: Point, v3: Point, l1: int, l2: int, l3: int|
        {
            &&& points.contains(v1) && v1 != q
            &&& points.contains(v2) && v2 != q
            &&& points.contains(v3) && v3 != q
            &&& #[trigger] is_mixture(q, v1, v2, v3, l1, l2, l3)
        }
}

/// A weight times a height below zero is at most zero, and below zero when
/// the weight is positive.
proof fn lemma_weighted_depth(l: int, t: int)
    by (nonlinear_arith)
    requires
        l >= 0,
        t < 0,
    ensures
        l * t <= 0,
        l > 0 ==> l * t < 0,
{
}

/// A hull vertex is no mixture of other points: it is not a weighted mean, with
/// weights that are not negative and not all zero, of input points other than
/// itself.
pub proof fn lemma_vertex_is_no_mixture(
    points: Seq<Point>,
    v: Point,
    q1: Point,
    q2: Point,
    q3: Point,
    l1: int,
    l2: int,
    l3: int,
)
    requires
        is_vertex(points, v),
        points.contains(q1) && q1 != v,
        points.contains(q2) && q2 != v,
        points.contains(q3) && q3 != v,
    ensures
        !is_mixture(v, q1, q2, q3, l1, l2, l3),
{
    if l1 >= 0 && l2 >= 0 && l3 >= 0 && l1 + l2 + l3 > 0 {
        lemma_weights_lead_down(points, v, q1, q2, q3, l1, l2, l3);
    }
}

/// From a hull vertex, steps to other points with weights that are not
/// negative and not all zero do not add up to nothing.
proof fn lemma_weights_lead_down(
    points: Seq<Point>,
    v: Point,
    q1: Point,
    q2: Point,
    q3: Point,
    l1: int,
    l2: int,
    l3: int,
)
    requires
        is_vertex(points, v),
        points.contains(q1) && q1 != v,
        points.contains(q2) && q2 != v,
        points.contains(q3) && q3 != v,
        l1 >= 0 && l2 >= 0 && l3 >= 0,
        l1 + l2 + l3 > 0,
    ensures
        (l1 + l2 + l3) * v.x != l1 * q1.x + l2 * q2.x + l3 * q3.x || (l1 + l2 + l3) * v.y != l1
            * q1.y + l2 * q2.y + l3 * q3.y,
{
    let (dx, dy) = choose|dx: int, dy: int| #[trigger] supports(points, v, dx, dy);
    lemma_below(points, v, dx, dy, q1);
    lemma_below(points, v, dx, dy, q2);
    lemma_below(points, v, dx, dy, q3);
    let t1 = dx * (q1.x - v.x) + dy * (q1.y - v.y);
    let t2 = dx * (q2.x - v.x) + dy * (q2.y - v.y);
    let t3 = dx * (q3.x - v.x) + dy * (q3.y - v.y);
    lemma_weighted_depth(l1, t1);
    lemma_weighted_depth(l2, t2);
    lemma_weighted_depth(l3, t3);
    // The weighted steps from `v` to the three points add up to a step that
    // leads strictly down in the direction, so not to the zero step.
    let sx = l1 * (q1.x - v.x) + l2 * (q2.x - v.x) + l3 * (q3.x - v.x);
    let sy = l1 * (q1.y - v.y) + l2 * (q2.y - v.y) + l3 * (q3.y - v.y);
    assert(l1 * t1 == dx * (l1 * (q1.x - v.x)) + dy * (l1 * (q1.y - v.y))) by (nonlinear_arith)
        requires
            t1 == dx * (q1.x - v.x) + dy * (q1.y - v.y),
    ;
    assert(l2 * t2 == dx * (l2 * (q2.x - v.x)) + dy * (l2 * (q2.y - v.y))) by (nonlinear_arith)
        requires
            t2 == dx * (q2.x - v.x) + dy * (q2.y - v.y),
    ;
    assert(l3 * t3 == dx * (l3 * (q3.x - v.x)) + dy * (l3 * (q3.y - v.y))) by (nonlinear_arith)
        requires
            t3 == dx * (q3.x - v.x) + dy * (q3.y - v.y),
    ;
    assert(dx * sx == dx * (l1 * (q1.x - v.x)) + dx * (l2 * (q2.x - v.x)) + dx * (l3 * (q3.x
        - v.x))) by (nonlinear_arith)
        requires
            sx == l1 * (q1.x - v.x) + l2 * (q2.x - v.x) + l3 * (q3.x - v.x),
    ;
    assert(dy * sy == dy * (l1 * (q1.y - v.y)) + dy * (l2 * (q2.y - v.y)) + dy * (l3 * (q3.y
        - v.y))) by (nonlinear_arith)
        requires
            sy == l1 * (q1.y - v.y) + l2 * (q2.y - v.y) + l3 * (q3.y - v.y),
    ;
    assert(dx * sx + dy * sy < 0);
    assert(sx == l1 * q1.x + l2 * q2.x + l3 * q3.x - (l1 + l2 + l3) * v.x) by (nonlinear_arith)
        requires
            sx == l1 * (q1.x - v.x) + l2 * (q2.x - v.x) + l3 * (q3.x - v.x),
    ;
    assert(sy == l1 * q1.y + l2 * q2.y + l3 * q3.y - (l1 + l2 + l3) * v.y) by (nonlinear_arith)
        requires
            sy == l1 * (q1.y - v.y) + l2 * (q2.y - v.y) + l3 * (q3.y - v.y),
    ;
    if sx == 0 && sy == 0 {
        assert(dx * sx + dy * sy == 0) by (nonlinear_arith)
            requires
                sx == 0,
                sy == 0,
        ;
    }
}

/// Where a line has a candidate, it has a furthest one.
pub proof fn lemma_furthest_exists(points: Seq<Point>, a: Point, b: Point, s: int, q: Point) -> (f:
    Point)
    requires
        points.contains(q),
        is_candidate(q, a, b, s),
    ensures
        is_furthest(points, a, b, s, f),
{
    // The furthest candidate is the highest point across the line.
    let dx = if s == 1 {
        -(b.y - a.y)
    } else {
        b.y - a.y
    };
    let dy = if s == 1 {
        b.x - a.x
    } else {
        -(b.x - a.x)
    };
    let f = lemma_highest_exists(points, dx, dy, points.len() as int);
    assert(points.take(points.len() as int) =~= points);
    let j = choose|j: int| 0 <= j < points.len() && points[j] == q;
    lemma_cross_is_height(f, a, b);
    lemma_cross_is_height(points[j], a, b);
    assert forall|i: int|
        0 <= i < points.len() && is_candidate(#[trigger] points[i], a, b, s) implies {
        ||| line_distance(points[i], a, b) < line_distance(f, a, b)
        ||| (line_distance(points[i], a, b) == line_distance(
            f,
            a,
            b,
        ) && !lex_less(points[i], f))
    } by {
        lemma_cross_is_height(points[i], a, b);
    }
    f
}

/// Weighted steps from `q` that add up to nothing make `q` the weighted mean
/// of where they lead, in one coordinate.
proof fn lemma_steps_to_mean(wa: int, wb: int, wf: int, a: int, b: int, f: int, q: int)
    requires
        wf * (f - q) + wa * (a - q) + wb * (b - q) == 0,
    ensures
        (wa + wb + wf) * q == wa * a + wb * b + wf * f,
{
    assert(wa * (a - q) == wa * a - wa * q) by (nonlinear_arith);
    assert(wb * (b - q) == wb * b - wb * q) by (nonlinear_arith);
    assert(wf * (f - q) == wf * f - wf * q) by (nonlinear_arith);
    assert((wa + wb + wf) * q == wa * q + wb * q + wf * q) by (nonlinear_arith);
}

/// A sign times a number is the number or its opposite.
proof fn lemma_signed(s: int, v: int)
    by (nonlinear_arith)
    requires
        s == 1 || s == -1,
    ensures
        s == 1 ==> s * v == v,
        s == -1 ==> s * v == -v,
{
}

/// The opposite of a product is the product with the opposite factor.
proof fn lemma_opposite_product(l: int, t: int)
    by (nonlinear_arith)
    ensures
        (-l) * t == -(l * t),
{
}

/// A point on side `s` of the line from `a` to `b` that lies beyond neither
/// of the edges from a third point `f` to `a` and to `b` is in the triangle of
/// the three: it is their mixture, weighted by the areas of the triangles that
/// it spans with the opposite edges.
pub proof fn lemma_inside_triangle_is_mixture(a: Point, b: Point, f: Point, q: Point, s: int)
    requires
        is_candidate(q, a, b, s),
        !is_candidate(q, f, a, -s),
        !is_candidate(q, f, b, s),
    ensures
        is_mixture(q, a, b, f, s * cross(q, b, f), s * cross(q, f, a), s * cross(q, a, b)),
{
    let la = cross(q, b, f);
    let lb = cross(q, f, a);
    let lf = cross(q, a, b);
    lemma_reversed_line_swaps_sides(q, f, b);
    lemma_cross_from(q, a, b, q);
    lemma_cross_from(q, b, f, q);
    lemma_cross_from(q, f, a, q);
    let ax = a.x - q.x;
    let ay = a.y - q.y;
    let bx = b.x - q.x;
    let by = b.y - q.y;
    let fx = f.x - q.x;
    let fy = f.y - q.y;
    lemma_three_vectors_dependent(ax, ay, bx, by, fx, fy);
    assert(lf * fx + la * ax + lb * bx == 0);
    assert(lf * fy + la * ay + lb * by == 0);
    lemma_signed(s, la);
    lemma_signed(s, lb);
    lemma_signed(s, lf);
    let wa = s * la;
    let wb = s * lb;
    let wf = s * lf;
    if s != 1 {
        lemma_opposite_product(la, ax);
        lemma_opposite_product(lb, bx);
        lemma_opposite_product(lf, fx);
        lemma_opposite_product(la, ay);
        lemma_opposite_product(lb, by);
        lemma_opposite_product(lf, fy);
    }
    lemma_steps_to_mean(wa, wb, wf, a.x as int, b.x as int, f.x as int, q.x as int);
    lemma_steps_to_mean(wa, wb, wf, a.y as int, b.y as int, f.y as int, q.y as int);
}

/// An input point on side `s` of the line between two hull vertices is a hull
/// vertex itself or a mixture of three hull vertices.
pub proof fn lemma_beyond_is_vertex_or_mixture(
    points: Seq<Point>,
    a: Point,
    b: Point,
    s: int,
    q: Point,
) -> (w: (Point, Point, Point, int, int, int))
    requires
        is_vertex(points, a),
        is_vertex(points, b),
        points.contains(q),
        is_candidate(q, a, b, s),
        !is_vertex(points, q),
    ensures
        is_vertex(points, w.0) && is_vertex(points, w.1) && is_vertex(points, w.2),
        is_mixture(q, w.0, w.1, w.2, w.3, w.4, w.5),
    decreases outside(points, a, b, s).len(),
{
    let f = lemma_furthest_exists(points, a, b, s, q);
    lemma_furthest_is_vertex(points, a, b, s, f);
    let j = choose|j: int| 0 <= j < points.len() && points[j] == f;
    if is_candidate(q, f, a, -s) {
        assert forall|i: int|
            0 <= i < points.len() && is_candidate(#[trigger] points[i], f, a, -s)
            implies is_candidate(points[i], a, b, s) by {
            lemma_first_arc_within(points, a, b, f, points[i], s);
        }
        lemma_outside_shrinks(points, a, b, s, f, a, -s, j);
        lemma_beyond_is_vertex_or_mixture(points, f, a, -s, q)
    } else if is_candidate(q, f, b, s) {
        assert forall|i: int|
            0 <= i < points.len() && is_candidate(#[trigger] points[i], f, b, s)
            implies is_candidate(points[i], a, b, s) by {
            lemma_second_arc_within(points, a, b, f, points[i], s);
        }
        lemma_outside_shrinks(points, a, b, s, f, b, s, j);
        lemma_beyond_is_vertex_or_mixture(points, f, b, s, q)
    } else {
        lemma_inside_triangle_is_mixture(a, b, f, q, s);
        (a, b, f, s * cross(q, b, f), s * cross(q, f, a), s * cross(q, a, b))
    }
}

/// A point on the line from `lo` to `hi`, after `lo` and before `hi` in the
/// order by `x`, then by `y`, is a mixture of the two.
pub proof fn lemma_between_is_mixture(lo: Point, hi: Point, q: Point) -> (w: (int, int))
    requires
        lex_less(lo, q),
        lex_less(q, hi),
        side_of(q, lo, hi) == 0,
    ensures
        is_mixture(q, lo, hi, lo, w.0, w.1, 0),
{
    if lo.x < hi.x {
        let l1 = hi.x - q.x;
        let l2 = q.x - lo.x;
        assert((l1 + l2 + 0) * q.x == l1 * lo.x + l2 * hi.x + 0 * lo.x) by (nonlinear_arith)
            requires
                l1 == hi.x - q.x,
                l2 == q.x - lo.x,
        ;
        assert((l1 + l2 + 0) * q.y == l1 * lo.y + l2 * hi.y + 0 * lo.y) by (nonlinear_arith)
            requires
                l1 == hi.x - q.x,
                l2 == q.x - lo.x,
                (q.y - lo.y) * (hi.x - lo.x) - (hi.y - lo.y) * (q.x - lo.x) == 0,
        ;
        (l1, l2)
    } else {
        let l1 = hi.y - q.y;
        let l2 = q.y - lo.y;
        assert((l1 + l2 + 0) * q.x == l1 * lo.x + l2 * hi.x + 0 * lo.x) by (nonlinear_arith)
            requires
                lo.x == q.x,
                hi.x == q.x,
        ;
        assert((l1 + l2 + 0) * q.y == l1 * lo.y + l2 * hi.y + 0 * lo.y) by (nonlinear_arith)
            requires
                l1 == hi.y - q.y,
                l2 == q.y - lo.y,
        ;
        (l1, l2)
    }
}

/// There is a last point by `x`, then by `y`.
proof fn lemma_lex_max_exists(points: Seq<Point>) -> (hi: Point)
    requires
        points.len() > 0,
    ensures
        is_lex_max(points, hi),
{
    // The height in this direction grows with the order.
    let hi = lemma_highest_exists(points, pow64(), 1, points.len() as int);
    assert(points.take(points.len() as int) =~= points);
    assert(is_highest(points, pow64(), 1, hi));
    assert forall|i: int| 0 <= i < points.len() implies !lex_less(hi, #[trigger] points[i]) by {
        assert(dot(pow64(), 1, points[i]) <= dot(
            pow64(),
            1,
            hi,
        ));
    }
    hi
}

/// An input point that is no hull vertex is a mixture of three hull vertices:
/// it lies in a triangle of hull vertices, or between two of them.
pub proof fn lemma_non_vertex_is_mixture(points: Seq<Point>, q: Point) -> (w: (
    Point,
    Point,
    Point,
    int,
    int,
    int,
))
    requires
        points.contains(q),
        !is_vertex(points, q),
    ensures
        is_vertex(points, w.0) && is_vertex(points, w.1) && is_vertex(points, w.2),
        is_mixture(q, w.0, w.1, w.2, w.3, w.4, w.5),
{
    let lo = lemma_highest_exists(points, 0, 0, points.len() as int);
    assert(points.take(points.len() as int) =~= points);
    assert(is_lex_min(points, lo));
    let hi = lemma_lex_max_exists(points);
    lemma_lex_min_is_vertex(points, lo);
    lemma_lex_max_is_vertex(points, hi);
    let s = side_of(q, lo, hi);
    if s == 0 {
        let i = choose|i: int| 0 <= i < points.len() && points[i] == q;
        assert(!lex_less(points[i], lo));
        assert(!lex_less(hi, points[i]));
        let (l1, l2) = lemma_between_is_mixture(lo, hi, q);
        (lo, hi, lo, l1, l2, 0)
    } else {
        lemma_beyond_is_vertex_or_mixture(points, lo, hi, s, q)
    }
}

/// The hull vertices are the extreme points: an input point is a hull vertex
/// exactly when it is no mixture of other input points.
pub proof fn lemma_vertex_iff_no_mixture(points: Seq<Point>, q: Point)
    ensures
        is_vertex(points, q) <==> points.contains(q) && !is_mixed(points, q),
{
    if is_vertex(points, q) && is_mixed(points, q) {
        let (v1, v2, v3, l1, l2, l3) = choose|
            v1: Point,
            v2: Point,
            v3: Point,
            l1: int,
            l2: int,
            l3: int,
        |
            {
                &&& points.contains(v1) && v1 != q
                &&& points.contains(v2) && v2 != q
                &&& points.contains(v3) && v3 != q
                &&& #[trigger] is_mixture(q, v1, v2, v3, l1, l2, l3)
            };
        lemma_vertex_is_no_mixture(points, q, v1, v2, v3, l1, l2, l3);
    }
    if points.contains(q) && !is_vertex(points, q) {
        let w = lemma_non_vertex_is_mixture(points, q);
        assert(is_mixture(q, w.0, w.1, w.2, w.3, w.4, w.5));
    }
}

} // verus!
