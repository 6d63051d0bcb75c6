//! What holds of hulls in general: the answer depends on the points alone, not
//! on their order or on how the work was split, and the degenerate inputs have
//! the hulls one expects.

use vstd::prelude::*;
use crate::convexity::{
    dot, hull_vertices, is_furthest, is_lex_max, is_lex_min, is_vertex, lemma_highest_exists,
    lemma_highest_is_vertex, lemma_lex_max_is_vertex, lemma_lex_min_is_vertex,
    lemma_vertex_beyond_triangle, lemma_vertex_on_base_line, supports,
};
use crate::geometry::{cross, lemma_reversed_line_swaps_sides, side_of};
use crate::hull::is_arc;
use crate::point::{lex_less, Point};

verus! {

/// Every hull vertex is one of the points.
pub proof fn lemma_vertices_are_points(points: Seq<Point>)
    ensures
        hull_vertices(points).subset_of(points.to_set()),
        hull_vertices(points).finite(),
{
    vstd::seq_lib::seq_to_set_is_finite(points);
    vstd::set_lib::lemma_len_subset(hull_vertices(points), points.to_set());
}

/// The hull vertices bound the points in every direction: whichever way one
/// looks, some hull vertex is at least as high as every point. So every point
/// lies within the polygon that the hull vertices span.
pub proof fn lemma_vertices_bound_points(points: Seq<Point>, dx: int, dy: int) -> (v: Point)
    requires
        points.len() > 0,
    ensures
        is_vertex(points, v),
        forall|i: int|
            0 <= i < points.len() ==> dot(dx, dy, #[trigger] points[i]) <= dot(dx, dy, v),
{
    let v = lemma_highest_exists(points, dx, dy, points.len() as int);
    assert(points.take(points.len() as int) =~= points);
    lemma_highest_is_vertex(points, dx, dy, v);
    v
}

/// A direction that supports `v` among one sequence of points supports it
/// among any sequence of the same points.
proof fn lemma_supports_same_points(p: Seq<Point>, q: Seq<Point>, v: Point, dx: int, dy: int)
    requires
        p.to_set() == q.to_set(),
        supports(p, v, dx, dy),
    ensures
        supports(q, v, dx, dy),
{
    assert forall|j: int| 0 <= j < q.len() && #[trigger] q[j] != v implies dot(
        dx,
        dy,
        q[j],
    ) < dot(dx, dy, v) by {
        assert(q.to_set().contains(q[j]));
        assert(p.to_set().contains(q[j]));
        let i = choose|i: int| 0 <= i < p.len() && p[i] == q[j];
        assert(p[i] != v);
    }
}

/// The hull depends only on which points there are: two inputs with the same
/// distinct points, in any order and with any repetitions, have the same hull
/// vertices.
pub proof fn lemma_hull_of_same_points(p: Seq<Point>, q: Seq<Point>)
    requires
        p.to_set() == q.to_set(),
    ensures
        hull_vertices(p) == hull_vertices(q),
{
    assert forall|v: Point| is_vertex(p, v) <==> is_vertex(q, v) by {
        assert(p.contains(v) <==> p.to_set().contains(v));
        assert(q.contains(v) <==> q.to_set().contains(v));
        if is_vertex(p, v) {
            let (dx, dy) = choose|dx: int, dy: int| #[trigger] supports(p, v, dx, dy);
            lemma_supports_same_points(p, q, v, dx, dy);
        }
        if is_vertex(q, v) {
            let (dx, dy) = choose|dx: int, dy: int| #[trigger] supports(q, v, dx, dy);
            lemma_supports_same_points(q, p, v, dx, dy);
        }
    }
    assert(hull_vertices(p) =~= hull_vertices(q));
}

/// Shuffling the input does not change the hull: a rearrangement of the points
/// has the same hull vertices.
pub proof fn lemma_hull_ignores_order(p: Seq<Point>, q: Seq<Point>)
    requires
        p.to_multiset() == q.to_multiset(),
    ensures
        hull_vertices(p) == hull_vertices(q),
{
    assert forall|v: Point| p.to_set().contains(v) <==> q.to_set().contains(v) by {
        vstd::seq_lib::to_multiset_contains(p, v);
        vstd::seq_lib::to_multiset_contains(q, v);
    }
    assert(p.to_set() =~= q.to_set());
    lemma_hull_of_same_points(p, q);
}

/// The choice of the furthest candidate is fixed by the points and the line:
/// no two points are both the furthest.
pub proof fn lemma_furthest_is_unique(
    points: Seq<Point>,
    a: Point,
    b: Point,
    s: int,
    f: Point,
    g: Point,
)
    requires
        is_furthest(points, a, b, s, f),
        is_furthest(points, a, b, s, g),
    ensures
        f == g,
{
    let i = choose|i: int| 0 <= i < points.len() && points[i] == f;
    let j = choose|j: int| 0 <= j < points.len() && points[j] == g;
    assert(points[i] == f && points[j] == g);
}

/// The part of the hull that belongs to a subproblem is fixed by the
/// subproblem: whichever way two runs joined their halves, in parallel or in
/// sequence, they return the same set.
pub proof fn lemma_arc_is_unique(
    points: Seq<Point>,
    a: Point,
    b: Point,
    s: int,
    first: Set<Point>,
    second: Set<Point>,
)
    requires
        is_arc(points, a, b, s, first),
        is_arc(points, a, b, s, second),
    ensures
        first == second,
{
    assert(first =~= second);
}

/// All the points are one and the same.
pub open spec fn all_equal(points: Seq<Point>) -> bool {
    forall|i: int| 0 <= i < points.len() ==> #[trigger] points[i] == points[0]
}

/// All the points lie on one line.
pub open spec fn all_collinear(points: Seq<Point>) -> bool {
    forall|i: int, j: int, k: int|
        0 <= i < points.len() && 0 <= j < points.len() && 0 <= k < points.len() ==> cross(
            #[trigger] points[i],
            #[trigger] points[j],
            #[trigger] points[k],
        ) == 0
}

/// No points have no hull.
pub proof fn lemma_hull_of_no_points(points: Seq<Point>)
    requires
        points.len() == 0,
    ensures
        hull_vertices(points) == Set::<Point>::empty(),
{
    assert(hull_vertices(points) =~= Set::<Point>::empty());
}

/// Points that are all the same have that one point as their hull.
pub proof fn lemma_hull_of_identical_points(points: Seq<Point>)
    requires
        points.len() > 0,
        all_equal(points),
    ensures
        hull_vertices(points) == set![points[0]],
{
    assert(supports(points, points[0], 0, 0));
    assert(hull_vertices(points) =~= set![points[0]]);
}

/// A single point is its own hull.
pub proof fn lemma_hull_of_one_point(points: Seq<Point>)
    requires
        points.len() == 1,
    ensures
        hull_vertices(points) == set![points[0]],
{
    lemma_hull_of_identical_points(points);
}

/// Two points are both on their hull.
pub proof fn lemma_hull_of_two_points(points: Seq<Point>)
    requires
        points.len() == 2,
    ensures
        hull_vertices(points) == set![points[0], points[1]],
{
    let a = points[0];
    let b = points[1];
    if lex_less(b, a) {
        lemma_lex_min_is_vertex(points, b);
        lemma_lex_max_is_vertex(points, a);
    } else {
        lemma_lex_min_is_vertex(points, a);
        lemma_lex_max_is_vertex(points, b);
    }
    assert(hull_vertices(points) =~= set![a, b]);
}

/// Points that all lie on one line have just the two ends of their stretch as
/// hull: the first and the last point by `x`, then by `y`. What lies between
/// them is left out.
pub proof fn lemma_hull_of_collinear_points(points: Seq<Point>, lo: Point, hi: Point)
    requires
        all_collinear(points),
        is_lex_min(points, lo),
        is_lex_max(points, hi),
    ensures
        hull_vertices(points) == set![lo, hi],
{
    lemma_lex_min_is_vertex(points, lo);
    lemma_lex_max_is_vertex(points, hi);
    let j = choose|j: int| 0 <= j < points.len() && points[j] == lo;
    let k = choose|k: int| 0 <= k < points.len() && points[k] == hi;
    assert forall|v: Point| is_vertex(points, v) implies v == lo || v == hi by {
        let i = choose|i: int| 0 <= i < points.len() && points[i] == v;
        assert(cross(points[i], points[j], points[k]) == 0);
        lemma_vertex_on_base_line(points, lo, hi, v);
    }
    assert(hull_vertices(points) =~= set![lo, hi]);
}

/// A point inside a triangle of three other input points, or on its boundary,
/// is no hull vertex. The triangle `a`, `b`, `c` is taken anticlockwise.
pub proof fn lemma_inside_triangle_is_no_vertex(
    points: Seq<Point>,
    a: Point,
    b: Point,
    c: Point,
    v: Point,
)
    requires
        points.contains(a),
        points.contains(b),
        points.contains(c),
        v != a,
        v != b,
        v != c,
        side_of(c, a, b) == 1,
        side_of(v, a, b) >= 0,
        side_of(v, b, c) >= 0,
        side_of(v, c, a) >= 0,
    ensures
        !is_vertex(points, v),
{
    if is_vertex(points, v) {
        // A vertex strictly left of one edge lies beyond one of the other two
        // edges, which `v` does not. And a point on the lines of two edges is
        // the corner where they meet, which `v` is not.
        if side_of(v, a, b) == 1 {
            lemma_vertex_beyond_triangle(points, a, b, c, v, 1);
            lemma_reversed_line_swaps_sides(v, c, b);
        } else if side_of(v, b, c) == 1 {
            lemma_vertex_beyond_triangle(points, b, c, a, v, 1);
            lemma_reversed_line_swaps_sides(v, a, c);
        } else {
            lemma_on_two_edges_is_corner(v, a, b, c);
        }
    }
}

/// A point on the lines of two edges of a proper triangle is the corner where
/// they meet.
proof fn lemma_on_two_edges_is_corner(v: Point, a: Point, b: Point, c: Point)
    requires
        cross(c, a, b) != 0,
        cross(v, a, b) == 0,
        cross(v, b, c) == 0,
    ensures
        v == b,
{
    let ux = v.x - b.x;
    let uy = v.y - b.y;
    let px = a.x - b.x;
    let py = a.y - b.y;
    let qx = c.x - b.x;
    let qy = c.y - b.y;
    // Seen from `b`: both `a` and `c` are parallel to `v`, yet not to each other.
    assert(cross(v, a, b) == py * ux - px * uy) by (nonlinear_arith)
        requires
            cross(v, a, b) == (v.y - a.y) * (b.x - a.x) - (b.y - a.y) * (v.x - a.x),
            ux == v.x - b.x,
            uy == v.y - b.y,
            px == a.x - b.x,
            py == a.y - b.y,
    ;
    assert(cross(v, b, c) == uy * qx - qy * ux) by (nonlinear_arith)
        requires
            cross(v, b, c) == (v.y - b.y) * (c.x - b.x) - (c.y - b.y) * (v.x - b.x),
            ux == v.x - b.x,
            uy == v.y - b.y,
            qx == c.x - b.x,
            qy == c.y - b.y,
    ;
    assert(cross(c, a, b) == py * qx - px * qy) by (nonlinear_arith)
        requires
            cross(c, a, b) == (c.y - a.y) * (b.x - a.x) - (b.y - a.y) * (c.x - a.x),
            px == a.x - b.x,
            py == a.y - b.y,
            qx == c.x - b.x,
            qy == c.y - b.y,
    ;
    assert(ux * (px * qy - py * qx) == 0) by (nonlinear_arith)
        requires
            px * uy - py * ux == 0,
            uy * qx - qy * ux == 0,
    ;
    assert(uy * (px * qy - py * qx) == 0) by (nonlinear_arith)
        requires
            px * uy - py * ux == 0,
            uy * qx - qy * ux == 0,
    ;
    assert(ux == 0 && uy == 0) by (nonlinear_arith)
        requires
            px * qy - py * qx != 0,
            ux * (px * qy - py * qx) == 0,
            uy * (px * qy - py * qx) == 0,
    ;
}

} // verus!
