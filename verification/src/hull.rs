//! The quickhull recursion and its driver.

use vstd::prelude::*;
use crate::convexity::{
    hull_vertices, is_candidate, is_furthest, is_lex_max, is_lex_min, is_vertex,
    lemma_first_arc_within, lemma_furthest_is_vertex, lemma_lex_max_is_vertex,
    lemma_lex_min_is_vertex, lemma_outside_shrinks, lemma_second_arc_within,
    lemma_vertex_beyond_triangle, lemma_vertex_on_base_line, outside,
};
use crate::geometry::{distance_from_line, line_distance, side, side_of};
use crate::joiner::{Joiner, Parallel, Sequential};
use crate::laws::{
    all_collinear, all_equal, lemma_hull_of_collinear_points, lemma_hull_of_identical_points,
    lemma_hull_of_no_points, lemma_hull_of_one_point, lemma_hull_of_two_points,
};
use crate::point::{lex_less, Point};
use crate::point_set::PointSet;

verus! {

/// At or below this many input points a parallel strategy hands over to the
/// sequential one: below it, the cost of dispatching tasks outweighs the work.
pub const SEQUENTIAL_THRESHOLD: usize = 5 * 1024;

/// `hull` is the part of the hull that belongs to the line from `a` to `b` and
/// its side `s`: the two ends, and every hull vertex strictly on that side.
pub open spec fn is_arc(points: Seq<Point>, a: Point, b: Point, s: int, hull: Set<Point>) -> bool {
    forall|v: Point|
        hull.contains(v) <==> v == a || v == b || (is_vertex(points, v) && is_candidate(v, a, b, s))
}

/// The first point by `x`, then by `y`; `None` when there are no points.
pub fn lex_min<'a>(points: &'a [Point]) -> (r: Option<&'a Point>)
    ensures
        match r {
            Some(v) => is_lex_min(points@, *v),
            None => points@.len() == 0,
        },
{
    if points.len() == 0 {
        return None;
    }
    let mut best: &'a Point = &points[0];
    let mut i: usize = 1;
    while i < points.len()
        invariant
            1 <= i <= points@.len(),
            points@.contains(*best),
            forall|k: int| 0 <= k < i ==> !lex_less(#[trigger] points@[k], *best),
        decreases points@.len() - i,
    {
        if points[i].precedes(best) {
            best = &points[i];
        }
        i += 1;
    }
    Some(best)
}

/// The last point by `x`, then by `y`; `None` when there are no points.
pub fn lex_max<'a>(points: &'a [Point]) -> (r: Option<&'a Point>)
    ensures
        match r {
            Some(v) => is_lex_max(points@, *v),
            None => points@.len() == 0,
        },
{
    if points.len() == 0 {
        return None;
    }
    let mut best: &'a Point = &points[0];
    let mut i: usize = 1;
    while i < points.len()
        invariant
            1 <= i <= points@.len(),
            points@.contains(*best),
            forall|k: int| 0 <= k < i ==> !lex_less(*best, #[trigger] points@[k]),
        decreases points@.len() - i,
    {
        if best.precedes(&points[i]) {
            best = &points[i];
        }
        i += 1;
    }
    Some(best)
}

/// The candidate of the line from `a` to `b` on side `s` that is furthest from
/// the line; among several at that distance, the first by `x`, then by `y`.
/// `None` when the line has no candidate on that side.
pub fn furthest<'a>(points: &'a [Point], a: &Point, b: &Point, s: i8) -> (r: Option<&'a Point>)
    ensures
        match r {
            Some(f) => is_furthest(points@, *a, *b, s as int, *f),
            None => forall|i: int|
                0 <= i < points@.len() ==> !is_candidate(#[trigger] points@[i], *a, *b, s as int),
        },
{
    let mut best: Option<&'a Point> = None;
    let mut max_dist: u128 = 0;
    let mut i: usize = 0;
    while i < points.len()
        invariant
            i <= points@.len(),
            match best {
                Some(f) => {
                    &&& points@.contains(*f)
                    &&& is_candidate(*f, *a, *b, s as int)
                    &&& max_dist == line_distance(*f, *a, *b)
                    &&& forall|k: int|
                        0 <= k < i && is_candidate(#[trigger] points@[k], *a, *b, s as int) ==> {
                            ||| line_distance(points@[k], *a, *b) < line_distance(*f, *a, *b)
                            ||| (line_distance(points@[k], *a, *b) == line_distance(*f, *a, *b)
                                && !lex_less(points@[k], *f))
                        }
                },
                None => {
                    &&& max_dist == 0
                    &&& forall|k: int|
                        0 <= k < i ==> !is_candidate(#[trigger] points@[k], *a, *b, s as int)
                },
            },
        decreases points@.len() - i,
    {
        let p = &points[i];
        if side(p, a, b) == s {
            let dist = distance_from_line(p, a, b);
            let better = match best {
                Some(f) => dist > max_dist || (dist == max_dist && p.precedes(f)),
                None => dist > max_dist,
            };
            if better {
                best = Some(p);
                max_dist = dist;
            }
        }
        i += 1;
    }
    best
}

/// The hull vertices that belong to the line from `p1` to `p2` and its side
/// `s` (`1` for left, `-1` for right), together with `p1` and `p2`.
///
/// With no candidate on that side the two ends are the answer. Otherwise the
/// furthest candidate splits the problem in two, which are joined by `J`; a
/// parallel `J` gives way to [`Sequential`] when the input has no more than
/// [`SEQUENTIAL_THRESHOLD`] points. The result does not depend on `J`.
///
/// The two ends must be hull vertices: the recursion rests on it to come to an
/// end.
pub fn _quick_hull<'a, J: Joiner>(
    points: &'a [Point],
    p1: &'a Point,
    p2: &'a Point,
    s: i8,
) -> (hull: PointSet<'a>)
    requires
        s == 1 || s == -1 ==> is_vertex(points@, *p1) && is_vertex(points@, *p2),
    ensures
        is_arc(points@, *p1, *p2, s as int, hull@),
    decreases outside(points@, *p1, *p2, s as int).len(),
{
    match furthest(points, p1, p2, s) {
        Some(f) => {
            let ghost all = points@;
            let ghost a = *p1;
            let ghost b = *p2;
            let ghost top = *f;
            let ghost side = s as int;
            let opposite: i8 = -s;
            proof {
                lemma_furthest_is_vertex(all, a, b, side, top);
                let j = choose|j: int| 0 <= j < all.len() && all[j] == top;
                assert forall|i: int|
                    0 <= i < all.len() && is_candidate(#[trigger] all[i], top, a, -side)
                    implies is_candidate(all[i], a, b, side) by {
                    lemma_first_arc_within(all, a, b, top, all[i], side);
                }
                assert forall|i: int|
                    0 <= i < all.len() && is_candidate(#[trigger] all[i], top, b, side)
                    implies is_candidate(all[i], a, b, side) by {
                    lemma_second_arc_within(all, a, b, top, all[i], side);
                }
                lemma_outside_shrinks(all, a, b, side, top, a, -side, j);
                lemma_outside_shrinks(all, a, b, side, top, b, side, j);
            }
            let near = || -> (h: PointSet<'a>)
                ensures
                    is_arc(all, top, a, -side, h@)
                {
                    let hull = _quick_hull::<J>(points, f, p1, opposite);
                    hull
                };
            let far = || -> (h: PointSet<'a>)
                ensures
                    is_arc(all, top, b, side, h@)
                {
                    let hull = _quick_hull::<J>(points, f, p2, s);
                    hull
                };
            let (l, r) = if J::is_parallel() && points.len() <= SEQUENTIAL_THRESHOLD {
                Sequential::join(near, far)
            } else {
                J::join(near, far)
            };
            let hull = l.union(&r);
            proof {
                assert forall|v: Point|
                    hull@.contains(v) <==> v == a || v == b || (is_vertex(all, v) && is_candidate(
                        v,
                        a,
                        b,
                        side,
                    )) by {
                    if is_vertex(all, v) && is_candidate(v, top, a, -side) {
                        lemma_first_arc_within(all, a, b, top, v, side);
                    }
                    if is_vertex(all, v) && is_candidate(v, top, b, side) {
                        lemma_second_arc_within(all, a, b, top, v, side);
                    }
                    if is_vertex(all, v) && is_candidate(v, a, b, side) {
                        lemma_vertex_beyond_triangle(all, a, b, top, v, side);
                    }
                }
            }
            hull
        },
        None => {
            // No point beyond the line: its two ends are all there is.
            let mut hull = PointSet::new();
            hull.insert(p1);
            hull.insert(p2);
            proof {
                assert forall|v: Point| is_vertex(points@, v) implies !is_candidate(
                    v,
                    *p1,
                    *p2,
                    s as int,
                ) by {
                    let i = choose|i: int| 0 <= i < points@.len() && points@[i] == v;
                    assert(!is_candidate(points@[i], *p1, *p2, s as int));
                }
            }
            hull
        },
    }
}

/// What the hull of a degenerate input is.
proof fn lemma_degenerate_hulls(points: Seq<Point>)
    ensures
        points.len() == 0 ==> hull_vertices(points) == Set::<Point>::empty(),
        points.len() == 1 ==> hull_vertices(points) == set![points[0]],
        points.len() == 2 ==> hull_vertices(points) == set![points[0], points[1]],
        points.len() > 0 && all_equal(points) ==> hull_vertices(points) == set![points[0]],
        all_collinear(points) ==> forall|lo: Point, hi: Point|
            is_lex_min(points, lo) && is_lex_max(points, hi) ==> hull_vertices(points) == set![
                lo,
                hi,
            ],
{
    if points.len() == 0 {
        lemma_hull_of_no_points(points);
    }
    if points.len() == 1 {
        lemma_hull_of_one_point(points);
    }
    if points.len() == 2 {
        lemma_hull_of_two_points(points);
    }
    if points.len() > 0 && all_equal(points) {
        lemma_hull_of_identical_points(points);
    }
    if all_collinear(points) {
        assert forall|lo: Point, hi: Point|
            is_lex_min(points, lo) && is_lex_max(points, hi) implies hull_vertices(points) == set![
            lo,
            hi,
        ] by {
            lemma_hull_of_collinear_points(points, lo, hi);
        }
    }
}

/// The vertices of the convex hull of `points`: the input points that are
/// corners of the smallest convex polygon around all of them. Points inside
/// the polygon or strictly inside one of its edges are left out, and equal
/// points count once. No points give the empty set.
///
/// The degenerate inputs come out as they should: one point, or several equal
/// ones, give that point; two points give both; points on one line give the
/// two ends of their stretch.
pub fn quick_hull<'a>(points: &'a [Point]) -> (hull: PointSet<'a>)
    ensures
        hull@ == hull_vertices(points@),
        points@.len() == 0 ==> hull@ == Set::<Point>::empty(),
        points@.len() == 1 ==> hull@ == set![points@[0]],
        points@.len() == 2 ==> hull@ == set![points@[0], points@[1]],
        points@.len() > 0 && all_equal(points@) ==> hull@ == set![points@[0]],
        all_collinear(points@) ==> forall|lo: Point, hi: Point|
            is_lex_min(points@, lo) && is_lex_max(points@, hi) ==> hull@ == set![lo, hi],
{
    proof {
        lemma_degenerate_hulls(points@);
    }
    let min_x = match lex_min(points) {
        Some(p) => p,
        None => {
            return PointSet::new();
        },
    };
    let max_x = match lex_max(points) {
        Some(p) => p,
        None => {
            return PointSet::new();
        },
    };
    let ghost all = points@;
    let ghost lo = *min_x;
    let ghost hi = *max_x;
    proof {
        lemma_lex_min_is_vertex(all, lo);
        lemma_lex_max_is_vertex(all, hi);
    }
    let (l, r) = Parallel::join(
        || -> (h: PointSet<'a>)
            ensures
                is_arc(all, lo, hi, 1, h@)
            {
                let left = _quick_hull::<Parallel>(points, min_x, max_x, 1);
                left
            },
        || -> (h: PointSet<'a>)
            ensures
                is_arc(all, lo, hi, -1, h@)
            {
                let right = _quick_hull::<Parallel>(points, min_x, max_x, -1);
                right
            },
    );
    let hull = l.union(&r);
    proof {
        assert forall|v: Point| hull@.contains(v) <==> is_vertex(all, v) by {
            if is_vertex(all, v) && side_of(v, lo, hi) == 0 {
                lemma_vertex_on_base_line(all, lo, hi, v);
            }
        }
        assert(hull@ =~= hull_vertices(all));
    }
    hull
}

} // verus!
