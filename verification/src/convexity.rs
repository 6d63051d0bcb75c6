//! What a hull vertex is, and the plane geometry that the recursion rests on.
//!
//! A point of the input is a vertex of its convex hull exactly when some line
//! through it has every other input point strictly on one side: when some
//! direction `(dx, dy)` makes `dx * x + dy * y` larger at that point than at
//! any other. Over integer points an integer direction always does, so the
//! whole theory stays within the integers. That these are the points which are
//! no weighted mean of other input points is proved in [`crate::mixture`].

use vstd::prelude::*;
use crate::geometry::{cross, line_distance, pow64, side_of};
use crate::point::{lex_less, Point};

verus! {

/// The height of `p` in the direction `(dx, dy)`.
pub open spec fn dot(dx: int, dy: int, p: Point) -> int {
    dx * p.x + dy * p.y
}

/// Every point of `points` other than `v` lies strictly below `v` in the
/// direction `(dx, dy)`.
pub open spec fn supports(points: Seq<Point>, v: Point, dx: int, dy: int) -> bool {
    forall|i: int|
        0 <= i < points.len() && #[trigger] points[i] != v ==> dot(dx, dy, points[i]) < dot(
            dx,
            dy,
            v,
        )
}

/// `v` is a vertex of the convex hull of `points`: it is one of the points, and
/// in some direction it lies strictly above all the others.
pub open spec fn is_vertex(points: Seq<Point>, v: Point) -> bool {
    points.contains(v) && exists|dx: int, dy: int| #[trigger] supports(points, v, dx, dy)
}

/// The vertices of the convex hull of `points`.
pub open spec fn hull_vertices(points: Seq<Point>) -> Set<Point> {
    Set::new(|v: Point| is_vertex(points, v))
}

/// `p` lies strictly on side `s` of the directed line from `a` to `b`, where
/// `s` is `1` (left) or `-1` (right). No point is a candidate for another `s`.
pub open spec fn is_candidate(p: Point, a: Point, b: Point, s: int) -> bool {
    s != 0 && side_of(p, a, b) == s
}

/// `f` is the candidate furthest from the line through `a` and `b`; among
/// several at that distance, the first by `x`, then by `y`.
pub open spec fn is_furthest(points: Seq<Point>, a: Point, b: Point, s: int, f: Point) -> bool {
    &&& points.contains(f)
    &&& is_candidate(f, a, b, s)
    &&& forall|i: int|
        0 <= i < points.len() && is_candidate(#[trigger] points[i], a, b, s) ==> {
            ||| line_distance(points[i], a, b) < line_distance(f, a, b)
            ||| (line_distance(points[i], a, b) == line_distance(f, a, b) && !lex_less(
                points[i],
                f,
            ))
        }
}

/// The positions in `points` of the candidates of the line from `a` to `b` on
/// side `s`: what a subproblem still has to look at.
pub open spec fn outside(points: Seq<Point>, a: Point, b: Point, s: int) -> Set<int> {
    Set::new(|i: int| 0 <= i < points.len() && is_candidate(points[i], a, b, s))
}

/// No point of `points` comes before `v` by `x`, then by `y`.
pub open spec fn is_lex_min(points: Seq<Point>, v: Point) -> bool {
    &&& points.contains(v)
    &&& forall|i: int| 0 <= i < points.len() ==> !lex_less(#[trigger] points[i], v)
}

/// No point of `points` comes after `v` by `x`, then by `y`.
pub open spec fn is_lex_max(points: Seq<Point>, v: Point) -> bool {
    &&& points.contains(v)
    &&& forall|i: int| 0 <= i < points.len() ==> !lex_less(v, #[trigger] points[i])
}

/// `f` is highest among `points` in the direction `(dx, dy)`; among several of
/// that height, the first by `x`, then by `y`.
pub open spec fn is_highest(points: Seq<Point>, dx: int, dy: int, f: Point) -> bool {
    &&& points.contains(f)
    &&& forall|i: int|
        0 <= i < points.len() ==> {
            ||| dot(dx, dy, #[trigger] points[i]) < dot(dx, dy, f)
            ||| (dot(dx, dy, points[i]) == dot(dx, dy, f) && !lex_less(points[i], f))
        }
}

/// Three plane vectors are linearly dependent:
/// `(a x b) f + (b x f) a + (f x a) b = 0`.
pub proof fn lemma_three_vectors_dependent(ax: int, ay: int, bx: int, by: int, fx: int, fy: int)
    ensures
        (ax * by - ay * bx) * fx + (bx * fy - by * fx) * ax + (fx * ay - fy * ax) * bx == 0,
        (ax * by - ay * bx) * fy + (bx * fy - by * fx) * ay + (fx * ay - fy * ax) * by == 0,
{
    assert((ax * by - ay * bx) * fx + (bx * fy - by * fx) * ax + (fx * ay - fy * ax) * bx == 0)
        by (nonlinear_arith);
    assert((ax * by - ay * bx) * fy + (bx * fy - by * fx) * ay + (fx * ay - fy * ax) * by == 0)
        by (nonlinear_arith);
}

/// Three plane vectors `a`, `b`, `f` that all point strictly downwards in some
/// direction `d` cannot wind all the way round: when `b` is a strict turn to
/// one side of `a`, and `f` is no turn to the other side of `b`, then `a` is a
/// strict turn to the other side of `f`.
proof fn lemma_no_full_turn(
    ax: int,
    ay: int,
    bx: int,
    by: int,
    fx: int,
    fy: int,
    dx: int,
    dy: int,
    s: int,
)
    requires
        s == 1 || s == -1,
        dx * ax + dy * ay < 0,
        dx * bx + dy * by < 0,
        dx * fx + dy * fy < 0,
        s == 1 ==> ax * by - ay * bx > 0 && bx * fy - by * fx >= 0,
        s == -1 ==> ax * by - ay * bx < 0 && bx * fy - by * fx <= 0,
    ensures
        s == 1 ==> fx * ay - fy * ax < 0,
        s == -1 ==> fx * ay - fy * ax > 0,
{
    let ab = ax * by - ay * bx;
    let bf = bx * fy - by * fx;
    let fa = fx * ay - fy * ax;
    let da = dx * ax + dy * ay;
    let db = dx * bx + dy * by;
    let df = dx * fx + dy * fy;
    lemma_three_vectors_dependent(ax, ay, bx, by, fx, fy);
    assert(ab * df == dx * (ab * fx) + dy * (ab * fy)) by (nonlinear_arith)
        requires
            df == dx * fx + dy * fy,
    ;
    assert(bf * da == dx * (bf * ax) + dy * (bf * ay)) by (nonlinear_arith)
        requires
            da == dx * ax + dy * ay,
    ;
    assert(fa * db == dx * (fa * bx) + dy * (fa * by)) by (nonlinear_arith)
        requires
            db == dx * bx + dy * by,
    ;
    assert(dx * (ab * fx) + dx * (bf * ax) + dx * (fa * bx) == 0) by (nonlinear_arith)
        requires
            ab * fx + bf * ax + fa * bx == 0,
    ;
    assert(dy * (ab * fy) + dy * (bf * ay) + dy * (fa * by) == 0) by (nonlinear_arith)
        requires
            ab * fy + bf * ay + fa * by == 0,
    ;
    assert(ab * df + bf * da + fa * db == 0);
    if s == 1 {
        assert(ab * df < 0) by (nonlinear_arith)
            requires
                ab > 0,
                df < 0,
        ;
        assert(bf * da <= 0) by (nonlinear_arith)
            requires
                bf >= 0,
                da < 0,
        ;
        assert(fa >= 0 ==> fa * db <= 0) by (nonlinear_arith)
            requires
                db < 0,
        ;
    } else {
        assert(ab * df > 0) by (nonlinear_arith)
            requires
                ab < 0,
                df < 0,
        ;
        assert(bf * da >= 0) by (nonlinear_arith)
            requires
                bf <= 0,
                da < 0,
        ;
        assert(fa <= 0 ==> fa * db >= 0) by (nonlinear_arith)
            requires
                db < 0,
        ;
    }
}

/// The cross product of `p` against the line from `a` to `b`, seen from an
/// origin `o`: it is `(a - o) x (b - o) + (b - o) x (p - o) + (p - o) x (a - o)`.
pub proof fn lemma_cross_from(p: Point, a: Point, b: Point, o: Point)
    ensures
        cross(p, a, b) == ((a.x - o.x) * (b.y - o.y) - (a.y - o.y) * (b.x - o.x)) + ((b.x - o.x) * (
        p.y - o.y) - (b.y - o.y) * (p.x - o.x)) + ((p.x - o.x) * (a.y - o.y) - (p.y - o.y) * (a.x
            - o.x)),
{
    let px = p.x as int;
    let py = p.y as int;
    let ax = a.x as int;
    let ay = a.y as int;
    let bx = b.x as int;
    let by = b.y as int;
    let ox = o.x as int;
    let oy = o.y as int;
    assert((py - ay) * (bx - ax) - (by - ay) * (px - ax) == ((ax - ox) * (by - oy) - (ay - oy) * (
    bx - ox)) + ((bx - ox) * (py - oy) - (by - oy) * (px - ox)) + ((px - ox) * (ay - oy) - (py
        - oy) * (ax - ox))) by (nonlinear_arith);
}

/// The ends of a line are on it, and every point is on a line without length.
pub proof fn lemma_cross_at_ends(p: Point, a: Point, b: Point)
    ensures
        cross(a, a, b) == 0,
        cross(b, a, b) == 0,
        cross(p, a, a) == 0,
{
}

/// The height of `q - a` is the difference of the heights of `q` and `a`.
pub proof fn lemma_dot_difference(dx: int, dy: int, q: Point, a: Point)
    ensures
        dx * (q.x - a.x) + dy * (q.y - a.y) == dot(dx, dy, q) - dot(dx, dy, a),
{
    let qx = q.x as int;
    let qy = q.y as int;
    let ax = a.x as int;
    let ay = a.y as int;
    assert(dx * (qx - ax) + dy * (qy - ay) == (dx * qx + dy * qy) - (dx * ax + dy * ay))
        by (nonlinear_arith);
}

/// A point of `points` other than `v` lies strictly below `v` in a direction
/// that supports `v`.
pub proof fn lemma_below(points: Seq<Point>, v: Point, dx: int, dy: int, q: Point)
    requires
        supports(points, v, dx, dy),
        points.contains(q),
        q != v,
    ensures
        dx * (q.x - v.x) + dy * (q.y - v.y) < 0,
{
    let i = choose|i: int| 0 <= i < points.len() && points[i] == q;
    assert(points[i] != v);
    lemma_dot_difference(dx, dy, q, v);
}

/// Narrowing towards the first end. Let `a` be a hull vertex and `f` a
/// candidate of the line from `a` to `b` on side `s`. Then every candidate of
/// the line from `f` to `a` on the opposite side is a candidate of the line
/// from `a` to `b` on side `s`.
pub proof fn lemma_first_arc_within(
    points: Seq<Point>,
    a: Point,
    b: Point,
    f: Point,
    q: Point,
    s: int,
)
    requires
        is_vertex(points, a),
        points.contains(b),
        points.contains(f),
        points.contains(q),
        is_candidate(f, a, b, s),
        is_candidate(q, f, a, -s),
    ensures
        is_candidate(q, a, b, s),
{
    let (dx, dy) = choose|dx: int, dy: int| #[trigger] supports(points, a, dx, dy);
    lemma_cross_from(f, a, b, a);
    lemma_cross_from(q, f, a, a);
    lemma_cross_from(q, a, b, a);
    lemma_cross_at_ends(f, a, b);
    lemma_cross_at_ends(q, f, a);
    assert(b != a);
    assert(f != a);
    assert(q != a);
    lemma_below(points, a, dx, dy, b);
    lemma_below(points, a, dx, dy, f);
    lemma_below(points, a, dx, dy, q);
    lemma_no_full_turn(
        b.x - a.x,
        b.y - a.y,
        f.x - a.x,
        f.y - a.y,
        q.x - a.x,
        q.y - a.y,
        dx,
        dy,
        s,
    );
}

/// Narrowing towards the second end. Let `b` be a hull vertex and `f` a
/// candidate of the line from `a` to `b` on side `s`. Then every candidate of
/// the line from `f` to `b` on the same side is a candidate of the line from
/// `a` to `b` on side `s`.
pub proof fn lemma_second_arc_within(
    points: Seq<Point>,
    a: Point,
    b: Point,
    f: Point,
    q: Point,
    s: int,
)
    requires
        is_vertex(points, b),
        points.contains(a),
        points.contains(f),
        points.contains(q),
        is_candidate(f, a, b, s),
        is_candidate(q, f, b, s),
    ensures
        is_candidate(q, a, b, s),
{
    let (dx, dy) = choose|dx: int, dy: int| #[trigger] supports(points, b, dx, dy);
    lemma_cross_from(f, a, b, b);
    lemma_cross_from(q, f, b, b);
    lemma_cross_from(q, a, b, b);
    lemma_cross_at_ends(f, a, b);
    lemma_cross_at_ends(q, f, b);
    assert(a != b);
    assert(f != b);
    assert(q != b);
    lemma_below(points, b, dx, dy, a);
    lemma_below(points, b, dx, dy, f);
    lemma_below(points, b, dx, dy, q);
    lemma_no_full_turn(
        q.x - b.x,
        q.y - b.y,
        f.x - b.x,
        f.y - b.y,
        a.x - b.x,
        a.y - b.y,
        dx,
        dy,
        s,
    );
}

/// A hull vertex on side `s` of the line from `a` to `b` is not inside the
/// triangle that a third point `f` spans with them: it is `f` itself, or it
/// lies beyond the edge from `f` to `a`, or beyond the edge from `f` to `b`.
pub proof fn lemma_vertex_beyond_triangle(
    points: Seq<Point>,
    a: Point,
    b: Point,
    f: Point,
    v: Point,
    s: int,
)
    requires
        is_vertex(points, v),
        points.contains(a),
        points.contains(b),
        points.contains(f),
        is_candidate(v, a, b, s),
    ensures
        v == f || is_candidate(v, f, a, -s) || is_candidate(v, f, b, s),
{
    if v != f && !is_candidate(v, f, b, s) {
        let (dx, dy) = choose|dx: int, dy: int| #[trigger] supports(points, v, dx, dy);
        lemma_cross_from(v, a, b, v);
        lemma_cross_from(v, f, b, v);
        lemma_cross_from(v, f, a, v);
        lemma_cross_at_ends(v, a, b);
        assert(a != v);
        assert(b != v);
        lemma_below(points, v, dx, dy, a);
        lemma_below(points, v, dx, dy, b);
        lemma_below(points, v, dx, dy, f);
        lemma_no_full_turn(
            a.x - v.x,
            a.y - v.y,
            b.x - v.x,
            b.y - v.y,
            f.x - v.x,
            f.y - v.y,
            dx,
            dy,
            s,
        );
    }
}

/// Two vectors on one line through the origin, one before the origin in the
/// order by `x`, then by `y`, and one after it, point to opposite sides of
/// every direction.
proof fn lemma_opposite_on_line(ax: int, ay: int, bx: int, by: int, dx: int, dy: int)
    requires
        ax * by - ay * bx == 0,
        ax < 0 || (ax == 0 && ay < 0),
        bx > 0 || (bx == 0 && by > 0),
        dx * ax + dy * ay < 0,
    ensures
        dx * bx + dy * by > 0,
{
    let da = dx * ax + dy * ay;
    let db = dx * bx + dy * by;
    if ax < 0 && bx > 0 {
        assert(bx * da - ax * db == dy * (ay * bx - ax * by)) by (nonlinear_arith)
            requires
                da == dx * ax + dy * ay,
                db == dx * bx + dy * by,
        ;
        assert(bx * da < 0) by (nonlinear_arith)
            requires
                bx > 0,
                da < 0,
        ;
        assert(db > 0) by (nonlinear_arith)
            requires
                ax < 0,
                ax * db < 0,
        ;
    } else if ax < 0 {
        assert(ax * by < 0) by (nonlinear_arith)
            requires
                ax < 0,
                by > 0,
        ;
    } else {
        assert(bx == 0) by (nonlinear_arith)
            requires
                ay * bx == 0,
                ay < 0,
        ;
        assert(dy > 0) by (nonlinear_arith)
            requires
                dy * ay < 0,
                ay < 0,
        ;
        assert(dy * by > 0) by (nonlinear_arith)
            requires
                dy > 0,
                by > 0,
        ;
    }
}

/// A point strictly between two input points on the line through them is no
/// hull vertex. "Between" is told by the order by `x`, then by `y`, which runs
/// along every line.
pub proof fn lemma_between_is_no_vertex(points: Seq<Point>, a: Point, b: Point, v: Point)
    requires
        points.contains(a),
        points.contains(b),
        lex_less(a, v),
        lex_less(v, b),
        side_of(v, a, b) == 0,
    ensures
        !is_vertex(points, v),
{
    if is_vertex(points, v) {
        let (dx, dy) = choose|dx: int, dy: int| #[trigger] supports(points, v, dx, dy);
        lemma_cross_from(v, a, b, v);
        lemma_below(points, v, dx, dy, a);
        lemma_below(points, v, dx, dy, b);
        lemma_opposite_on_line(a.x - v.x, a.y - v.y, b.x - v.x, b.y - v.y, dx, dy);
    }
}

/// A hull vertex on the line through the first and the last point (by `x`,
/// then by `y`) is one of the two.
pub proof fn lemma_vertex_on_base_line(points: Seq<Point>, lo: Point, hi: Point, v: Point)
    requires
        is_lex_min(points, lo),
        is_lex_max(points, hi),
        is_vertex(points, v),
        side_of(v, lo, hi) == 0,
    ensures
        v == lo || v == hi,
{
    if v != lo && v != hi {
        let i = choose|i: int| 0 <= i < points.len() && points[i] == v;
        assert(!lex_less(points[i], lo));
        assert(!lex_less(hi, points[i]));
        lemma_between_is_no_vertex(points, lo, hi, v);
    }
}

/// Tilting a direction: the height of `u` in the direction `k` times `d`,
/// lowered by `(w, 1)`.
proof fn lemma_tilted_height(k: int, w: int, dx: int, dy: int, ux: int, uy: int)
    ensures
        (k * dx - w) * ux + (k * dy - 1) * uy == k * (dx * ux + dy * uy) - (w * ux + uy),
{
    assert((k * dx - w) * ux == k * (dx * ux) - w * ux) by (nonlinear_arith);
    assert((k * dy - 1) * uy == k * (dy * uy) - uy) by (nonlinear_arith);
    assert(k * (dx * ux + dy * uy) == k * (dx * ux) + k * (dy * uy)) by (nonlinear_arith);
}

/// Among the points that are highest in a direction, the first by `x`, then by
/// `y`, is a hull vertex.
pub proof fn lemma_highest_is_vertex(points: Seq<Point>, dx: int, dy: int, f: Point)
    requires
        is_highest(points, dx, dy, f),
    ensures
        is_vertex(points, f),
{
    // Far enough along the direction that one unit of height outweighs any
    // step in the order by `x`, then by `y`.
    let k: int = 0x4_0000_0000_0000_0000_0000_0000_0000_0000int;
    let w: int = pow64();
    assert forall|i: int| 0 <= i < points.len() && #[trigger] points[i] != f implies dot(
        k * dx - w,
        k * dy - 1,
        points[i],
    ) < dot(k * dx - w, k * dy - 1, f) by {
        let q = points[i];
        lemma_dot_difference(k * dx - w, k * dy - 1, q, f);
        lemma_dot_difference(dx, dy, q, f);
        lemma_tilted_height(k, w, dx, dy, q.x - f.x, q.y - f.y);
        if dot(dx, dy, q) == dot(dx, dy, f) {
            assert(lex_less(f, q));
        }
    }
    assert(supports(points, f, k * dx - w, k * dy - 1));
}

/// The first point by `x`, then by `y`, is a hull vertex.
pub proof fn lemma_lex_min_is_vertex(points: Seq<Point>, v: Point)
    requires
        is_lex_min(points, v),
    ensures
        is_vertex(points, v),
{
    lemma_highest_is_vertex(points, 0, 0, v);
}

/// The last point by `x`, then by `y`, is a hull vertex.
pub proof fn lemma_lex_max_is_vertex(points: Seq<Point>, v: Point)
    requires
        is_lex_max(points, v),
    ensures
        is_vertex(points, v),
{
    assert forall|i: int| 0 <= i < points.len() && #[trigger] points[i] != v implies dot(
        pow64(),
        1,
        points[i],
    ) < dot(pow64(), 1, v) by {
        assert(lex_less(points[i], v));
    }
    assert(supports(points, v, pow64(), 1));
}

/// The height of a point across a line is its cross product against the line,
/// up to what the line's first end contributes.
pub proof fn lemma_cross_is_height(q: Point, a: Point, b: Point)
    ensures
        cross(q, a, b) == dot(-(b.y - a.y), b.x - a.x, q) - dot(-(b.y - a.y), b.x - a.x, a),
        -cross(q, a, b) == dot(b.y - a.y, -(b.x - a.x), q) - dot(b.y - a.y, -(b.x - a.x), a),
{
    let qx = q.x as int;
    let qy = q.y as int;
    let ax = a.x as int;
    let ay = a.y as int;
    let bx = b.x as int;
    let by = b.y as int;
    assert((qy - ay) * (bx - ax) - (by - ay) * (qx - ax) == (-(by - ay) * qx + (bx - ax) * qy) - (-(
    by - ay) * ax + (bx - ax) * ay)) by (nonlinear_arith);
    assert(-((qy - ay) * (bx - ax) - (by - ay) * (qx - ax)) == ((by - ay) * qx + (-(bx - ax)) * qy)
        - ((by - ay) * ax + (-(bx - ax)) * ay)) by (nonlinear_arith);
}

/// The candidate furthest from a line, the first by `x`, then by `y`, among
/// those at that distance, is a hull vertex.
pub proof fn lemma_furthest_is_vertex(points: Seq<Point>, a: Point, b: Point, s: int, f: Point)
    requires
        is_furthest(points, a, b, s, f),
    ensures
        is_vertex(points, f),
{
    // The furthest candidate is the highest point across the line.
    let dx = if s == 1 {
        -(b.y - a.y)
    } else {
        b.y - a.y
    };
    let dy = if s == 1 {
        b.x - a.x
    } else {
        -(b.x - a.x)
    };
    lemma_cross_is_height(f, a, b);
    assert forall|i: int| 0 <= i < points.len() implies {
        ||| dot(dx, dy, #[trigger] points[i]) < dot(dx, dy, f)
        ||| (dot(dx, dy, points[i]) == dot(dx, dy, f) && !lex_less(points[i], f))
    } by {
        lemma_cross_is_height(points[i], a, b);
        if cross(points[i], a, b) == cross(f, a, b) {
            assert(is_candidate(points[i], a, b, s));
        }
    }
    lemma_highest_is_vertex(points, dx, dy, f);
}

/// Some point is highest among the first `n`, and first by `x`, then by `y`,
/// among those of that height.
pub proof fn lemma_highest_exists(points: Seq<Point>, dx: int, dy: int, n: int) -> (f: Point)
    requires
        0 < n <= points.len(),
    ensures
        is_highest(points.take(n), dx, dy, f),
    decreases n,
{
    let last = points[n - 1];
    assert(points.take(n)[n - 1] == last);
    if n == 1 {
        last
    } else {
        let f = lemma_highest_exists(points, dx, dy, n - 1);
        let before = points.take(n - 1);
        let i = choose|i: int| 0 <= i < before.len() && before[i] == f;
        assert(points.take(n)[i] == f);
        let higher = dot(dx, dy, last) > dot(dx, dy, f) || (dot(dx, dy, last) == dot(dx, dy, f)
            && lex_less(last, f));
        let g = if higher {
            last
        } else {
            f
        };
        assert forall|k: int| 0 <= k < n implies {
            ||| dot(dx, dy, #[trigger] points.take(n)[k]) < dot(dx, dy, g)
            ||| (dot(dx, dy, points.take(n)[k]) == dot(dx, dy, g) && !lex_less(
                points.take(n)[k],
                g,
            ))
        } by {
            if k < n - 1 {
                assert(points.take(n)[k] == before[k]);
            }
        }
        g
    }
}

/// A subproblem whose candidates are among those of another, and miss one of
/// them, has fewer candidates.
pub proof fn lemma_outside_shrinks(
    points: Seq<Point>,
    a: Point,
    b: Point,
    s: int,
    a2: Point,
    b2: Point,
    s2: int,
    j: int,
)
    requires
        forall|i: int|
            0 <= i < points.len() && is_candidate(#[trigger] points[i], a2, b2, s2)
                ==> is_candidate(points[i], a, b, s),
        0 <= j < points.len(),
        is_candidate(points[j], a, b, s),
        !is_candidate(points[j], a2, b2, s2),
    ensures
        outside(points, a2, b2, s2).len() < outside(points, a, b, s).len(),
{
    let all = vstd::set_lib::set_int_range(0, points.len() as int);
    let big = outside(points, a, b, s);
    let small = outside(points, a2, b2, s2);
    vstd::set_lib::lemma_int_range(0, points.len() as int);
    assert(big.subset_of(all));
    vstd::set_lib::lemma_len_subset(big, all);
    assert(big.contains(j));
    assert(small.subset_of(big.remove(j)));
    vstd::set_lib::lemma_len_subset(small, big.remove(j));
}

} // verus!
