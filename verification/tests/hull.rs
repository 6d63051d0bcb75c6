use quickhull::hull::{_quick_hull, furthest, lex_max, lex_min, quick_hull, SEQUENTIAL_THRESHOLD};
use quickhull::joiner::{Parallel, Sequential};
use quickhull::point::Point;
use quickhull::point_set::PointSet;

fn pt(x: isize, y: isize) -> Point {
    Point { x, y }
}

fn sorted(hull: &PointSet) -> Vec<(isize, isize)> {
    let mut v: Vec<(isize, isize)> = hull.to_vec().iter().map(|p| (p.x, p.y)).collect();
    v.sort();
    v
}

fn hull_of(points: &[Point]) -> Vec<(isize, isize)> {
    sorted(&quick_hull(points))
}

/// A small deterministic generator, so that runs repeat.
struct Lcg(u64);

impl Lcg {
    fn next(&mut self) -> u64 {
        self.0 = self.0.wrapping_mul(6364136223846793005).wrapping_add(1442695040888963407);
        self.0 >> 33
    }

    fn below(&mut self, n: u64) -> u64 {
        self.next() % n
    }

    fn point(&mut self, span: u64) -> Point {
        let x = self.below(span) as isize - (span / 2) as isize;
        let y = self.below(span) as isize - (span / 2) as isize;
        pt(x, y)
    }
}

fn turn(o: (isize, isize), a: (isize, isize), b: (isize, isize)) -> i128 {
    (a.0 as i128 - o.0 as i128) * (b.1 as i128 - o.1 as i128)
        - (a.1 as i128 - o.1 as i128) * (b.0 as i128 - o.0 as i128)
}

/// The hull vertices by the monotone chain method, without points inside edges.
fn chain_hull(points: &[Point]) -> Vec<(isize, isize)> {
    let mut p: Vec<(isize, isize)> = points.iter().map(|q| (q.x, q.y)).collect();
    p.sort();
    p.dedup();
    if p.len() < 3 {
        return p;
    }
    let mut lower: Vec<(isize, isize)> = Vec::new();
    for &q in p.iter() {
        while lower.len() >= 2 && turn(lower[lower.len() - 2], lower[lower.len() - 1], q) <= 0 {
            lower.pop();
        }
        lower.push(q);
    }
    let mut upper: Vec<(isize, isize)> = Vec::new();
    for &q in p.iter().rev() {
        while upper.len() >= 2 && turn(upper[upper.len() - 2], upper[upper.len() - 1], q) <= 0 {
            upper.pop();
        }
        upper.push(q);
    }
    lower.pop();
    upper.pop();
    lower.extend(upper);
    lower.sort();
    lower.dedup();
    lower
}

/// Whether `v` is strictly above every other point in some direction, tried
/// over all directions with small components.
fn is_corner(points: &[Point], v: &Point, reach: i128) -> bool {
    for dx in -reach..=reach {
        for dy in -reach..=reach {
            let top = dx * v.x as i128 + dy * v.y as i128;
            if points.iter().all(|q| q == v || dx * (q.x as i128) + dy * (q.y as i128) < top) {
                return true;
            }
        }
    }
    false
}

#[test]
fn it_works() {
    let points = vec![
        Point { x: 1, y: 1 },
        Point { x: 0, y: 0 },
        Point { x: 2, y: 0 },
        Point { x: 1, y: -1 },
        Point { x: 1, y: 0 },
    ];
    let hull = quick_hull(&points[..]);
    assert!(!hull.contains(&Point { x: 1, y: 0 }));
}

#[test]
fn diamond_keeps_its_four_corners() {
    let points = vec![pt(1, 1), pt(0, 0), pt(2, 0), pt(1, -1), pt(1, 0)];
    let hull = quick_hull(&points);
    assert_eq!(hull.len(), 4);
    assert!(hull.contains(&pt(1, 1)));
    assert!(hull.contains(&pt(0, 0)));
    assert!(hull.contains(&pt(2, 0)));
    assert!(hull.contains(&pt(1, -1)));
    assert!(!hull.contains(&pt(1, 0)));
}

#[test]
fn square_with_centre_gives_the_corners() {
    let points = vec![pt(0, 0), pt(0, 10), pt(10, 0), pt(10, 10), pt(5, 5)];
    assert_eq!(hull_of(&points), vec![(0, 0), (0, 10), (10, 0), (10, 10)]);
}

#[test]
fn point_inside_an_edge_is_left_out() {
    let points = vec![pt(0, 0), pt(4, 0), pt(0, 4), pt(2, 2)];
    assert_eq!(hull_of(&points), vec![(0, 0), (0, 4), (4, 0)]);
    let points = vec![pt(0, 0), pt(2, 0), pt(4, 0), pt(0, 4)];
    assert_eq!(hull_of(&points), vec![(0, 0), (0, 4), (4, 0)]);
    let points = vec![pt(0, 2), pt(0, 0), pt(4, 0), pt(0, 4)];
    assert_eq!(hull_of(&points), vec![(0, 0), (0, 4), (4, 0)]);
}

#[test]
fn points_inside_every_edge_of_a_square_are_left_out() {
    let mut points = Vec::new();
    for i in 0..=6 {
        points.push(pt(i, 0));
        points.push(pt(i, 6));
        points.push(pt(0, i));
        points.push(pt(6, i));
    }
    assert_eq!(hull_of(&points), vec![(0, 0), (0, 6), (6, 0), (6, 6)]);
}

#[test]
fn no_points_give_no_hull() {
    let points: Vec<Point> = Vec::new();
    let hull = quick_hull(&points);
    assert!(hull.is_empty());
    assert_eq!(hull.len(), 0);
}

#[test]
fn one_point_is_its_own_hull() {
    let points = vec![pt(3, -7)];
    assert_eq!(hull_of(&points), vec![(3, -7)]);
}

#[test]
fn two_points_are_both_on_the_hull() {
    assert_eq!(hull_of(&[pt(3, -7), pt(-2, 5)]), vec![(-2, 5), (3, -7)]);
    assert_eq!(hull_of(&[pt(1, 1), pt(1, 2)]), vec![(1, 1), (1, 2)]);
}

#[test]
fn identical_points_give_one_vertex() {
    assert_eq!(hull_of(&[pt(4, 4), pt(4, 4)]), vec![(4, 4)]);
    assert_eq!(hull_of(&[pt(-1, 9), pt(-1, 9), pt(-1, 9), pt(-1, 9)]), vec![(-1, 9)]);
}

#[test]
fn collinear_points_give_the_two_ends() {
    // On a horizontal, a vertical and two slanted lines, in mixed order.
    assert_eq!(hull_of(&[pt(3, 1), pt(0, 1), pt(7, 1), pt(5, 1)]), vec![(0, 1), (7, 1)]);
    assert_eq!(hull_of(&[pt(0, 0), pt(0, 5), pt(0, 2)]), vec![(0, 0), (0, 5)]);
    assert_eq!(hull_of(&[pt(2, 2), pt(0, 0), pt(3, 3), pt(1, 1)]), vec![(0, 0), (3, 3)]);
    assert_eq!(hull_of(&[pt(2, -4), pt(0, 0), pt(3, -6), pt(1, -2)]), vec![(0, 0), (3, -6)]);
}

#[test]
fn repeated_points_count_once() {
    let points = vec![pt(0, 0), pt(4, 0), pt(0, 0), pt(0, 4), pt(4, 0), pt(1, 1), pt(0, 4)];
    let hull = quick_hull(&points);
    assert_eq!(hull.len(), 3);
    assert_eq!(sorted(&hull), vec![(0, 0), (0, 4), (4, 0)]);
}

#[test]
fn hull_holds_references_into_the_input() {
    let points = vec![pt(0, 0), pt(4, 0), pt(0, 4), pt(1, 1)];
    let hull = quick_hull(&points);
    for p in hull.to_vec() {
        assert!(points.iter().any(|q| std::ptr::eq(p, q)));
    }
}

#[test]
fn shuffling_the_input_keeps_the_hull() {
    let mut rng = Lcg(7);
    for round in 0..40 {
        let n = 1 + rng.below(60) as usize;
        let span = if round % 2 == 0 { 8 } else { 1000 };
        let mut points: Vec<Point> = (0..n).map(|_| rng.point(span)).collect();
        let expected = hull_of(&points);
        for _ in 0..5 {
            for i in (1..points.len()).rev() {
                let j = rng.below(i as u64 + 1) as usize;
                points.swap(i, j);
            }
            assert_eq!(hull_of(&points), expected);
        }
        points.reverse();
        assert_eq!(hull_of(&points), expected);
    }
}

#[test]
fn agrees_with_the_monotone_chain() {
    let mut rng = Lcg(2024);
    for round in 0..300 {
        let n = rng.below(40) as usize;
        // Narrow spans force equal points and points on common lines.
        let span = [3, 5, 9, 50, 100_000][round % 5];
        let points: Vec<Point> = (0..n).map(|_| rng.point(span)).collect();
        assert_eq!(hull_of(&points), chain_hull(&points), "points: {:?}", points);
    }
}

#[test]
fn returns_exactly_the_corners() {
    let mut rng = Lcg(99);
    for _ in 0..60 {
        let n = 1 + rng.below(12) as usize;
        let points: Vec<Point> = (0..n).map(|_| rng.point(5)).collect();
        let hull = quick_hull(&points);
        for p in points.iter() {
            // With coordinates within two of the origin, directions with
            // components up to ten tell every corner apart.
            assert_eq!(hull.contains(p), is_corner(&points, p, 10), "{:?} in {:?}", p, points);
        }
    }
}

#[test]
fn every_point_is_within_the_hull() {
    let mut rng = Lcg(5);
    for _ in 0..50 {
        let n = 1 + rng.below(50) as usize;
        let points: Vec<Point> = (0..n).map(|_| rng.point(200)).collect();
        let hull = quick_hull(&points).to_vec();
        for (dx, dy) in [(1i128, 0i128), (0, 1), (-1, 0), (0, -1), (3, 7), (-5, 2), (4, -9), (-1, -1)] {
            let height = |p: &Point| dx * p.x as i128 + dy * p.y as i128;
            let top = hull.iter().map(|p| height(p)).max().unwrap();
            assert!(points.iter().all(|p| height(p) <= top));
        }
    }
}

#[test]
fn strategies_agree_on_small_inputs() {
    let mut rng = Lcg(11);
    for _ in 0..30 {
        let n = 1 + rng.below(80) as usize;
        let points: Vec<Point> = (0..n).map(|_| rng.point(40)).collect();
        let lo = lex_min(&points).unwrap();
        let hi = lex_max(&points).unwrap();
        for s in [1i8, -1i8] {
            let par = _quick_hull::<Parallel>(&points, lo, hi, s);
            let seq = _quick_hull::<Sequential>(&points, lo, hi, s);
            assert_eq!(sorted(&par), sorted(&seq));
        }
    }
}

#[test]
fn strategies_agree_above_the_threshold() {
    let mut rng = Lcg(3);
    let n = 2 * SEQUENTIAL_THRESHOLD + 2000;
    let points: Vec<Point> = (0..n).map(|_| rng.point(1_000_000)).collect();
    let lo = lex_min(&points).unwrap();
    let hi = lex_max(&points).unwrap();
    let mut whole = PointSet::new();
    for s in [1i8, -1i8] {
        let par = _quick_hull::<Parallel>(&points, lo, hi, s);
        let seq = _quick_hull::<Sequential>(&points, lo, hi, s);
        assert_eq!(sorted(&par), sorted(&seq));
        whole = whole.union(&par);
    }
    assert_eq!(sorted(&whole), hull_of(&points));
    assert_eq!(hull_of(&points), chain_hull(&points));
}

#[test]
fn points_on_a_parabola_are_all_corners() {
    // Points on a parabola are all corners: the recursion goes deep.
    let points: Vec<Point> = (-300..=300).map(|i: isize| pt(i, i * i)).collect();
    let hull = quick_hull(&points);
    assert_eq!(hull.len(), points.len());
    assert_eq!(sorted(&hull), chain_hull(&points));
}

#[test]
fn a_large_hull_above_the_threshold() {
    let half = SEQUENTIAL_THRESHOLD as isize / 2 + 500;
    let points: Vec<Point> = (-half..=half).map(|i: isize| pt(i, i * i)).collect();
    assert!(points.len() > SEQUENTIAL_THRESHOLD);
    let hull = quick_hull(&points);
    assert_eq!(hull.len(), points.len());
    assert!(points.iter().all(|p| hull.contains(p)));
}

#[test]
fn threshold_is_five_times_1024() {
    assert_eq!(SEQUENTIAL_THRESHOLD, 5120);
}

#[test]
fn coordinates_at_the_limits_are_exact() {
    let (lo, hi) = (isize::MIN, isize::MAX);
    let points = vec![
        pt(lo, lo),
        pt(hi, lo),
        pt(hi, hi),
        pt(lo, hi),
        pt(0, 0),
        pt(hi, 0),
        pt(-1, lo),
        pt(hi - 1, hi - 1),
        pt(lo + 1, hi - 1),
    ];
    assert_eq!(hull_of(&points), vec![(lo, lo), (lo, hi), (hi, lo), (hi, hi)]);
    // A point one step outside a long slanted edge is a corner, one step
    // inside is not.
    let points = vec![pt(lo, lo), pt(hi, hi), pt(0, 1), pt(hi, lo)];
    assert_eq!(hull_of(&points), vec![(lo, lo), (0, 1), (hi, lo), (hi, hi)]);
    let points = vec![pt(lo, lo), pt(hi, hi), pt(1, 0), pt(hi, lo)];
    assert_eq!(hull_of(&points), vec![(lo, lo), (hi, lo), (hi, hi)]);
}

#[test]
fn first_and_last_point_in_reading_order() {
    let points = vec![pt(0, 5), pt(3, 1), pt(0, -5), pt(3, 9), pt(0, 0), pt(3, 9)];
    assert_eq!(lex_min(&points), Some(&pt(0, -5)));
    assert_eq!(lex_max(&points), Some(&pt(3, 9)));
    let none: Vec<Point> = Vec::new();
    assert_eq!(lex_min(&none), None);
    assert_eq!(lex_max(&none), None);
}

#[test]
fn furthest_picks_the_greatest_distance() {
    let points = vec![pt(0, 0), pt(10, 0), pt(3, 2), pt(5, 7), pt(6, -9), pt(8, 1)];
    let (a, b) = (pt(0, 0), pt(10, 0));
    assert_eq!(furthest(&points, &a, &b, 1), Some(&pt(5, 7)));
    assert_eq!(furthest(&points, &a, &b, -1), Some(&pt(6, -9)));
    assert_eq!(furthest(&points, &b, &a, 1), Some(&pt(6, -9)));
}

#[test]
fn furthest_breaks_ties_by_x_then_y() {
    let (a, b) = (pt(0, 0), pt(10, 0));
    let points = vec![pt(7, 4), pt(2, 4), pt(5, 4), pt(2, 3)];
    assert_eq!(furthest(&points, &a, &b, 1), Some(&pt(2, 4)));
    let points = vec![pt(2, 4), pt(7, 4), pt(5, 4)];
    assert_eq!(furthest(&points, &a, &b, 1), Some(&pt(2, 4)));
    // Against a vertical line the ties share their `x`: `y` decides.
    let (a, b) = (pt(0, 0), pt(0, 10));
    let points = vec![pt(-3, 8), pt(-3, 1), pt(-3, 5), pt(-1, 0)];
    assert_eq!(furthest(&points, &a, &b, 1), Some(&pt(-3, 1)));
}

#[test]
fn furthest_finds_nothing_without_candidates() {
    let (a, b) = (pt(0, 0), pt(10, 0));
    let points = vec![pt(0, 0), pt(10, 0), pt(4, 0), pt(5, -2)];
    assert_eq!(furthest(&points, &a, &b, 1), None);
    // Points on the line are at distance zero: never the furthest.
    assert_eq!(furthest(&points, &a, &b, 0), None);
    assert_eq!(furthest(&points, &a, &b, 2), None);
    assert_eq!(furthest(&[], &a, &b, 1), None);
}

#[test]
fn one_side_of_a_line() {
    let points = vec![pt(0, 0), pt(10, 0), pt(5, 5), pt(5, 1), pt(5, -5), pt(2, 4), pt(8, 4)];
    let left = _quick_hull::<Sequential>(&points, &points[0], &points[1], 1);
    assert_eq!(sorted(&left), vec![(0, 0), (2, 4), (5, 5), (8, 4), (10, 0)]);
    let right = _quick_hull::<Sequential>(&points, &points[0], &points[1], -1);
    assert_eq!(sorted(&right), vec![(0, 0), (5, -5), (10, 0)]);
}

#[test]
fn a_side_that_is_no_side_gives_the_two_ends() {
    let points = vec![pt(0, 0), pt(10, 0), pt(5, 5), pt(5, 0), pt(5, -5)];
    let on = _quick_hull::<Sequential>(&points, &points[0], &points[1], 0);
    assert_eq!(sorted(&on), vec![(0, 0), (10, 0)]);
    let odd = _quick_hull::<Parallel>(&points, &points[0], &points[1], 3);
    assert_eq!(sorted(&odd), vec![(0, 0), (10, 0)]);
}
