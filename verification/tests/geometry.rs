use quickhull::geometry::{distance_from_line, side};
use quickhull::point::Point;

fn pt(x: isize, y: isize) -> Point {
    Point { x, y }
}

#[test]
fn side_is_left_right_or_on() {
    let (a, b) = (pt(0, 0), pt(10, 0));
    assert_eq!(side(&pt(5, 3), &a, &b), 1);
    assert_eq!(side(&pt(5, -3), &a, &b), -1);
    assert_eq!(side(&pt(5, 0), &a, &b), 0);
    assert_eq!(side(&pt(-7, 0), &a, &b), 0);
    assert_eq!(side(&pt(25, 0), &a, &b), 0);
}

#[test]
fn side_turns_with_the_direction() {
    let (a, b) = (pt(1, 1), pt(4, 5));
    for p in [pt(0, 3), pt(3, 0), pt(7, 9), pt(-2, -3), pt(2, 2)] {
        assert_eq!(side(&p, &a, &b), -side(&p, &b, &a));
    }
    assert_eq!(side(&pt(0, 3), &a, &b), 1);
    assert_eq!(side(&pt(3, 0), &a, &b), -1);
    assert_eq!(side(&pt(7, 9), &a, &b), 0);
}

#[test]
fn side_of_the_ends_and_of_a_line_without_length() {
    let (a, b) = (pt(-3, 8), pt(12, -1));
    assert_eq!(side(&a, &a, &b), 0);
    assert_eq!(side(&b, &a, &b), 0);
    assert_eq!(side(&pt(5, 5), &a, &a), 0);
}

#[test]
fn side_is_exact_at_the_limits() {
    let (lo, hi) = (isize::MIN, isize::MAX);
    // The products here need 128 bits each, without room for a sign.
    assert_eq!(side(&pt(lo, hi), &pt(lo, lo), &pt(hi, hi)), 1);
    assert_eq!(side(&pt(hi, lo), &pt(lo, lo), &pt(hi, hi)), -1);
    assert_eq!(side(&pt(0, 0), &pt(lo, lo), &pt(hi, hi)), 0);
    assert_eq!(side(&pt(-1, -1), &pt(lo, lo), &pt(hi, hi)), 0);
    assert_eq!(side(&pt(0, 1), &pt(lo, lo), &pt(hi, hi)), 1);
    assert_eq!(side(&pt(1, 0), &pt(lo, lo), &pt(hi, hi)), -1);
    assert_eq!(side(&pt(hi, hi), &pt(lo, hi), &pt(hi, lo)), 1);
    assert_eq!(side(&pt(lo, lo), &pt(lo, hi), &pt(hi, lo)), -1);
    assert_eq!(side(&pt(hi, hi - 1), &pt(lo, lo), &pt(hi, hi)), -1);
    assert_eq!(side(&pt(hi - 1, hi), &pt(lo, lo), &pt(hi, hi)), 1);
    // Both products are large and of one sign; they differ by one.
    assert_eq!(side(&pt(hi, hi - 1), &pt(lo, lo), &pt(hi - 1, hi)), -1);
    assert_eq!(side(&pt(hi - 1, hi), &pt(lo, lo), &pt(hi, hi - 1)), 1);
}

#[test]
fn distance_is_the_size_of_the_cross_product() {
    let (a, b) = (pt(0, 0), pt(10, 0));
    assert_eq!(distance_from_line(&pt(5, 3), &a, &b), 30);
    assert_eq!(distance_from_line(&pt(5, -3), &a, &b), 30);
    assert_eq!(distance_from_line(&pt(5, 0), &a, &b), 0);
    // (3 - 1) * (4 - 1) - (5 - 1) * (0 - 1) = 10
    assert_eq!(distance_from_line(&pt(0, 3), &pt(1, 1), &pt(4, 5)), 10);
    // (0 - 1) * (4 - 1) - (5 - 1) * (3 - 1) = -11
    assert_eq!(distance_from_line(&pt(3, 0), &pt(1, 1), &pt(4, 5)), 11);
    assert_eq!(distance_from_line(&pt(3, 0), &pt(4, 5), &pt(1, 1)), 11);
}

#[test]
fn distance_grows_with_the_true_distance() {
    let (a, b) = (pt(-4, -4), pt(6, 1));
    let near = distance_from_line(&pt(0, 0), &a, &b);
    let far = distance_from_line(&pt(0, 5), &a, &b);
    let farther = distance_from_line(&pt(-2, 9), &a, &b);
    assert!(near < far && far < farther);
    // Along a parallel of the line the distance stays.
    assert_eq!(distance_from_line(&pt(10, 10), &a, &b), distance_from_line(&pt(0, 5), &a, &b));
}

#[test]
fn distance_is_exact_at_the_limits() {
    let (lo, hi) = (isize::MIN, isize::MAX);
    let width = (hi as i128 - lo as i128) as u128;
    // One step off a diagonal of the whole plane.
    assert_eq!(distance_from_line(&pt(0, 1), &pt(lo, lo), &pt(hi, hi)), width);
    assert_eq!(distance_from_line(&pt(1, 0), &pt(lo, lo), &pt(hi, hi)), width);
    // The far corners: the square of the width, the largest value there is.
    assert_eq!(distance_from_line(&pt(lo, hi), &pt(lo, lo), &pt(hi, hi)), width * width);
    assert_eq!(distance_from_line(&pt(hi, lo), &pt(lo, lo), &pt(hi, hi)), width * width);
    assert_eq!(distance_from_line(&pt(hi, hi), &pt(lo, hi), &pt(hi, lo)), width * width);
    assert_eq!(
        distance_from_line(&pt(lo, hi - 1), &pt(lo, lo), &pt(hi, hi)),
        width * width - width
    );
    // Two large products of opposite sign that add up.
    assert_eq!(
        distance_from_line(&pt(lo, hi), &pt(0, 0), &pt(hi, hi)),
        2 * (hi as u128) * (hi as u128) + hi as u128
    );
}

#[test]
fn points_order_by_x_then_y() {
    assert!(pt(1, 9).precedes(&pt(2, 0)));
    assert!(pt(1, 1).precedes(&pt(1, 2)));
    assert!(!pt(1, 2).precedes(&pt(1, 2)));
    assert!(!pt(2, 0).precedes(&pt(1, 9)));
    assert!(!pt(1, 2).precedes(&pt(1, 1)));
}
