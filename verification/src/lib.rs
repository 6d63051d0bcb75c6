//! Convex hulls of finite sets of integer points in the plane.
//!
//! [`hull::quick_hull`] returns the vertices of the convex hull of a slice of
//! points, as a set of references into the slice. It works by quickhull: the
//! first and the last point (by `x`, then by `y`) span a line; on each side of
//! it the furthest point is a vertex and splits the side in two, and so on
//! until a line has nothing beyond it. The two halves of every split are
//! independent, and a [`joiner::Joiner`] runs them: on a pool of worker threads
//! or one after the other.
//!
//! Everything is exact for all `isize` coordinates, and proved:
//!
//! - [`geometry`] has the orientation test and the distance from a line;
//! - [`convexity`] says what a hull vertex is and proves the plane geometry
//!   that the recursion rests on;
//! - [`hull`] has the recursion, with the contract that the result is the set
//!   of hull vertices, no more and no less;
//! - [`laws`] states what follows for all inputs: the hull depends only on
//!   which points there are, and not on the strategy;
//! - [`mixture`] proves that the hull vertices are the extreme points: the
//!   input points that are no weighted mean of others;
//! - [`point_set`] is the set type of the results.

pub mod convexity;
pub mod geometry;
pub mod hull;
pub mod joiner;
pub mod laws;
pub mod mixture;
pub mod point;
pub mod point_set;
