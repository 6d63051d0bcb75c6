//! How the two halves of a split are run: side by side or one after the other.

use vstd::prelude::*;

verus! {

/// A way to run two independent computations and hand back both results.
///
/// An implementation calls each operation once and changes neither result, so
/// whatever the operations promise of their results holds of the pair.
pub trait Joiner {
    /// Whether this strategy may run the two operations at the same time.
    spec fn parallel() -> bool;

    /// Tells whether this strategy may run the two operations at the same time.
    fn is_parallel() -> (b: bool)
        ensures
            b == Self::parallel(),
    ;

    /// Runs both operations and returns their results, first one first.
    fn join<A, RA, B, RB>(oper_a: A, oper_b: B) -> (r: (RA, RB)) where
        A: FnOnce() -> RA + Send,
        B: FnOnce() -> RB + Send,
        RA: Send,
        RB: Send,

        requires
            oper_a.requires(()),
            oper_b.requires(()),
        ensures
            oper_a.ensures((), r.0),
            oper_b.ensures((), r.1),
    ;
}

/// Fork-join on the shared worker pool: both operations are handed to the pool
/// and the caller waits until both are done.
pub struct Parallel;

/// The first operation, then the second, on the calling thread.
pub struct Sequential;

/// `rayon::join` on the two operations. Trusted: `rayon::join` runs each
/// closure exactly once, possibly on different threads, returns only when both
/// have finished, and gives back their results unchanged and in order; so each
/// result is one that its closure can return. It panics only where a closure
/// panics, or where the worker pool cannot be started, which no argument
/// decides.
#[verifier::external_body]
fn fork_join<A, B, RA, RB>(oper_a: A, oper_b: B) -> (r: (RA, RB)) where
    A: FnOnce() -> RA + Send,
    B: FnOnce() -> RB + Send,
    RA: Send,
    RB: Send,

    requires
        oper_a.requires(()),
        oper_b.requires(()),
    ensures
        oper_a.ensures((), r.0),
        oper_b.ensures((), r.1),
{
    rayon::join(oper_a, oper_b)
}

impl Joiner for Parallel {
    open spec fn parallel() -> bool {
        true
    }

    #[inline]
    fn is_parallel() -> (b: bool) {
        true
    }

    #[inline]
    fn join<A, RA, B, RB>(oper_a: A, oper_b: B) -> (r: (RA, RB)) where
        A: FnOnce() -> RA + Send,
        B: FnOnce() -> RB + Send,
        RA: Send,
        RB: Send,
     {
        fork_join(oper_a, oper_b)
    }
}

impl Joiner for Sequential {
    open spec fn parallel() -> bool {
        false
    }

    #[inline]
    fn is_parallel() -> (b: bool) {
        false
    }

    #[inline]
    fn join<A, RA, B, RB>(oper_a: A, oper_b: B) -> (r: (RA, RB)) where
        A: FnOnce() -> RA + Send,
        B: FnOnce() -> RB + Send,
        RA: Send,
        RB: Send,
     {
        let a = oper_a();
        let b = oper_b();
        (a, b)
    }
}

} // verus!
