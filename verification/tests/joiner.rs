use quickhull::joiner::{Joiner, Parallel, Sequential};
use std::sync::atomic::{AtomicUsize, Ordering};

fn run_both<J: Joiner>() -> (u64, String) {
    J::join(|| (1..=10u64).sum(), || String::from("second"))
}

#[test]
fn parallel_join_returns_both_results_in_order() {
    assert_eq!(run_both::<Parallel>(), (55, String::from("second")));
}

#[test]
fn sequential_join_returns_both_results_in_order() {
    assert_eq!(run_both::<Sequential>(), (55, String::from("second")));
}

#[test]
fn strategies_name_themselves() {
    assert!(Parallel::is_parallel());
    assert!(!Sequential::is_parallel());
}

#[test]
fn each_operation_runs_once() {
    let calls = AtomicUsize::new(0);
    let (a, b) = Parallel::join(
        || calls.fetch_add(1, Ordering::SeqCst),
        || calls.fetch_add(10, Ordering::SeqCst),
    );
    assert_eq!(calls.load(Ordering::SeqCst), 11);
    assert_eq!(a + b, if a == 0 { 1 } else { 10 });
    let (a, b) = Sequential::join(
        || calls.fetch_add(100, Ordering::SeqCst),
        || calls.fetch_add(1000, Ordering::SeqCst),
    );
    assert_eq!((a, b), (11, 111));
    assert_eq!(calls.load(Ordering::SeqCst), 1111);
}

#[test]
fn sequential_join_runs_the_first_operation_first() {
    let order = std::sync::Mutex::new(Vec::new());
    Sequential::join(|| order.lock().unwrap().push('a'), || order.lock().unwrap().push('b'));
    assert_eq!(*order.lock().unwrap(), vec!['a', 'b']);
}

#[test]
fn nested_parallel_joins() {
    fn count<J: Joiner>(depth: u32) -> u64 {
        if depth == 0 {
            1
        } else {
            let (a, b) = J::join(|| count::<J>(depth - 1), || count::<J>(depth - 1));
            a + b
        }
    }
    assert_eq!(count::<Parallel>(10), 1024);
    assert_eq!(count::<Sequential>(10), 1024);
}
