use brink::depth_guard::{DepthCounter, DepthGuard};

#[test]
fn enter_increments_and_drop_decrements() {
    let mut counter = DepthCounter::new();
    {
        let guard = DepthGuard::enter(&mut counter, 10).unwrap();
        assert_eq!(guard.depth(), 1);
        assert_eq!(DepthGuard::current(&counter), 1);
        guard.exit(&mut counter);
    }
    assert_eq!(DepthGuard::current(&counter), 0);
}

#[test]
fn nested_depth_tracks_correctly() {
    let mut counter = DepthCounter::new();
    let g1 = DepthGuard::enter(&mut counter, 10).unwrap();
    assert_eq!(g1.depth(), 1);
    let g2 = DepthGuard::enter(&mut counter, 10).unwrap();
    assert_eq!(g2.depth(), 2);
    let g3 = DepthGuard::enter(&mut counter, 10).unwrap();
    assert_eq!(g3.depth(), 3);
    g3.exit(&mut counter);
    assert_eq!(DepthGuard::current(&counter), 2);
    g2.exit(&mut counter);
    assert_eq!(DepthGuard::current(&counter), 1);
    g1.exit(&mut counter);
    assert_eq!(DepthGuard::current(&counter), 0);
}

#[test]
fn enter_returns_none_at_limit() {
    let mut counter = DepthCounter::new();
    let _g1 = DepthGuard::enter(&mut counter, 2).unwrap();
    let _g2 = DepthGuard::enter(&mut counter, 2).unwrap();
    // depth is now 2, at limit -- next enter must fail
    assert!(DepthGuard::enter(&mut counter, 2).is_none());
    // counter must be unchanged after a failed enter
    assert_eq!(DepthGuard::current(&counter), 2);
}

#[test]
fn exit_decrements() {
    let mut counter = DepthCounter::new();
    let guard = DepthGuard::enter(&mut counter, 10).unwrap();
    assert_eq!(DepthGuard::current(&counter), 1);
    guard.exit(&mut counter);
    assert_eq!(DepthGuard::current(&counter), 0);
}

#[test]
fn limit_zero_rejects_immediately() {
    let mut counter = DepthCounter::new();
    assert!(DepthGuard::enter(&mut counter, 0).is_none());
    assert_eq!(DepthGuard::current(&counter), 0);
}

// Two independent stages drawing on the same counter.
fn lib_a(counter: &mut DepthCounter) -> Option<DepthGuard> {
    DepthGuard::enter(counter, 3)
}

fn lib_b(counter: &mut DepthCounter) -> Option<DepthGuard> {
    DepthGuard::enter(counter, 3)
}

#[test]
fn cross_library_depth_is_cumulative() {
    let mut counter = DepthCounter::new();
    let _a = lib_a(&mut counter).unwrap(); // depth 1
    let _b = lib_b(&mut counter).unwrap(); // depth 2
    let _c = lib_a(&mut counter).unwrap(); // depth 3
    assert!(lib_b(&mut counter).is_none()); // depth 4 > limit 3
    assert_eq!(DepthGuard::current(&counter), 3);
}

#[test]
fn depth_snapshot_matches_creation_depth() {
    let mut counter = DepthCounter::new();
    let g1 = DepthGuard::enter(&mut counter, 10).unwrap();
    let g2 = DepthGuard::enter(&mut counter, 10).unwrap();
    // Each guard remembers its own creation depth.
    assert_eq!(g1.depth(), 1);
    assert_eq!(g2.depth(), 2);
}

#[test]
fn enter_then_exit_restores_depth() {
    let mut counter = DepthCounter::new();
    let outer = DepthGuard::enter(&mut counter, 5).unwrap();
    let before = DepthGuard::current(&counter);
    let inner = DepthGuard::enter(&mut counter, 5).unwrap();
    inner.exit(&mut counter);
    assert_eq!(DepthGuard::current(&counter), before);
    outer.exit(&mut counter);
    assert_eq!(DepthGuard::current(&counter), 0);
}

#[test]
fn max_recursion_depth_is_two_hundred() {
    assert_eq!(brink::depth_guard::MAX_RECURSION_DEPTH, 200);
}
