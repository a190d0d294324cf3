use cyber_ytdl::guard::TaskGuard;

#[test]
fn fresh_guard_acquires() {
    let mut g = TaskGuard::new();
    assert!(!g.peek());
    assert!(g.try_acquire());
    assert!(g.peek());
}

#[test]
fn second_acquire_while_held_fails() {
    let mut g = TaskGuard::new();
    assert!(g.try_acquire());
    assert!(!g.try_acquire());
    assert!(g.peek());
}

#[test]
fn release_reopens_the_slot() {
    let mut g = TaskGuard::new();
    assert!(g.try_acquire());
    assert!(!g.try_acquire());
    g.release();
    assert!(!g.peek());
    assert!(g.try_acquire());
}

#[test]
fn release_without_holding_is_harmless() {
    let mut g = TaskGuard::new();
    g.release();
    assert!(!g.peek());
    assert!(g.try_acquire());
}
