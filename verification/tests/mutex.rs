use dt::atomics::mutex::{add_under_lock, Mutex};

#[test]
fn sequential_mutex_add() {
    // The sequential face of many threads incrementing under the lock:
    // one hundred rounds of one hundred locked increments lose nothing.
    let mut m = Mutex::new(0usize);
    for _ in 0..100 {
        add_under_lock(&mut m, 100);
    }
    let total = m.with_lock(|v| (v, v));
    assert_eq!(total, 10000);
}

#[test]
fn with_lock_applies_closure_and_returns_result() {
    let mut m = Mutex::new(20);
    let doubled = m.with_lock(|v| (v * 2, v * 2));
    assert_eq!(doubled, 40);
    let seen = m.with_lock(|v| (v, v));
    assert_eq!(seen, 40);
}

#[test]
fn try_acquire_wins_only_when_free() {
    let mut m = Mutex::new(5);
    let first = m.try_acquire();
    assert_eq!(first, Some(5));
    // The lock is now held: a second attempt loses.
    let second = m.try_acquire();
    assert!(second.is_none());
    m.release(7);
    // Released: the next attempt wins and sees the stored value.
    let third = m.try_acquire();
    assert_eq!(third, Some(7));
}
