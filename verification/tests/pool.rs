use behavior_tree::pool::{Handle, Pool};

#[test]
fn spawn_and_borrow() {
    let mut pool: Pool<i32> = Pool::new();
    let a = pool.spawn(10);
    let b = pool.spawn(20);
    assert_eq!(pool.try_borrow(a), Some(&10));
    assert_eq!(pool.try_borrow(b), Some(&20));
    assert!(pool.is_valid(a));
    assert!(a.is_some());
    assert_ne!(a, b);
}

#[test]
fn null_handle_is_absent() {
    let mut pool: Pool<i32> = Pool::new();
    let _ = pool.spawn(10);
    let null = Handle::none();
    assert!(null.is_none());
    assert!(pool.try_borrow(null).is_none());
    assert!(!pool.is_valid(null));
}

#[test]
fn free_returns_the_value_once() {
    let mut pool: Pool<i32> = Pool::new();
    let a = pool.spawn(10);
    assert_eq!(pool.free(a), Some(10));
    assert_eq!(pool.free(a), None);
    assert!(pool.try_borrow(a).is_none());
}

#[test]
fn stale_handle_after_reuse_is_absent() {
    let mut pool: Pool<i32> = Pool::new();
    let first = pool.spawn(10);
    assert_eq!(pool.free(first), Some(10));

    // The slot is recycled under a new generation.
    let second = pool.spawn(20);
    assert_eq!(first.index(), second.index());
    assert_ne!(first.generation(), second.generation());

    // The stale handle reports absence, never the new occupant.
    assert!(pool.try_borrow(first).is_none());
    assert!(!pool.is_valid(first));
    assert_eq!(pool.try_borrow(second), Some(&20));
}

#[test]
fn borrow_mut_updates_in_place() {
    let mut pool: Pool<i32> = Pool::new();
    let a = pool.spawn(10);
    if let Some(v) = pool.try_borrow_mut(a) {
        *v = 11;
    } else {
        panic!("live handle must be borrowable");
    }
    assert_eq!(pool.try_borrow(a), Some(&11));
    let stale = Handle::none();
    assert!(pool.try_borrow_mut(stale).is_none());
}

#[test]
fn replace_swaps_the_occupant() {
    let mut pool: Pool<i32> = Pool::new();
    let a = pool.spawn(10);
    assert_eq!(pool.replace(a, 99), 10);
    assert_eq!(pool.try_borrow(a), Some(&99));
}
