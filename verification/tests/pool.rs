use motion_capture_mk5::format::Resolution;
use motion_capture_mk5::pool::{AcquireError, BufferPool};

#[test]
fn new_pool_is_empty() {
    let pool = BufferPool::new(10);
    assert_eq!(pool.capacity(), 10);
    assert_eq!(pool.size(), 0);
    assert_eq!(pool.idle(), 0);
    assert_eq!(pool.shape(), Resolution { width: 0, height: 0 });
}

#[test]
fn acquire_allocates_black_buffer_of_requested_shape() {
    let mut pool = BufferPool::new(2);
    let buffer = pool.acquire(4, 3).unwrap();
    assert_eq!(buffer.width(), 4);
    assert_eq!(buffer.height(), 3);
    assert_eq!(buffer.as_raw().len(), 36);
    assert!(buffer.as_raw().iter().all(|b| *b == 0));
    assert_eq!(pool.size(), 1);
    assert_eq!(pool.shape(), Resolution { width: 4, height: 3 });
}

#[test]
fn new_buffers_get_identities_in_order() {
    let mut pool = BufferPool::new(3);
    let a = pool.acquire(1, 1).unwrap();
    let b = pool.acquire(1, 1).unwrap();
    let c = pool.acquire(1, 1).unwrap();
    assert_eq!((a.id(), b.id(), c.id()), (0, 1, 2));
}

#[test]
fn exhausted_pool_refuses_until_a_release() {
    let mut pool = BufferPool::new(10);
    let mut held = Vec::new();
    for _ in 0..10 {
        held.push(pool.acquire(8, 8).unwrap());
    }
    assert_eq!(pool.acquire(8, 8).unwrap_err(), AcquireError::Exhausted);
    let back = held.pop().unwrap();
    let id = back.id();
    assert!(pool.release(back));
    let again = pool.acquire(8, 8).unwrap();
    assert_eq!(again.id(), id);
    assert_eq!(pool.acquire(8, 8).unwrap_err(), AcquireError::Exhausted);
    assert_eq!(pool.size(), 10);
}

#[test]
fn pool_of_no_capacity_never_allocates() {
    let mut pool = BufferPool::new(0);
    assert_eq!(pool.acquire(2, 2).unwrap_err(), AcquireError::Exhausted);
    assert_eq!(pool.size(), 0);
}

#[test]
fn pool_never_grows_past_capacity() {
    let mut pool = BufferPool::new(3);
    let mut held = Vec::new();
    for round in 0..50 {
        match pool.acquire(2, 2) {
            Ok(buffer) => held.push(buffer),
            Err(e) => assert_eq!(e, AcquireError::Exhausted),
        }
        if round % 4 == 3 {
            if let Some(buffer) = held.pop() {
                assert!(pool.release(buffer));
            }
        }
        assert!(pool.size() <= 3);
    }
}

#[test]
fn released_buffers_are_reused_longest_idle_first() {
    let mut pool = BufferPool::new(3);
    let a = pool.acquire(1, 1).unwrap();
    let b = pool.acquire(1, 1).unwrap();
    let (ida, idb) = (a.id(), b.id());
    assert!(pool.release(b));
    assert!(pool.release(a));
    assert_eq!(pool.idle(), 2);
    assert_eq!(pool.acquire(1, 1).unwrap().id(), idb);
    assert_eq!(pool.acquire(1, 1).unwrap().id(), ida);
    assert_eq!(pool.idle(), 0);
}

#[test]
fn reused_buffer_keeps_what_was_written() {
    let mut pool = BufferPool::new(1);
    let mut buffer = pool.acquire(1, 1).unwrap();
    assert_eq!(buffer.write_frame(1, 1, &[10, 20, 30]), Ok(()));
    assert!(pool.release(buffer));
    let again = pool.acquire(1, 1).unwrap();
    assert_eq!(again.as_raw(), &[10u8, 20, 30][..]);
}

#[test]
fn unrepresentable_shape_is_refused() {
    let mut pool = BufferPool::new(4);
    assert_eq!(
        pool.acquire(u32::MAX, u32::MAX).unwrap_err(),
        AcquireError::Unrepresentable
    );
    assert_eq!(pool.size(), 0);
}

#[test]
fn reshape_discards_idle_buffers_and_forgets_lent_ones() {
    let mut pool = BufferPool::new(2);
    let old_held = pool.acquire(2, 2).unwrap();
    let old_idle = pool.acquire(2, 2).unwrap();
    assert!(pool.release(old_idle));
    assert_eq!(pool.size(), 2);
    pool.reshape(3, 3);
    assert_eq!(pool.size(), 0);
    assert_eq!(pool.shape(), Resolution { width: 3, height: 3 });
    // The buffer still out keeps its shape and does not come back.
    assert_eq!(old_held.resolution(), Resolution { width: 2, height: 2 });
    assert!(!pool.release(old_held));
    assert_eq!(pool.size(), 0);
}

#[test]
fn reshape_to_the_same_shape_changes_nothing() {
    let mut pool = BufferPool::new(2);
    let held = pool.acquire(2, 2).unwrap();
    pool.reshape(2, 2);
    assert_eq!(pool.size(), 1);
    assert!(pool.release(held));
    assert_eq!(pool.idle(), 1);
}

#[test]
fn acquire_of_a_new_shape_makes_new_buffers() {
    let mut pool = BufferPool::new(1);
    let small = pool.acquire(2, 2).unwrap();
    let small_id = small.id();
    let large = pool.acquire(4, 4).unwrap();
    assert_ne!(large.id(), small_id);
    assert_eq!(large.as_raw().len(), 48);
    assert_eq!(small.as_raw().len(), 12);
    assert!(!pool.release(small));
    assert!(pool.release(large));
}

#[test]
fn stale_buffer_is_refused_even_when_the_old_shape_returns() {
    let mut pool = BufferPool::new(2);
    let stale = pool.acquire(2, 2).unwrap();
    pool.reshape(3, 3);
    pool.reshape(2, 2);
    assert!(!pool.release(stale));
    assert_eq!(pool.size(), 0);
}

#[test]
fn a_buffer_is_taken_back_only_once() {
    let mut pool = BufferPool::new(2);
    let a = pool.acquire(1, 1).unwrap();
    assert!(pool.release(a));
    let a = pool.acquire(1, 1).unwrap();
    let other = {
        let mut elsewhere = BufferPool::new(2);
        elsewhere.acquire(1, 1).unwrap()
    };
    // Same identity and shape, but the pool has only one such buffer out.
    assert_eq!(other.id(), a.id());
    assert!(pool.release(a));
    assert!(!pool.release(other));
    assert_eq!(pool.size(), 1);
}

#[test]
fn reuse_or_allocate_works_at_the_pool_shape() {
    let mut pool = BufferPool::new(2);
    pool.reshape(3, 2);
    let first = pool.reuse_or_allocate().unwrap();
    assert_eq!(first.resolution(), Resolution { width: 3, height: 2 });
    assert_eq!(first.as_raw(), vec![0u8; 18].as_slice());
    let second = pool.reuse_or_allocate().unwrap();
    assert_eq!(pool.reuse_or_allocate().unwrap_err(), AcquireError::Exhausted);
    let id = second.id();
    assert!(pool.release(second));
    assert_eq!(pool.reuse_or_allocate().unwrap().id(), id);
    assert!(pool.release(first));
}
