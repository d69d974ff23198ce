use rox::pool::MemoryPool;

#[test]
fn test_pool_acquire_release() {
    let mut pool = MemoryPool::new(4, 1024);
    assert_eq!(pool.available(), 4);

    let buf1 = pool.acquire().unwrap();
    assert_eq!(pool.available(), 3);

    pool.release(buf1);
    assert_eq!(pool.available(), 4);
}

#[test]
fn test_pool_exhaustion() {
    let mut pool = MemoryPool::new(2, 256);

    let _b1 = pool.acquire().unwrap();
    let _b2 = pool.acquire().unwrap();
    assert!(pool.acquire().is_none());
}

#[test]
fn test_pooled_buffer_write() {
    let mut pool = MemoryPool::new(1, 1024);
    let mut buf = pool.acquire().unwrap();
    buf.clear();

    let written = buf.write(&[1, 2, 3, 4, 5]);
    assert_eq!(written, 5);
    assert_eq!(buf.len(), 5);
}

#[test]
fn test_pooled_buffer_freeze() {
    let mut pool = MemoryPool::new(2, 256);
    let mut buf = pool.acquire().unwrap();
    buf.clear();
    buf.write(b"hello");

    let bytes = buf.freeze();
    assert_eq!(bytes.as_ref(), b"hello");
    // Pool should have 1 remaining (not returned)
    assert_eq!(pool.available(), 1);
}

#[test]
fn full_pool_and_spare_capacity() {
    let mut pool = MemoryPool::new(1, 4);
    assert_eq!(pool.capacity(), 1);
    assert_eq!(pool.buffer_size(), 4);
    let mut a = pool.acquire().unwrap();
    // A fresh buffer is full of zeros: nothing more fits.
    assert_eq!(a.len(), 4);
    assert_eq!(a.write(&[1]), 0);
    a.clear();
    assert!(a.is_empty());
    assert_eq!(a.write(&[1, 2, 3, 4, 5, 6]), 4);
    assert_eq!(a.as_ref().as_ref(), &[1, 2, 3, 4]);
    a.as_mut().clear();
    assert!(a.is_empty());
    pool.release(a);
    assert_eq!(pool.available(), 1);
    // Releasing into a full pool keeps it at its capacity.
    let extra = MemoryPool::new(1, 4).acquire().unwrap();
    pool.release(extra);
    assert_eq!(pool.available(), 1);
    let mut b = pool.acquire().unwrap();
    assert!(b.is_empty());
    assert_eq!(b.write(&[7; 10]), 4);
}
