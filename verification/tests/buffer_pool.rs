use uturn::buffer_pool::{BufferPool, DEFAULT_POOL_CAPACITY, MAX_PACKET_SIZE};

#[test]
fn test_buffer_pool_reuse() {
    let mut pool = BufferPool::new();

    // Get a buffer, write to it, give it back
    {
        let mut buf = pool.get();
        buf.as_mut_slice()[0] = 42;
        pool.put_back(buf);
    }

    // Get another buffer - should reuse
    let buf2 = pool.get();
    assert_eq!(buf2.capacity(), MAX_PACKET_SIZE);
}

#[test]
fn test_buffer_pool_capacity_limit() {
    let mut pool = BufferPool::with_capacity(2);

    // Get 3 buffers
    let buf1 = pool.get();
    let buf2 = pool.get();
    let buf3 = pool.get();

    // Give all back - only 2 should be kept
    pool.put_back(buf1);
    pool.put_back(buf2);
    pool.put_back(buf3);

    assert_eq!(pool.pooled(), 2);
}

#[test]
fn test_preallocate() {
    let mut pool = BufferPool::with_capacity(10);
    pool.preallocate(5);

    assert_eq!(pool.pooled(), 5);
}

#[test]
fn preallocation_stops_at_the_capacity() {
    let mut pool = BufferPool::with_capacity(3);
    pool.preallocate(10);
    assert_eq!(pool.pooled(), 3);
    let buf = pool.get();
    assert_eq!(pool.pooled(), 2);
    assert_eq!(buf.as_slice(MAX_PACKET_SIZE).len(), MAX_PACKET_SIZE);
    assert_eq!(buf.as_slice(4).len(), 4);
}

#[test]
fn default_pool_keeps_the_default_number() {
    let mut pool = BufferPool::default();
    assert_eq!(pool.pooled(), 0);
    pool.preallocate(DEFAULT_POOL_CAPACITY + 1);
    assert_eq!(pool.pooled(), DEFAULT_POOL_CAPACITY);
}
