use gitmirror::pool::ConnectionPool;

#[test]
fn test_pool_acquire_and_release() {
    let mut pool = ConnectionPool::new(3);
    assert_eq!(pool.read_conns.len(), 3);

    // Readers come from the pool front; an empty pool opens fresh handles.
    let a = pool.get_read_conn().unwrap();
    let b = pool.get_read_conn().unwrap();
    let c = pool.get_read_conn().unwrap();
    assert_eq!(pool.read_conns.len(), 0);
    let fresh = pool.get_read_conn().unwrap();
    assert!(fresh != a && fresh != b && fresh != c);
    // A read handle is never the shared write handle.
    for h in [a, b, c, fresh] {
        assert!(h != pool.get_write_conn());
    }

    // Releases refill the pool only up to its bound.
    pool.return_read_conn(a);
    pool.return_read_conn(b);
    pool.return_read_conn(c);
    assert_eq!(pool.read_conns.len(), 3);
    pool.return_read_conn(fresh);
    assert_eq!(pool.read_conns.len(), 3);
}

#[test]
fn test_pool_write_handle_is_shared() {
    let pool = ConnectionPool::new(2);
    assert_eq!(pool.get_write_conn(), pool.get_write_conn());
}
