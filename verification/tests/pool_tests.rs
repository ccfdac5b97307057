use grweb::pool::{ConnectionPool, PoolStats};

#[test]
fn limited_pool_refuses_beyond_limit() {
    let mut p = ConnectionPool::new(2);
    assert!(p.try_acquire());
    assert!(p.try_acquire());
    assert!(!p.try_acquire());
    assert_eq!(
        p.stats(),
        PoolStats { active_connections: 2, total_connections: 2, rejected_connections: 1, max_connections: 2 }
    );
    p.release();
    assert!(p.try_acquire());
    let s = p.stats();
    assert_eq!((s.active_connections, s.total_connections, s.rejected_connections), (2, 3, 1));
}

#[test]
fn unlimited_pool_admits_everything() {
    let mut p = ConnectionPool::new(0);
    for _ in 0..100 {
        assert!(p.try_acquire());
    }
    let s = p.stats();
    assert_eq!((s.active_connections, s.total_connections, s.rejected_connections, s.max_connections), (100, 100, 0, 0));
}

#[test]
fn release_then_acquire_restores_count() {
    let mut p = ConnectionPool::new(1);
    assert!(p.try_acquire());
    p.release();
    assert_eq!(p.stats().active_connections, 0);
    assert!(p.try_acquire());
    assert_eq!(p.stats().active_connections, 1);
}

#[test]
fn counters_follow_a_run_of_calls() {
    let mut p = ConnectionPool::new(3);
    let mut admitted = 0u64;
    let mut refused = 0u64;
    let mut released = 0u64;
    for round in 0..20 {
        if round % 3 == 2 && admitted > released {
            p.release();
            released += 1;
        } else if p.try_acquire() {
            admitted += 1;
        } else {
            refused += 1;
        }
        let s = p.stats();
        assert_eq!(s, p.stats());
        assert_eq!(s.active_connections as u64, admitted - released);
        assert_eq!(s.total_connections, admitted);
        assert_eq!(s.rejected_connections, refused);
        assert!(s.active_connections <= 3);
    }
    assert!(refused > 0);
}
