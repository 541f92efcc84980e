use rubic_network::addr::SocketAddress;
use rubic_network::connection_pool::{
    Checkout, ConnectAttempt, ConnectionPool, PoolConfig, PooledConnection, CLEANUP_INTERVAL,
};
use rubic_network::error::NetworkError;
use rubic_network::time::{elapsed, NANOS_PER_SEC};

fn at(last: u32) -> SocketAddress {
    SocketAddress::V4 { ip: last, port: 21841 }
}

fn connection(stream: u32, last: u32, secs: u128) -> PooledConnection<u32> {
    PooledConnection::new(stream, at(last), secs * NANOS_PER_SEC)
}

fn pool() -> ConnectionPool<u32> {
    ConnectionPool::new(PoolConfig::default())
}

#[test]
fn default_limits() {
    let config = PoolConfig::default();
    assert_eq!(config.max_connections_per_peer, 5);
    assert_eq!(config.connection_timeout, 5_000_000_000);
    assert_eq!(config.idle_timeout, 60_000_000_000);
    assert_eq!(config.max_idle_connections, 10);
    assert_eq!(CLEANUP_INTERVAL, 30_000_000_000);
}

#[test]
fn time_does_not_run_backwards() {
    assert_eq!(elapsed(3, 10), 7);
    assert_eq!(elapsed(10, 3), 0);
}

#[test]
fn connections_expire_after_the_timeout() {
    let mut c = connection(1, 1, 100);
    let timeout = 60 * NANOS_PER_SEC;
    assert!(!c.is_expired(timeout, 160 * NANOS_PER_SEC));
    assert!(c.is_expired(timeout, 160 * NANOS_PER_SEC + 1));
    assert!(!c.is_expired(timeout, 0));
    c.update_last_used(120 * NANOS_PER_SEC);
    assert!(!c.is_expired(timeout, 160 * NANOS_PER_SEC + 1));
    assert_eq!(c.created_at, 100 * NANOS_PER_SEC);
}

#[test]
fn new_pool_is_empty() {
    let pool = pool();
    assert_eq!(pool.get_active_connections(), 0);
    assert_eq!(pool.get_pooled_connections(), 0);
    assert_eq!(pool.get_config().max_idle_connections, 10);
}

#[test]
fn caller_without_permit_gets_nothing() {
    let mut pool = pool();
    pool.return_connection(connection(1, 1, 0), 0);
    let result = pool.get_connection(false, at(1), 0);
    assert!(matches!(result, Err(NetworkError::PoolExhausted)));
    assert_eq!(pool.get_pooled_connections(), 1);
}

#[test]
fn returned_connection_comes_back() {
    let mut pool = pool();
    let made = pool.create_new_connection(at(1), ConnectAttempt::Connected(77), 0).unwrap();
    assert_eq!(pool.get_active_connections(), 1);
    pool.return_connection(made, 5);
    assert_eq!(pool.get_active_connections(), 0);
    assert_eq!(pool.get_pooled_connections(), 1);
    match pool.get_connection(true, at(1), 9) {
        Ok(Checkout::Reuse(c)) => {
            assert_eq!(c.stream, 77);
            assert_eq!(c.created_at, 0);
            assert_eq!(c.last_used, 9);
            assert_eq!(c.addr, at(1));
        }
        _ => panic!("no connection was reused"),
    }
    assert_eq!(pool.get_active_connections(), 1);
    assert_eq!(pool.get_pooled_connections(), 0);
}

#[test]
fn other_addresses_get_no_connection() {
    let mut pool = pool();
    pool.return_connection(connection(1, 1, 0), 0);
    match pool.get_connection(true, at(2), 0) {
        Ok(Checkout::Connect { timeout }) => assert_eq!(timeout, 5 * NANOS_PER_SEC),
        _ => panic!("a connection to another peer was reused"),
    }
    assert_eq!(pool.get_pooled_connections(), 1);
}

#[test]
fn oldest_connection_is_reused_first() {
    let mut pool = pool();
    for (stream, last) in [(10, 2), (11, 1), (12, 1)] {
        pool.return_connection(connection(stream, last, 0), 0);
    }
    match pool.get_connection(true, at(1), 0) {
        Ok(Checkout::Reuse(c)) => assert_eq!(c.stream, 11),
        _ => panic!("no connection was reused"),
    }
    match pool.get_connection(true, at(1), 0) {
        Ok(Checkout::Reuse(c)) => assert_eq!(c.stream, 12),
        _ => panic!("no connection was reused"),
    }
}

#[test]
fn expired_connections_are_not_reused() {
    let mut pool = pool();
    pool.return_connection(connection(1, 1, 0), 0);
    pool.return_connection(connection(2, 2, 0), 0);
    let late = 60 * NANOS_PER_SEC + 1;
    assert!(matches!(pool.get_connection(true, at(1), late), Ok(Checkout::Connect { .. })));
    assert_eq!(pool.get_pooled_connections(), 0);
}

#[test]
fn expired_connection_is_not_taken_back() {
    let mut pool = pool();
    pool.return_connection(connection(1, 1, 0), 61 * NANOS_PER_SEC);
    assert_eq!(pool.get_pooled_connections(), 0);
}

#[test]
fn failed_attempts_are_not_counted() {
    let mut pool = pool();
    let refused = pool.create_new_connection(at(1), ConnectAttempt::Failed("refused".to_string()), 0);
    assert!(matches!(refused, Err(NetworkError::Io(cause)) if cause == "refused"));
    let late = pool.create_new_connection(at(1), ConnectAttempt::TimedOut, 0);
    assert!(matches!(late, Err(NetworkError::Timeout)));
    assert_eq!(pool.get_active_connections(), 0);
}

#[test]
fn pool_keeps_no_more_than_its_limit() {
    let mut pool = pool();
    for stream in 0..15 {
        pool.return_connection(connection(stream, stream, 0), 0);
        assert!(pool.get_pooled_connections() <= 10);
    }
    assert_eq!(pool.get_pooled_connections(), 10);
    assert!(matches!(pool.get_connection(true, at(14), 0), Ok(Checkout::Connect { .. })));
    assert!(matches!(pool.get_connection(true, at(9), 0), Ok(Checkout::Reuse(_))));
}

#[test]
fn count_of_active_connections_wraps() {
    let mut pool = pool();
    pool.return_connection(connection(1, 1, 0), 0);
    assert_eq!(pool.get_active_connections(), usize::MAX);
    assert!(pool.get_connection(true, at(1), 0).is_ok());
    assert_eq!(pool.get_active_connections(), 0);
}

#[test]
fn cleanup_discards_what_has_expired() {
    let mut pool = pool();
    for secs in [0, 50, 10, 70] {
        pool.return_connection(connection(secs as u32, 1, secs), secs * NANOS_PER_SEC);
    }
    assert_eq!(pool.cleanup_expired_connections(75 * NANOS_PER_SEC), 2);
    assert_eq!(pool.cleanup_expired_connections(75 * NANOS_PER_SEC), 0);
    assert_eq!(pool.get_pooled_connections(), 2);
    match pool.get_connection(true, at(1), 75 * NANOS_PER_SEC) {
        Ok(Checkout::Reuse(c)) => assert_eq!(c.stream, 50),
        _ => panic!("no connection was reused"),
    }
}

#[test]
fn sweeping_early_makes_no_difference() {
    let fill = || {
        let mut pool = pool();
        for secs in [0, 20, 40] {
            pool.return_connection(connection(secs as u32, 1, secs), secs * NANOS_PER_SEC);
        }
        pool
    };
    let (mut swept, mut left) = (fill(), fill());
    swept.cleanup_expired_connections(65 * NANOS_PER_SEC);
    swept.cleanup_expired_connections(90 * NANOS_PER_SEC);
    left.cleanup_expired_connections(90 * NANOS_PER_SEC);
    assert_eq!(swept.get_pooled_connections(), 1);
    assert_eq!(left.get_pooled_connections(), 1);
}
