use rubic_network::addr::SocketAddress;
use rubic_network::connection_pool::{
    Checkout, ConnectAttempt, ConnectionPool, PoolConfig, PooledConnection,
};
use rubic_network::error::NetworkError;
use rubic_network::peer::{AsyncPeer, NewPeer, PeerStats};
use rubic_network::records::PeerRecords;

fn addr() -> SocketAddress {
    SocketAddress::V6 { ip: 1, port: 21841, flowinfo: 0, scope_id: 3 }
}

fn peer(records: &mut PeerRecords) -> AsyncPeer {
    AsyncPeer::new(NewPeer::new(addr(), "nick"), Ok(()), records, 1000).unwrap()
}

#[test]
fn drafts_have_random_ids() {
    let draft = NewPeer::new(addr(), "nick");
    let id: Vec<char> = draft.id.chars().collect();
    assert_eq!(id.len(), 36);
    for (i, c) in id.iter().enumerate() {
        if [8, 13, 18, 23].contains(&i) {
            assert_eq!(*c, '-');
        } else {
            assert!(c.is_ascii_digit() || ('a'..='f').contains(c));
        }
    }
    assert_eq!(id[14], '4');
    assert!(['8', '9', 'a', 'b'].contains(&id[19]));
    assert_ne!(draft.id, NewPeer::new(addr(), "nick").id);
}

#[test]
fn drafts_know_nothing() {
    let draft = NewPeer::new(addr(), "nick");
    assert_eq!(draft.addr, addr());
    assert_eq!(draft.nick, "nick");
    assert_eq!(draft.ping_time, 9999);
    assert!(!draft.whitelisted);
    assert_eq!(draft.last_responded, 0);
}

#[test]
fn new_peer_is_its_draft() {
    let draft = NewPeer::new(addr(), "nick");
    let id = draft.id.clone();
    let mut records = PeerRecords::new();
    let peer = AsyncPeer::new(draft, Ok(()), &mut records, 1000).unwrap();
    assert_eq!(peer.get_id(), id);
    assert_eq!(peer.get_addr(), addr());
    assert_eq!(peer.get_nick(&records), "nick");
    assert_eq!(peer.get_ping_time(), 9999);
    assert!(!peer.is_whitelisted());
    assert!(!peer.is_connected());
    assert_eq!(peer.get_last_responded(&records), 0);
    assert_eq!(peer.get_stats(&records), PeerStats::default());
    assert_eq!(peer.get_uptime(4000), 3000);
    assert_eq!(peer.get_uptime(500), 0);
}

#[test]
fn peer_that_the_database_refuses() {
    let mut records = PeerRecords::new();
    let draft = NewPeer::new(addr(), "");
    let refused = AsyncPeer::new(draft, Err("locked".to_string()), &mut records, 0);
    assert!(matches!(refused, Err(NetworkError::Database(cause)) if cause == "locked"));
    assert!(!records.holds(0));
}

#[test]
fn setters_set_one_thing() {
    let mut records = PeerRecords::new();
    let mut peer = peer(&mut records);
    peer.set_nick(&mut records, "other".to_string());
    peer.set_ping_time(12);
    peer.set_whitelisted(true);
    peer.set_connected(true);
    peer.update_last_responded(&mut records, 77);
    let copy = peer.clone();
    for p in [&peer, &copy] {
        assert_eq!(p.get_nick(&records), "other");
        assert_eq!(p.get_ping_time(), 12);
        assert!(p.is_whitelisted());
        assert!(p.is_connected());
        assert_eq!(p.get_last_responded(&records), 77);
        assert_eq!(p.get_addr(), addr());
        assert_eq!(p.get_id(), peer.get_id());
    }
}

#[test]
fn copies_share_their_record() {
    let mut records = PeerRecords::new();
    let first = peer(&mut records);
    let other = peer(&mut records);
    let copy = first.clone();
    copy.set_nick(&mut records, "new".to_string());
    first.update_stats(&mut records, |stats| stats.record_request(true, 1));
    copy.update_stats(&mut records, |stats| stats.record_request(false, 2));
    copy.update_last_responded(&mut records, 9);
    for p in [&first, &copy] {
        assert_eq!(p.get_nick(&records), "new");
        assert_eq!(p.get_stats(&records).total_requests, 2);
        assert_eq!(p.get_stats(&records).avg_response_time_ms_bits, 2);
        assert_eq!(p.get_last_responded(&records), 9);
    }
    assert_eq!(other.get_nick(&records), "nick");
    assert_eq!(other.get_stats(&records), PeerStats::default());
    assert_eq!(other.get_last_responded(&records), 0);
}

#[test]
fn copies_have_their_own_flags() {
    let mut records = PeerRecords::new();
    let mut first = peer(&mut records);
    let mut copy = first.clone();
    copy.set_connected(true);
    copy.set_ping_time(5);
    first.set_whitelisted(true);
    assert!(!first.is_connected());
    assert_eq!(first.get_ping_time(), 9999);
    assert!(!copy.is_whitelisted());
}

#[test]
fn records_are_opened_and_released() {
    let mut records = PeerRecords::new();
    let first = peer(&mut records);
    let second = peer(&mut records);
    assert!(records.has_room());
    assert_ne!(first.get_record(), second.get_record());
    records.release(first.get_record());
    assert!(!records.holds(first.get_record()));
    assert!(records.holds(second.get_record()));
    assert_eq!(second.get_nick(&records), "nick");
    let third = peer(&mut records);
    assert_ne!(third.get_record(), first.get_record());
}

#[test]
fn totals_count_every_request() {
    let mut records = PeerRecords::new();
    let peer = peer(&mut records);
    for (success, bits) in [(true, 1), (false, 2), (true, 3), (true, 4)] {
        peer.clone().update_stats(&mut records, |stats| stats.record_request(success, bits));
    }
    let stats = peer.get_stats(&records);
    assert_eq!(stats.total_requests, 4);
    assert_eq!(stats.successful_requests, 3);
    assert_eq!(stats.failed_requests, 1);
    assert_eq!(stats.avg_response_time_ms_bits, 4);
}

#[test]
fn default_statistics() {
    let stats = PeerStats::default();
    assert_eq!(stats.total_requests, 0);
    assert_eq!(stats.successful_requests, 0);
    assert_eq!(stats.failed_requests, 0);
    assert_eq!(f64::from_bits(stats.avg_response_time_ms_bits), 0.0);
    assert_eq!(f64::from_bits(stats.uptime_percentage_bits), 100.0);
    assert_eq!(stats.last_seen, 0);
}

#[test]
fn statistics_stay_balanced() {
    let mut stats = PeerStats::default();
    for success in [true, false, false, true, true] {
        stats.record_request(success, 42);
        assert_eq!(
            stats.total_requests,
            stats.successful_requests + stats.failed_requests
        );
    }
    assert_eq!(stats.total_requests, 5);
    assert_eq!(stats.successful_requests, 3);
    assert_eq!(stats.avg_response_time_ms_bits, 42);
}

#[test]
fn statistics_are_updated_by_a_function() {
    let mut records = PeerRecords::new();
    let peer = peer(&mut records);
    peer.update_stats(&mut records, |stats| stats.last_seen += 5);
    assert_eq!(peer.get_stats(&records).last_seen, 5);
    assert_eq!(peer.get_stats(&records).total_requests, 0);
}

#[test]
fn health_check_decides_on_the_connection() {
    let mut pool: ConnectionPool<u8> = ConnectionPool::new(PoolConfig::default());
    let mut peer = peer(&mut PeerRecords::new());
    let made = pool.create_new_connection(addr(), ConnectAttempt::Connected(3), 0);
    assert!(peer.health_check(&mut pool, made, 0));
    assert!(peer.is_connected());
    assert_eq!(pool.get_pooled_connections(), 1);
    assert_eq!(pool.get_active_connections(), 0);
    assert!(!peer.health_check(&mut pool, Err(NetworkError::Timeout), 0));
    assert!(!peer.is_connected());
    assert_eq!(pool.get_pooled_connections(), 1);
}

#[test]
fn peer_reaches_the_pool_by_its_address() {
    let mut pool: ConnectionPool<u8> = ConnectionPool::new(PoolConfig::default());
    let peer = peer(&mut PeerRecords::new());
    peer.return_connection(&mut pool, PooledConnection::new(9, addr(), 0), 0);
    match peer.get_connection(&mut pool, true, 1) {
        Ok(Checkout::Reuse(c)) => assert_eq!(c.stream, 9),
        _ => panic!("no connection was reused"),
    }
    assert!(matches!(
        peer.get_connection(&mut pool, false, 1),
        Err(NetworkError::PoolExhausted)
    ));
}

#[test]
fn address_keys() {
    assert_eq!(addr().key(), (true, 1, 21841, 0, 3));
    let v4 = SocketAddress::V4 { ip: 1, port: 21841 };
    assert_eq!(v4.key(), (false, 1, 21841, 0, 0));
    let v6 = SocketAddress::V6 { ip: 1, port: 21841, flowinfo: 0, scope_id: 0 };
    assert_ne!(v4.key(), v6.key());
    assert_ne!(addr().key(), v6.key());
}
