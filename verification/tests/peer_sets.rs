use rubic_network::addr::SocketAddress;
use rubic_network::connection_pool::{PoolConfig, PooledConnection};
use rubic_network::error::NetworkError;
use rubic_network::packet::{EntityType, QubicApiPacket, RequestResponseHeader};
use rubic_network::peer::{AsyncPeer, PeerStats};
use rubic_network::peers::{
    address_request, AsyncPeerSet, PeerSet, PeerSetConfig, REQUEST_CHANNEL_CAPACITY,
};
use rubic_network::selection::LoadBalancingStrategy;

fn at(last: u32) -> SocketAddress {
    SocketAddress::V4 { ip: last, port: 21841 }
}

fn set_with(load_balancing: LoadBalancingStrategy, max_peers: usize) -> AsyncPeerSet<u32> {
    AsyncPeerSet::new(PeerSetConfig { load_balancing, max_peers, ..PeerSetConfig::default() })
}

fn set() -> AsyncPeerSet<u32> {
    set_with(LoadBalancingStrategy::RoundRobin, 50)
}

fn add(set: &mut AsyncPeerSet<u32>, last: u32, task: u64) -> Result<String, NetworkError> {
    let draft = set.add_peer(at(last), &format!("{}", last))?;
    let peer = AsyncPeer::new(draft, Ok(()), set.records(), 0)?;
    let connection = Ok(PooledConnection::new(last, at(last), 0));
    let added = set.finish_add_peer(peer, connection, "text", task, 0)?;
    Ok(added.peer.get_id().to_string())
}

fn request(api_type: EntityType) -> QubicApiPacket {
    QubicApiPacket {
        peer: None,
        api_type,
        header: RequestResponseHeader {
            size: 9,
            entity_type: api_type,
            dejavu: 1,
            multiple: false,
        },
        data: vec![5],
    }
}

fn no_rank(_peer: &AsyncPeer, _stats: PeerStats) -> Option<i64> {
    None
}

fn by_ip(peer: &AsyncPeer, _stats: PeerStats) -> Option<i64> {
    match peer.get_addr() {
        SocketAddress::V4 { ip, .. } => Some(ip as i64),
        _ => None,
    }
}

fn by_success(_peer: &AsyncPeer, stats: PeerStats) -> Option<i64> {
    Some(stats.successful_requests as i64)
}

fn failed_with<T>(result: Result<T, NetworkError>, cause: &str) -> bool {
    matches!(result, Err(NetworkError::ConnectionFailed(text)) if text == cause)
}

fn sorted(mut ids: Vec<String>) -> Vec<String> {
    ids.sort();
    ids
}

#[test]
fn default_configuration() {
    let config = PeerSetConfig::default();
    assert_eq!(config.max_peers, 50);
    assert_eq!(config.connection_timeout, 5_000_000_000);
    assert_eq!(config.health_check_interval, 30_000_000_000);
    assert_eq!(config.load_balancing, LoadBalancingStrategy::ScoreBased);
    assert!(config.enable_connection_pooling);
    assert_eq!(config.pool_config.idle_timeout, PoolConfig::default().idle_timeout);
    assert_eq!(REQUEST_CHANNEL_CAPACITY, 1000);
    assert_eq!(set().get_config().max_peers, 50);
}

#[test]
fn added_peers_are_in_the_set() {
    let mut set = set();
    assert_eq!(set.get_peer_count(), 0);
    let a = add(&mut set, 1, 10).unwrap();
    let b = add(&mut set, 2, 11).unwrap();
    assert_eq!(set.get_peer_count(), 2);
    assert_eq!(set.get_connected_peer_count(), 2);
    assert_eq!(sorted(set.get_peer_ids()), sorted(vec![a.clone(), b.clone()]));
    assert_eq!(sorted(set.worker_manager().get_worker_ids()), sorted(vec![a.clone(), b]));
    assert_eq!(set.connection_pool().get_pooled_connections(), 2);
    assert_eq!(set.worker_manager().stop_worker(&a).unwrap().task, 10);
}

#[test]
fn known_address_is_refused() {
    let mut set = set();
    add(&mut set, 1, 1).unwrap();
    assert!(failed_with(add(&mut set, 1, 2), "Peer already exists"));
    assert_eq!(set.get_peer_count(), 1);
}

#[test]
fn full_set_refuses_peers() {
    let mut set = set_with(LoadBalancingStrategy::RoundRobin, 2);
    add(&mut set, 1, 1).unwrap();
    add(&mut set, 2, 2).unwrap();
    assert!(matches!(add(&mut set, 3, 3), Err(NetworkError::PeerLimitReached)));
    assert!(matches!(add(&mut set, 1, 3), Err(NetworkError::PeerLimitReached)));
    assert_eq!(set.get_peer_count(), 2);
}

#[test]
fn unreachable_peer_is_not_added() {
    let mut set = set();
    let draft = set.add_peer(at(1), "").unwrap();
    let peer = AsyncPeer::new(draft, Ok(()), set.records(), 0).unwrap();
    let refused = set.finish_add_peer(peer, Err(NetworkError::Timeout), "0.0.0.1:21841", 1, 0);
    assert!(failed_with(refused, "Failed to connect to 0.0.0.1:21841"));
    assert_eq!(set.get_peer_count(), 0);
    assert_eq!(set.worker_manager().get_worker_count(), 0);
    assert!(add(&mut set, 1, 1).is_ok());
}

#[test]
fn removing_undoes_adding() {
    let mut set = set();
    let a = add(&mut set, 1, 10).unwrap();
    let b = add(&mut set, 2, 11).unwrap();
    let removed = set.remove_peer(&b).unwrap();
    assert_eq!(removed.id, b);
    assert_eq!(removed.stopped.unwrap().task, 11);
    assert_eq!(set.get_peer_ids(), vec![a]);
    assert_eq!(set.worker_manager().get_worker_count(), 1);
    assert!(set.remove_peer(&b).is_none());
    assert!(add(&mut set, 2, 12).is_ok());
}

#[test]
fn removing_by_address() {
    let mut set = set();
    let a = add(&mut set, 1, 10).unwrap();
    assert!(set.remove_peer_by_addr(at(2)).is_none());
    let removed = set.remove_peer_by_addr(at(1)).unwrap();
    assert_eq!(removed.id, a);
    assert_eq!(removed.stopped.unwrap().task, 10);
    assert_eq!(set.get_peer_count(), 0);
    assert!(set.remove_peer_by_addr(at(1)).is_none());
}

#[test]
fn request_without_peers() {
    let mut set = set();
    let result = set.make_request(request(EntityType::RequestAssets), no_rank);
    assert!(failed_with(result, "No peers available"));
}

#[test]
fn some_requests_go_to_all() {
    let mut set = set();
    add(&mut set, 1, 1).unwrap();
    for api_type in [
        EntityType::RequestCurrentTickInfo,
        EntityType::RequestedQuorumTick,
        EntityType::RequestTickData,
        EntityType::RequestContractFunction,
        EntityType::RequestAssets,
    ] {
        let sent = set.make_request(request(api_type), no_rank).unwrap();
        assert_eq!(sent.peer, None);
        assert_eq!(sent.data, vec![5]);
    }
}

#[test]
fn other_requests_go_to_one_peer() {
    for strategy in [
        LoadBalancingStrategy::RoundRobin,
        LoadBalancingStrategy::Random,
        LoadBalancingStrategy::LeastConnections,
    ] {
        let mut set = set_with(strategy, 50);
        let a = add(&mut set, 1, 1).unwrap();
        for api_type in [
            EntityType::RespondCurrentTickInfo,
            EntityType::ResponseEnd,
            EntityType::Other(3),
        ] {
            let sent = set.make_request(request(api_type), no_rank).unwrap();
            assert_eq!(sent.peer, Some(a.clone()));
            assert_eq!(sent.data, vec![5]);
        }
    }
}

#[test]
fn turns_go_round() {
    let mut set = set();
    let ids = sorted((1..4).map(|i| add(&mut set, i, i as u64).unwrap()).collect());
    let mut chosen = Vec::new();
    for _ in 0..4 {
        let sent = set.make_request(request(EntityType::Other(3)), no_rank).unwrap();
        chosen.push(sent.peer.unwrap());
    }
    assert_eq!(chosen[3], chosen[0]);
    chosen.truncate(3);
    assert_eq!(sorted(chosen), ids);
}

#[test]
fn best_score_serves() {
    let mut set = set_with(LoadBalancingStrategy::ScoreBased, 50);
    add(&mut set, 4, 1).unwrap();
    let best = add(&mut set, 9, 2).unwrap();
    add(&mut set, 6, 3).unwrap();
    let sent = set.make_request(request(EntityType::Other(3)), by_ip).unwrap();
    assert_eq!(sent.peer, Some(best));
    let nobody = set.make_request(request(EntityType::Other(3)), no_rank);
    assert!(failed_with(nobody, "No healthy peers available"));
}

#[test]
fn requests_avoid_peers_that_are_down() {
    let mut set = set();
    let a = add(&mut set, 1, 1).unwrap();
    let b = add(&mut set, 2, 2).unwrap();
    assert!(!set.check_peer(&a, Err(NetworkError::Timeout), 0));
    assert_eq!(set.get_connected_peer_count(), 1);
    for _ in 0..4 {
        let sent = set.make_request(request(EntityType::Other(3)), no_rank).unwrap();
        assert_eq!(sent.peer, Some(b.clone()));
    }
    assert!(!set.check_peer(&b, Err(NetworkError::Timeout), 0));
    let nobody = set.make_request(request(EntityType::Other(3)), no_rank);
    assert!(failed_with(nobody, "No healthy peers available"));
    assert!(set.check_peer(&a, Ok(PooledConnection::new(1, at(1), 0)), 0));
    let sent = set.make_request(request(EntityType::Other(3)), no_rank).unwrap();
    assert_eq!(sent.peer, Some(a));
}

#[test]
fn check_of_a_peer_that_is_gone() {
    let mut set = set();
    assert!(set.check_peer("nobody", Ok(PooledConnection::new(1, at(1), 0)), 0));
    assert!(!set.check_peer("nobody", Err(NetworkError::Timeout), 0));
    assert_eq!(set.get_peer_count(), 0);
    assert_eq!(set.connection_pool().get_pooled_connections(), 1);
}

#[test]
fn addressing() {
    let sent = address_request(request(EntityType::Other(3)), Some("x".to_string())).unwrap();
    assert_eq!(sent.peer, Some("x".to_string()));
    let nobody = address_request(request(EntityType::Other(3)), None);
    assert!(failed_with(nobody, "No healthy peers available"));
}

#[test]
fn health_check_removes_the_unreachable() {
    let mut set = set();
    let a = add(&mut set, 1, 1).unwrap();
    let b = add(&mut set, 2, 2).unwrap();
    let c = add(&mut set, 3, 3).unwrap();
    let mut targets = set.health_check_targets();
    targets.sort_by_key(|t| t.1.key());
    assert_eq!(targets, vec![(a.clone(), at(1)), (b.clone(), at(2)), (c.clone(), at(3))]);
    let results = vec![
        (a.clone(), false),
        (b.clone(), true),
        ("nobody".to_string(), false),
        (c.clone(), false),
    ];
    let removed = set.health_check_all_peers(&results);
    let ids: Vec<String> = removed.iter().map(|r| r.id.clone()).collect();
    assert_eq!(ids, vec![a, c]);
    assert_eq!(removed[1].stopped.as_ref().unwrap().task, 3);
    assert_eq!(set.get_peer_ids(), vec![b]);
    assert!(add(&mut set, 1, 4).is_ok());
}

#[test]
fn periodic_check_drops_the_unreachable() {
    let mut set = set();
    let a = add(&mut set, 1, 1).unwrap();
    let b = add(&mut set, 2, 2).unwrap();
    let results = vec![(a.clone(), false), ("nobody".to_string(), false), (b.clone(), true)];
    let dropped = set.drop_unreachable_peers(&results);
    assert_eq!(dropped.len(), 2);
    assert_eq!(dropped[0].id, a);
    assert_eq!(dropped[0].stopped.as_ref().unwrap().task, 1);
    assert_eq!(dropped[1].id, "nobody");
    assert!(dropped[1].stopped.is_none());
    assert_eq!(set.get_peer_ids(), vec![b]);
    assert_eq!(set.worker_manager().get_worker_count(), 1);
    assert!(set.remove_peer_by_addr(at(1)).is_none());
    assert!(add(&mut set, 1, 3).is_ok());
    assert!(failed_with(add(&mut set, 2, 4), "Peer already exists"));
}

#[test]
fn best_peers_of_a_set() {
    let mut set = set();
    for i in [3, 8, 5] {
        add(&mut set, i, i as u64).unwrap();
    }
    let down = add(&mut set, 9, 9).unwrap();
    set.check_peer(&down, Err(NetworkError::Timeout), 0);
    let best = set.get_best_peers(2, |p, stats| by_ip(p, stats).unwrap());
    let nicks: Vec<String> = best.iter().map(|p| p.get_nick(set.records())).collect();
    assert_eq!(nicks, vec!["8", "5"]);
    assert_eq!(set.get_best_peers(10, |_, _| 0).len(), 3);
}

#[test]
fn reconnecting() {
    let mut set = set();
    assert!(failed_with(set.reconnect_peer("nobody"), "Peer not found"));
    let a = add(&mut set, 1, 1).unwrap();
    set.check_peer(&a, Err(NetworkError::Timeout), 0);
    let peer = set.reconnect_peer(&a).unwrap();
    let down = set.finish_reconnect_peer(&a, peer.clone(), Err(NetworkError::Timeout), 2, 0);
    assert!(failed_with(down, "Health check failed"));
    assert_eq!(set.get_connected_peer_count(), 0);
    let connection = Ok(PooledConnection::new(1, at(1), 0));
    let up = set.finish_reconnect_peer(&a, peer, connection, 3, 0).unwrap();
    assert!(up.peer.is_connected());
    assert!(!up.announce);
    assert_eq!(up.replaced.unwrap().task, 1);
    assert_eq!(set.get_connected_peer_count(), 0);
    assert_eq!(set.worker_manager().stop_worker(&a).unwrap().task, 3);
}

#[test]
fn peer_that_was_removed_is_not_reconnected() {
    let mut set = set();
    let a = add(&mut set, 1, 1).unwrap();
    let peer = set.reconnect_peer(&a).unwrap();
    set.remove_peer(&a).unwrap();
    let idle = set.connection_pool().get_pooled_connections();
    let connection = Ok(PooledConnection::new(1, at(1), 0));
    let late = set.finish_reconnect_peer(&a, peer.clone(), connection, 2, 0);
    assert!(failed_with(late, "Peer not found"));
    assert_eq!(set.worker_manager().get_worker_count(), 0);
    assert_eq!(set.connection_pool().get_pooled_connections(), idle + 1);
    let late = set.finish_reconnect_peer(&a, peer, Err(NetworkError::Timeout), 2, 0);
    assert!(failed_with(late, "Peer not found"));
    assert_eq!(set.get_peer_count(), 0);
}

#[test]
fn statistics_of_a_set() {
    let mut set = set_with(LoadBalancingStrategy::ScoreBased, 50);
    let a = add(&mut set, 1, 1).unwrap();
    let b = add(&mut set, 2, 2).unwrap();
    let mut old = set.reconnect_peer(&a).unwrap();
    let new = set.reconnect_peer(&a).unwrap();
    old.update_stats(set.records(), |stats| stats.record_request(true, 7));
    new.update_stats(set.records(), |stats| stats.record_request(true, 8));
    old.update_last_responded(set.records(), 55);
    old.set_connected(false);
    let mut stats = set.get_peer_stats();
    stats.sort_by_key(|s| s.1.total_requests);
    assert_eq!(stats.len(), 2);
    assert_eq!(stats[0].0, b);
    assert_eq!(stats[0].1.total_requests, 0);
    assert_eq!(stats[1].0, a);
    assert_eq!(stats[1].1.successful_requests, 2);
    let known = set.reconnect_peer(&a).unwrap();
    assert_eq!(known.get_last_responded(set.records()), 55);
    assert!(known.is_connected());
    let sent = set.make_request(request(EntityType::Other(3)), by_success).unwrap();
    assert_eq!(sent.peer, Some(a));
}

#[test]
fn peer_of_a_set_is_renamed_through_a_copy() {
    let mut set = set();
    let a = add(&mut set, 1, 1).unwrap();
    let best = set.get_best_peers(1, |_, _| 0);
    best[0].set_nick(set.records(), "renamed".to_string());
    let known = set.reconnect_peer(&a).unwrap();
    let (pool, records) = set.pool_and_records();
    assert_eq!(known.get_nick(records), "renamed");
    assert_eq!(pool.get_pooled_connections(), 1);
}

#[test]
fn set_stays_in_order() {
    let mut set = set_with(LoadBalancingStrategy::RoundRobin, 2);
    for round in 0..3 {
        let a = add(&mut set, 1, round).unwrap();
        let b = add(&mut set, 2, round).unwrap();
        assert!(add(&mut set, 1, round).is_err());
        assert!(add(&mut set, 3, round).is_err());
        assert_eq!(set.get_peer_count(), 2);
        set.drop_unreachable_peers(&vec![(a, false)]);
        set.health_check_all_peers(&vec![(b, false)]);
        assert_eq!(set.get_peer_count(), 0);
    }
}

#[test]
fn errors_in_words() {
    let mut set: PeerSet<u32> = PeerSet::new();
    assert_eq!(set.num_peers(), 0);
    assert_eq!(set.add_peer(None).unwrap_err(), "Invalid IP address format");
    let nobody = set.make_request(request(EntityType::Other(3)), no_rank);
    assert_eq!(nobody.unwrap_err(), "Connection failed: No peers available");
    let draft = set.add_peer(Some(at(1))).unwrap();
    assert_eq!(draft.nick, "");
    let peer = AsyncPeer::new(draft, Ok(()), set.async_peer_set.records(), 0).unwrap();
    let refused = set.finish_add_peer(peer.clone(), Err(NetworkError::Timeout), "here", 1, 0);
    assert_eq!(refused.unwrap_err(), "Connection failed: Failed to connect to here");
    let connection = Ok(PooledConnection::new(1, at(1), 0));
    let added = set.finish_add_peer(peer, connection, "here", 1, 0).unwrap();
    assert!(added.announce);
    let id = added.peer.get_id().to_string();
    assert_eq!(set.num_peers(), 1);
    assert_eq!(set.get_peers(), vec![id.clone()]);
    assert_eq!(set.get_peer_ids(), vec![id.clone()]);
    assert_eq!(
        set.add_peer(Some(at(1))).unwrap_err(),
        "Connection failed: Peer already exists"
    );
    let unranked = set.make_request(request(EntityType::Other(3)), no_rank);
    assert_eq!(unranked.unwrap_err(), "Connection failed: No healthy peers available");
    let sent = set.make_request(request(EntityType::Other(3)), |_, _| Some(1)).unwrap();
    assert_eq!(sent.peer, Some(id.clone()));
    assert!(set.delete_peer_by_id(&id).is_some());
    assert!(set.delete_peer_by_id(&id).is_none());
    assert_eq!(set.num_peers(), 0);
}

#[test]
fn full_set_says_so() {
    let mut set: PeerSet<u32> = PeerSet::new();
    for i in 0..50 {
        let draft = set.add_peer(Some(at(i))).unwrap();
        let peer = AsyncPeer::new(draft, Ok(()), set.async_peer_set.records(), 0).unwrap();
        let connection = Ok(PooledConnection::new(i, at(i), 0));
        set.finish_add_peer(peer, connection, "", i as u64, 0).unwrap();
    }
    assert_eq!(set.num_peers(), 50);
    assert_eq!(set.add_peer(Some(at(50))).unwrap_err(), "Peer limit reached");
}
