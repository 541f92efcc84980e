use rubic_network::addr::SocketAddress;
use rubic_network::connection_pool::{ConnectionPool, PoolConfig, PooledConnection};
use rubic_network::error::NetworkError;
use rubic_network::packet::{EntityType, QubicApiPacket, RequestResponseHeader};
use rubic_network::peer::{AsyncPeer, NewPeer};
use rubic_network::records::PeerRecords;
use rubic_network::worker::{
    backoff, send_data, AsyncWorkerManager, Exchange, RequestEvent, RequestMatcher, SendOutcome,
    Worker, WorkerAction, MATCHER_CLEANUP_INTERVAL, REQUEST_WAIT,
};

const MS: u128 = 1_000_000;

fn addr() -> SocketAddress {
    SocketAddress::V4 { ip: 7, port: 8 }
}

fn recorded_worker(records: &mut PeerRecords) -> Worker {
    let mut peer = AsyncPeer::new(NewPeer::new(addr(), ""), Ok(()), records, 0).unwrap();
    peer.set_connected(true);
    Worker::new(peer)
}

fn worker() -> Worker {
    recorded_worker(&mut PeerRecords::new())
}

fn request(peer: Option<&str>, dejavu: u32) -> QubicApiPacket {
    QubicApiPacket {
        peer: peer.map(|p| p.to_string()),
        api_type: EntityType::Other(1),
        header: RequestResponseHeader {
            size: 10,
            entity_type: EntityType::Other(1),
            dejavu,
            multiple: false,
        },
        data: vec![1, 2],
    }
}

#[test]
fn intervals() {
    assert_eq!(REQUEST_WAIT, 30_000 * MS);
    assert_eq!(MATCHER_CLEANUP_INTERVAL, 300_000 * MS);
}

#[test]
fn worker_serves_requests_for_its_peer() {
    let worker = worker();
    let mut matcher = RequestMatcher::new();
    let own = request(Some(worker.peer.get_id()), 11);
    match worker.recv_request(&mut matcher, RequestEvent::Request(own)) {
        WorkerAction::Handle(handled) => assert_eq!(handled.data, vec![1, 2]),
        _ => panic!("the request was not handled"),
    }
    assert_eq!(matcher.find(11).unwrap().data, vec![1, 2]);
}

#[test]
fn worker_serves_requests_for_anyone() {
    let worker = worker();
    let mut matcher = RequestMatcher::new();
    let event = RequestEvent::Request(request(None, 12));
    assert!(matches!(worker.recv_request(&mut matcher, event), WorkerAction::Handle(_)));
    assert!(matcher.find(12).is_some());
}

#[test]
fn worker_passes_over_requests_for_others() {
    let worker = worker();
    let mut matcher = RequestMatcher::new();
    let event = RequestEvent::Request(request(Some("someone else"), 13));
    assert!(matches!(worker.recv_request(&mut matcher, event), WorkerAction::Receive));
    assert!(matcher.find(13).is_none());
}

#[test]
fn worker_minds_the_channel() {
    let worker = worker();
    let mut matcher = RequestMatcher::new();
    let mut on = |event| worker.recv_request(&mut matcher, event);
    assert!(matches!(on(RequestEvent::Lagged), WorkerAction::Receive));
    assert!(matches!(on(RequestEvent::Closed), WorkerAction::Stop));
    assert!(matches!(on(RequestEvent::TimedOut), WorkerAction::CheckHealth));
}

#[test]
fn worker_checks_its_peer() {
    let mut worker = worker();
    let mut pool: ConnectionPool<u8> = ConnectionPool::new(PoolConfig::default());
    let up = worker.health_checked(&mut pool, Ok(PooledConnection::new(1, addr(), 0)), 0);
    assert!(matches!(up, WorkerAction::Receive));
    assert!(worker.peer.is_connected());
    let down = worker.health_checked(&mut pool, Err(NetworkError::Timeout), 0);
    assert!(matches!(down, WorkerAction::Stop));
    assert!(!worker.peer.is_connected());
}

#[test]
fn pauses_double() {
    let pauses: Vec<u128> = (0..6).map(backoff).collect();
    assert_eq!(pauses, vec![100 * MS, 200 * MS, 400 * MS, 800 * MS, 1600 * MS, 3200 * MS]);
    assert_eq!(backoff(10), 102_400 * MS);
    assert_eq!(backoff(11), 102_400 * MS);
    assert_eq!(backoff(u32::MAX), 102_400 * MS);
}

#[test]
fn peer_is_given_up_after_five_failures() {
    let mut records = PeerRecords::new();
    let mut worker = recorded_worker(&mut records);
    for failures in 1..5 {
        let after = worker.request_handled(&mut records, &Err(NetworkError::Timeout), 0);
        assert!(!after.disconnect);
        assert_eq!(after.backoff, Some(backoff(failures)));
        assert!(worker.peer.is_connected());
    }
    let after = worker.request_handled(&mut records, &Err(NetworkError::Timeout), 0);
    assert!(after.disconnect);
    assert_eq!(after.backoff, Some(3200 * MS));
    assert!(!worker.peer.is_connected());
    assert_eq!(worker.peer.get_stats(&records).failed_requests, 5);
}

#[test]
fn success_forgives_failures() {
    let mut records = PeerRecords::new();
    let mut worker = recorded_worker(&mut records);
    for _ in 0..4 {
        worker.request_handled(&mut records, &Err(NetworkError::Timeout), 1);
    }
    let after = worker.request_handled(&mut records, &Ok(()), 2);
    assert_eq!(after.backoff, None);
    assert!(!after.disconnect);
    let after = worker.request_handled(&mut records, &Err(NetworkError::InvalidResponse), 3);
    assert_eq!(after.backoff, Some(200 * MS));
    let stats = worker.peer.get_stats(&records);
    assert_eq!(stats.total_requests, 6);
    assert_eq!(stats.successful_requests, 1);
    assert_eq!(stats.failed_requests, 5);
    assert_eq!(stats.avg_response_time_ms_bits, 3);
}

#[test]
fn answered_request_returns_its_connection() {
    let mut records = PeerRecords::new();
    let worker = recorded_worker(&mut records);
    let mut pool: ConnectionPool<u8> = ConnectionPool::new(PoolConfig::default());
    let connection = PooledConnection::new(1, addr(), 0);
    let exchange = Exchange::Answered { connection, response: Err(NetworkError::InvalidResponse) };
    let result = worker.handle_request(&mut pool, &mut records, exchange, 5, 99);
    assert!(matches!(result, Err(NetworkError::InvalidResponse)));
    assert_eq!(pool.get_pooled_connections(), 1);
    assert_eq!(worker.peer.get_last_responded(&records), 99);
}

#[test]
fn unsent_request_gives_its_connection_up() {
    let mut records = PeerRecords::new();
    let worker = recorded_worker(&mut records);
    let mut pool: ConnectionPool<u8> = ConnectionPool::new(PoolConfig::default());
    for exchange in [
        Exchange::NotSent(NetworkError::Timeout),
        Exchange::NotConnected(NetworkError::Timeout),
    ] {
        let result = worker.handle_request(&mut pool, &mut records, exchange, 5, 99);
        assert!(matches!(result, Err(NetworkError::Timeout)));
    }
    assert_eq!(pool.get_pooled_connections(), 0);
    assert_eq!(worker.peer.get_last_responded(&records), 0);
}

#[test]
fn sending() {
    assert!(send_data(SendOutcome::Sent).is_ok());
    let write = send_data(SendOutcome::WriteFailed("full".to_string()));
    assert!(matches!(write, Err(NetworkError::Io(cause)) if cause == "full"));
    let flush = send_data(SendOutcome::FlushFailed("gone".to_string()));
    assert!(matches!(flush, Err(NetworkError::Io(cause)) if cause == "gone"));
}

#[test]
fn matcher_forgets_when_it_is_full() {
    let mut matcher = RequestMatcher::new();
    for dejavu in 0..10_000 {
        matcher.record(&request(None, dejavu));
    }
    matcher.record(&request(Some("again"), 5));
    assert!(!matcher.cleanup());
    assert_eq!(matcher.find(5).unwrap().peer, Some("again".to_string()));
    matcher.record(&request(None, 10_000));
    assert!(matcher.cleanup());
    assert!(matcher.find(5).is_none());
    assert!(!matcher.cleanup());
}

#[test]
fn workers_of_one_peer_count_together() {
    let mut records = PeerRecords::new();
    let mut old = recorded_worker(&mut records);
    let mut new = Worker::new(old.peer.clone());
    old.request_handled(&mut records, &Ok(()), 1);
    new.request_handled(&mut records, &Err(NetworkError::Timeout), 2);
    for worker in [&old, &new] {
        assert_eq!(worker.peer.get_stats(&records).total_requests, 2);
        assert_eq!(worker.peer.get_stats(&records).failed_requests, 1);
    }
    assert_eq!((old.consecutive_failures, new.consecutive_failures), (0, 1));
}

#[test]
fn manager_holds_the_requests() {
    let mut manager = AsyncWorkerManager::new();
    let event = RequestEvent::Request(request(None, 21));
    let action = worker().recv_request(manager.matcher(), event);
    assert!(matches!(action, WorkerAction::Handle(_)));
    assert!(manager.matcher().find(21).is_some());
    assert!(!manager.matcher().cleanup());
}

#[test]
fn one_worker_for_each_peer() {
    let mut manager = AsyncWorkerManager::new();
    assert!(manager.start_worker("a", 1).is_none());
    assert!(manager.start_worker("b", 2).is_none());
    let replaced = manager.start_worker("a", 3).unwrap();
    assert_eq!((replaced.peer_id.as_str(), replaced.task), ("a", 1));
    assert_eq!(manager.get_worker_count(), 2);
    let mut ids = manager.get_worker_ids();
    ids.sort();
    assert_eq!(ids, vec!["a", "b"]);
    assert_eq!(manager.restart_worker("b", 4).unwrap().task, 2);
    assert_eq!(manager.stop_worker("a").unwrap().task, 3);
    assert!(manager.stop_worker("a").is_none());
    manager.worker_exited("b");
    assert_eq!(manager.get_worker_count(), 0);
}

#[test]
fn all_workers_are_stopped() {
    let mut manager = AsyncWorkerManager::new();
    for (id, task) in [("a", 1), ("b", 2), ("c", 3)] {
        manager.start_worker(id, task);
    }
    let mut stopped: Vec<(String, u64)> =
        manager.stop_all_workers().into_iter().map(|w| (w.peer_id, w.task)).collect();
    stopped.sort();
    assert_eq!(
        stopped,
        vec![("a".to_string(), 1), ("b".to_string(), 2), ("c".to_string(), 3)]
    );
    assert_eq!(manager.get_worker_count(), 0);
    assert!(manager.stop_all_workers().is_empty());
}
