use rubic_network::addr::SocketAddress;
use rubic_network::error::{NetworkError, NetworkResult};
use rubic_network::packet::{EntityType, QubicApiPacket, RequestResponseHeader};
use rubic_network::peer::{AsyncPeer, NewPeer};
use rubic_network::records::PeerRecords;
use rubic_network::tcp_recv::{
    async_qubic_tcp_receive_data, finish_reception, handle_connection_error, is_valid_entity_type,
    recv_header, recv_parsed, test_connection_health, validate_packet_header, BodyOutcome,
    HeaderOutcome, HeaderStep, PacketCollector, ProbeOutcome, Reception, PROBE_TIMEOUT,
    READ_TIMEOUT,
};

fn header(size: usize, entity_type: EntityType) -> RequestResponseHeader {
    RequestResponseHeader { size, entity_type, dejavu: 1, multiple: false }
}

fn packet(number: u8, entity_type: EntityType) -> QubicApiPacket {
    QubicApiPacket {
        peer: None,
        api_type: entity_type,
        header: header(9, entity_type),
        data: vec![number],
    }
}

fn connected_peer() -> AsyncPeer {
    let draft = NewPeer::new(SocketAddress::V4 { ip: 1, port: 2 }, "");
    let mut peer = AsyncPeer::new(draft, Ok(()), &mut PeerRecords::new(), 0).unwrap();
    peer.set_connected(true);
    peer
}

fn numbers(packets: &[QubicApiPacket]) -> Vec<u8> {
    packets.iter().map(|p| p.data[0]).collect()
}

fn header_read(size: usize) -> HeaderOutcome {
    HeaderOutcome::Read {
        bytes: vec![1, 2, 3, 4, 5, 6, 7, 8],
        header: header(size, EntityType::Other(200)),
    }
}

#[test]
fn read_limits() {
    assert_eq!(READ_TIMEOUT, 10_000_000_000);
    assert_eq!(PROBE_TIMEOUT, 100_000_000);
}

#[test]
fn header_that_was_not_read() {
    let failed = recv_header(HeaderOutcome::Failed("reset".to_string()));
    assert!(matches!(failed, HeaderStep::Fail(NetworkError::Io(cause)) if cause == "reset"));
    assert!(matches!(
        recv_header(HeaderOutcome::TimedOut),
        HeaderStep::Fail(NetworkError::Timeout)
    ));
}

#[test]
fn packets_of_impossible_size_are_refused() {
    for size in [0, 7, 1024 * 1024 + 1] {
        assert!(matches!(
            recv_header(header_read(size)),
            HeaderStep::Fail(NetworkError::InvalidResponse)
        ));
    }
}

#[test]
fn bare_header_is_a_whole_packet() {
    match recv_header(header_read(8)) {
        HeaderStep::Parse(bytes) => assert_eq!(bytes, vec![1, 2, 3, 4, 5, 6, 7, 8]),
        _ => panic!("the packet was not complete"),
    }
}

#[test]
fn longest_packet_is_read() {
    match recv_header(header_read(1024 * 1024)) {
        HeaderStep::ReadBody(partial) => assert_eq!(partial.missing(), 1024 * 1024 - 8),
        _ => panic!("the packet was not read on"),
    }
}

#[test]
fn header_and_body_make_the_packet() {
    match recv_header(header_read(11)) {
        HeaderStep::ReadBody(partial) => {
            assert_eq!(partial.missing(), 3);
            let whole = partial.recv_body(BodyOutcome::Read(vec![9, 10, 11])).unwrap();
            assert_eq!(whole, vec![1, 2, 3, 4, 5, 6, 7, 8, 9, 10, 11]);
        }
        _ => panic!("the packet was not read on"),
    }
}

#[test]
fn body_that_was_not_read() {
    let partial = |size| match recv_header(header_read(size)) {
        HeaderStep::ReadBody(partial) => partial,
        _ => panic!("the packet was not read on"),
    };
    let failed = partial(9).recv_body(BodyOutcome::Failed("reset".to_string()));
    assert!(matches!(failed, Err(NetworkError::Io(cause)) if cause == "reset"));
    assert!(matches!(
        partial(9).recv_body(BodyOutcome::TimedOut),
        Err(NetworkError::Timeout)
    ));
}

#[test]
fn bytes_that_make_no_packet() {
    assert!(matches!(recv_parsed(None), Err(NetworkError::InvalidResponse)));
    let parsed = recv_parsed(Some(packet(4, EntityType::RequestAssets))).unwrap().unwrap();
    assert_eq!(parsed.data, vec![4]);
}

#[test]
fn response_of_one_packet() {
    let mut peer = connected_peer();
    let first = packet(1, EntityType::RespondCurrentTickInfo);
    match async_qubic_tcp_receive_data(&mut peer, Ok(Some(first))) {
        Reception::Complete(packets) => assert_eq!(numbers(&packets), vec![1]),
        _ => panic!("the response was not complete"),
    }
    assert!(peer.is_connected());
}

#[test]
fn response_without_packet() {
    let mut peer = connected_peer();
    match async_qubic_tcp_receive_data(&mut peer, Ok(None)) {
        Reception::Complete(packets) => assert!(packets.is_empty()),
        _ => panic!("the response was not complete"),
    }
}

#[test]
fn response_of_several_packets() {
    let mut peer = connected_peer();
    let mut first = packet(1, EntityType::RespondCurrentTickInfo);
    first.header.multiple = true;
    let (first, mut rest) = match async_qubic_tcp_receive_data(&mut peer, Ok(Some(first))) {
        Reception::Incomplete { first, rest } => (first, rest),
        _ => panic!("no more packets were expected"),
    };
    assert!(rest.wants_more());
    rest.recv_packet(Ok(Some(packet(2, EntityType::Other(1)))));
    rest.recv_packet(Ok(None));
    rest.recv_packet(Ok(Some(packet(3, EntityType::Other(1)))));
    assert!(rest.wants_more());
    rest.recv_packet(Ok(Some(packet(4, EntityType::ResponseEnd))));
    assert!(!rest.wants_more());
    assert_eq!(numbers(&finish_reception(first, rest)), vec![1, 2, 3]);
}

#[test]
fn failure_ends_a_response() {
    let mut rest = PacketCollector::new();
    rest.recv_packet(Ok(Some(packet(5, EntityType::Other(1)))));
    rest.recv_packet(Err(NetworkError::Timeout));
    assert!(!rest.wants_more());
    assert_eq!(numbers(&rest.into_packets()), vec![5]);
}

#[test]
fn response_is_limited() {
    let mut rest = PacketCollector::new();
    let mut read = 0;
    while rest.wants_more() {
        let next: NetworkResult<Option<QubicApiPacket>> = if read % 2 == 0 {
            Ok(Some(packet(0, EntityType::Other(1))))
        } else {
            Ok(None)
        };
        rest.recv_packet(next);
        read += 1;
    }
    assert_eq!(read, 1000);
    assert_eq!(rest.into_packets().len(), 500);
}

#[test]
fn failed_response_disconnects_the_peer() {
    for error in [
        NetworkError::Timeout,
        NetworkError::Io("reset".to_string()),
        NetworkError::ConnectionFailed("refused".to_string()),
    ] {
        let mut peer = connected_peer();
        match async_qubic_tcp_receive_data(&mut peer, Err(error)) {
            Reception::Failed { disconnected, .. } => assert!(disconnected),
            _ => panic!("the response did not fail"),
        }
        assert!(!peer.is_connected());
    }
}

#[test]
fn malformed_response_leaves_the_peer_connected() {
    let mut peer = connected_peer();
    match async_qubic_tcp_receive_data(&mut peer, Err(NetworkError::InvalidResponse)) {
        Reception::Failed { error, disconnected } => {
            assert!(matches!(error, NetworkError::InvalidResponse));
            assert!(!disconnected);
        }
        _ => panic!("the response did not fail"),
    }
    assert!(peer.is_connected());
    assert!(!handle_connection_error(&mut peer, &NetworkError::PoolExhausted));
    assert!(peer.is_connected());
    assert!(handle_connection_error(&mut peer, &NetworkError::Timeout));
    assert!(!peer.is_connected());
}

#[test]
fn connection_tests() {
    assert!(test_connection_health(ProbeOutcome::Read(1)));
    assert!(!test_connection_health(ProbeOutcome::Read(0)));
    assert!(!test_connection_health(ProbeOutcome::Failed));
    assert!(!test_connection_health(ProbeOutcome::TimedOut));
}

#[test]
fn header_validation() {
    let known = [
        EntityType::RequestCurrentTickInfo,
        EntityType::RespondCurrentTickInfo,
        EntityType::RequestedQuorumTick,
        EntityType::RequestTickData,
        EntityType::RequestContractFunction,
        EntityType::RequestAssets,
        EntityType::ResponseEnd,
    ];
    for entity_type in known {
        assert!(is_valid_entity_type(&entity_type));
        assert!(validate_packet_header(&header(8, entity_type)).is_ok());
        assert!(validate_packet_header(&header(1024 * 1024, entity_type)).is_ok());
        for size in [7, 1024 * 1024 + 1] {
            assert!(matches!(
                validate_packet_header(&header(size, entity_type)),
                Err(NetworkError::InvalidResponse)
            ));
        }
    }
    assert!(!is_valid_entity_type(&EntityType::Other(99)));
    assert!(matches!(
        validate_packet_header(&header(8, EntityType::Other(99))),
        Err(NetworkError::InvalidResponse)
    ));
}
