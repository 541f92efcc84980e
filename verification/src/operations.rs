//! What the operations of the crate are for: what every call gives back and changes, and how calls
//! relate.

use vstd::prelude::*;

use crate::addr::SocketAddress;
use crate::connection_pool::{
    Checkout, ConnectAttempt, ConnectionPool, PoolConfig, PooledConnection,
};
use crate::error::{NetworkError, NetworkResult};
use crate::packet::{EntityType, QubicApiPacket, RequestResponseHeader};
use crate::peer::{AsyncPeer, NewPeer, PeerStats};
use crate::peers::{AddedPeer, AsyncPeerSet, PeerSet, PeerSetConfig, RemovedPeer};
use crate::records::PeerRecords;
use crate::selection::{select_candidate, Candidate, LoadBalancingStrategy};
use crate::tcp_recv::{
    async_qubic_tcp_receive_data, finish_reception, handle_connection_error, recv_header,
    recv_parsed, test_connection_health, validate_packet_header, BodyOutcome, HeaderOutcome,
    HeaderStep, PacketCollector, PartialPacket, ProbeOutcome, Reception,
};
use crate::time::Nanos;
use crate::worker::{
    backoff, send_data, Aftermath, AsyncWorkerManager, Exchange, RequestEvent, RequestMatcher,
    SendOutcome, Worker, WorkerAction, WorkerTask,
};

verus! {

/// How long things may take and how much may be held.
pub proof fn limits_are_as_agreed()
    ensures
        crate::time::NANOS_PER_MILLI == 1_000_000,
        crate::time::NANOS_PER_SEC == 1_000_000_000,
        crate::time::UNIX_EPOCH == 0,
        crate::connection_pool::CLEANUP_INTERVAL == 30_000_000_000,
        crate::tcp_recv::READ_TIMEOUT == 10_000_000_000,
        crate::tcp_recv::PROBE_TIMEOUT == 100_000_000,
        crate::tcp_recv::HEADER_SIZE == 8,
        crate::tcp_recv::MAX_PACKET_SIZE == 1_048_576,
        crate::tcp_recv::MAX_PACKETS_PER_RESPONSE == 1000,
        crate::worker::REQUEST_WAIT == 30_000_000_000,
        crate::worker::MAX_CONSECUTIVE_FAILURES == 5,
        crate::worker::BACKOFF_BASE_DURATION == 100_000_000,
        crate::worker::MAX_BACKOFF_DOUBLINGS == 10,
        crate::worker::MATCHER_CLEANUP_INTERVAL == 300_000_000_000,
        crate::worker::MATCHER_LIMIT == 10_000,
        crate::peers::REQUEST_CHANNEL_CAPACITY == 1000,
        crate::peer::UNKNOWN_PING_TIME == 9999,
        crate::peer::ONE_HUNDRED_BITS == 0x4059_0000_0000_0000,
{
}

/// Asking for a connection without a permit fails and changes nothing. With one, a connection is
/// reused exactly if one to the address was last used no longer ago than the configured timeout;
/// it is the first such, noted as used now. Otherwise one is to be made within the configured time.
pub proof fn getting_a_connection<S>(
    pool: &mut ConnectionPool<S>,
    permit: bool,
    addr: SocketAddress,
    now: Nanos,
    checkout: NetworkResult<Checkout<S>>,
)
    requires
        call_ensures(ConnectionPool::<S>::get_connection, (pool, permit, addr, now), checkout),
    ensures
        !permit ==> (checkout matches Err(error) && error is PoolExhausted) && final(pool)@ == old(pool)@,
        permit ==> checkout is Ok,
        permit ==> (checkout->Ok_0 is Reuse <==> exists|i: int|
            0 <= i < old(pool)@.idle.len() && (#[trigger] old(pool)@.idle[i]).addr == addr && now
                - old(pool)@.idle[i].last_used <= old(pool)@.config.idle_timeout),
        checkout matches Ok(Checkout::Connect { timeout }) ==> timeout == old(pool)@.config.connection_timeout && final(pool)@.active == old(pool)@.active,
        checkout matches Ok(Checkout::Reuse(connection)) ==> final(pool)@.active == old(pool)@.active.wrapping_add(1) && connection.addr == addr && connection.last_used == now
            && exists|i: int|
            0 <= i < old(pool)@.idle.len() && (#[trigger] old(pool)@.idle[i]).addr == addr && now
                - old(pool)@.idle[i].last_used <= old(pool)@.config.idle_timeout
                && old(pool)@.idle[i].stream == connection.stream && old(pool)@.idle[i].created_at
                == connection.created_at && forall|j: int|
                0 <= j < i && (#[trigger] old(pool)@.idle[j]).addr == addr ==> now
                    - old(pool)@.idle[j].last_used > old(pool)@.config.idle_timeout,
        permit ==> forall|i: int|
            0 <= i < old(pool)@.idle.len() && (#[trigger] old(pool)@.idle[i]).addr != addr && now
                - old(pool)@.idle[i].last_used <= old(pool)@.config.idle_timeout ==> final(pool)@.idle.contains(old(pool)@.idle[i]),
        permit ==> forall|k: int|
            0 <= k < final(pool)@.idle.len() ==> old(pool)@.idle.contains(
                #[trigger] final(pool)@.idle[k],
            ) && now - final(pool)@.idle[k].last_used <= old(pool)@.config.idle_timeout,
        final(pool)@.config == old(pool)@.config,
{
    if permit {
        if exists|i: int|
            0 <= i < old(pool)@.idle.len() && (#[trigger] old(pool)@.idle[i]).addr == addr && now
                - old(pool)@.idle[i].last_used <= old(pool)@.config.idle_timeout {
            assert(!(checkout->Ok_0 is Connect));
        }
    }
}

/// A connection that comes back is kept at the end of the pool, as last used now, exactly if it was
/// last used no longer ago than the configured timeout and there is room.
pub proof fn giving_a_connection_back<S>(
    pool: &mut ConnectionPool<S>,
    connection: PooledConnection<S>,
    now: Nanos,
)
    requires
        call_ensures(ConnectionPool::<S>::return_connection, (pool, connection, now), ()),
    ensures
        final(pool)@.config == old(pool)@.config,
        final(pool)@.active == old(pool)@.active.wrapping_sub(1),
        final(pool)@.idle == if now - connection.last_used <= old(pool)@.config.idle_timeout && old(pool)@.idle.len() < old(pool)@.config.max_idle_connections {
            old(pool)@.idle.push(PooledConnection { last_used: now, ..connection })
        } else {
            old(pool)@.idle
        },
{
}

/// What one caller gives back, the next caller for the same address gets, if nothing else leads
/// there, it came back in time and finds room, and the next caller comes in time. The count of
/// those that are out is then what it was.
pub proof fn what_is_given_back_is_got_again<S>(
    giving: &mut ConnectionPool<S>,
    connection: PooledConnection<S>,
    given_at: Nanos,
    getting: &mut ConnectionPool<S>,
    got_at: Nanos,
    checkout: NetworkResult<Checkout<S>>,
)
    requires
        call_ensures(ConnectionPool::<S>::return_connection, (giving, connection, given_at), ()),
        call_ensures(
            ConnectionPool::<S>::get_connection,
            (getting, true, connection.addr, got_at),
            checkout,
        ),
        old(getting)@ == final(giving)@,
        old(giving)@.idle.len() < old(giving)@.config.max_idle_connections,
        given_at - connection.last_used <= old(giving)@.config.idle_timeout,
        got_at - given_at <= old(giving)@.config.idle_timeout,
        forall|i: int|
            0 <= i < old(giving)@.idle.len() ==> (#[trigger] old(giving)@.idle[i]).addr
                != connection.addr,
    ensures
        checkout == Ok::<_, NetworkError>(
            Checkout::Reuse(PooledConnection { last_used: got_at, ..connection }),
        ),
        final(getting)@.active == old(giving)@.active,
{
    let last = old(giving)@.idle.len() as int;
    assert(old(getting)@.idle[last] == (PooledConnection { last_used: given_at, ..connection }));
    getting_a_connection(getting, true, connection.addr, got_at, checkout);
    assert forall|i: int|
        0 <= i < old(getting)@.idle.len() && (#[trigger] old(getting)@.idle[i]).addr
            == connection.addr implies i == last by {
        if i < last {
            assert(old(getting)@.idle[i] == old(giving)@.idle[i]);
        }
    }
}

/// A connection that was made leads to the address, with the stream that came, made and used now,
/// and counts as out. One that could not be made is an error that holds the cause, and changes
/// nothing.
pub proof fn making_a_connection<S>(
    pool: &mut ConnectionPool<S>,
    addr: SocketAddress,
    attempt: ConnectAttempt<S>,
    now: Nanos,
    result: NetworkResult<PooledConnection<S>>,
)
    requires
        call_ensures(
            ConnectionPool::<S>::create_new_connection,
            (pool, addr, attempt, now),
            result,
        ),
    ensures
        result is Ok <==> attempt is Connected,
        attempt matches ConnectAttempt::Connected(stream) ==> result->Ok_0.stream == stream
            && result->Ok_0.addr == addr && result->Ok_0.created_at == now
            && result->Ok_0.last_used == now && final(pool)@.active == old(pool)@.active.wrapping_add(1) && final(pool)@.idle == old(pool)@.idle && final(pool)@.config
            == old(pool)@.config,
        attempt matches ConnectAttempt::Failed(cause) ==> result->Err_0 == NetworkError::Io(cause)
            && final(pool)@ == old(pool)@,
        attempt is TimedOut ==> result->Err_0 is Timeout && final(pool)@ == old(pool)@,
{
}

/// A sweep discards exactly what was last used longer ago than the configured timeout, and says how
/// much that was.
pub proof fn sweeping_the_pool<S>(pool: &mut ConnectionPool<S>, now: Nanos, removed: usize)
    requires
        call_ensures(ConnectionPool::<S>::cleanup_expired_connections, (pool, now), removed),
    ensures
        final(pool)@.config == old(pool)@.config,
        final(pool)@.active == old(pool)@.active,
        removed + final(pool)@.idle.len() == old(pool)@.idle.len(),
        forall|i: int|
            0 <= i < old(pool)@.idle.len() && now - (#[trigger] old(pool)@.idle[i]).last_used
                <= old(pool)@.config.idle_timeout ==> final(pool)@.idle.contains(
                old(pool)@.idle[i],
            ),
        forall|k: int|
            0 <= k < final(pool)@.idle.len() ==> old(pool)@.idle.contains(
                #[trigger] final(pool)@.idle[k],
            ) && now - final(pool)@.idle[k].last_used <= old(pool)@.config.idle_timeout,
{
    let from = crate::connection_pool::pruning_keeps_exactly_what_is_live(old(pool)@, now);
    let left = final(pool)@.idle;
    assert forall|i: int|
        0 <= i < old(pool)@.idle.len() && now - (#[trigger] old(pool)@.idle[i]).last_used <= old(pool)@.config.idle_timeout implies left.contains(old(pool)@.idle[i]) by {
        let k = choose|k: int| 0 <= k < from.len() && from[k] == i;
        assert(left[k] == old(pool)@.idle[i]);
    }
    assert forall|k: int| 0 <= k < left.len() implies old(pool)@.idle.contains(#[trigger] left[k])
        && now - left[k].last_used <= old(pool)@.config.idle_timeout by {
        let i = from[k];
        assert(from.contains(i));
        assert(old(pool)@.idle[i] == left[k]);
    }
}

/// A new pool is empty and configured as asked, and a pool tells what it holds.
pub proof fn what_a_pool_tells<S>(
    config: PoolConfig,
    made: ConnectionPool<S>,
    pool: &ConnectionPool<S>,
    active: usize,
    idle: usize,
    told: &PoolConfig,
)
    requires
        call_ensures(ConnectionPool::<S>::new, (config,), made),
        call_ensures(ConnectionPool::<S>::get_active_connections, (pool,), active),
        call_ensures(ConnectionPool::<S>::get_pooled_connections, (pool,), idle),
        call_ensures(ConnectionPool::<S>::get_config, (pool,), told),
    ensures
        made@.idle.len() == 0,
        made@.active == 0,
        made@.config == config,
        active == pool@.active,
        idle == pool@.idle.len(),
        *told == pool@.config,
{
}

/// A connection is made and used now, is used from then on when it says so, and has expired exactly
/// if its last use lies further back than the timeout.
pub proof fn the_life_of_a_connection<S>(
    stream: S,
    addr: SocketAddress,
    now: Nanos,
    made: PooledConnection<S>,
    used: &mut PooledConnection<S>,
    idle_timeout: Nanos,
    expired: bool,
)
    requires
        call_ensures(PooledConnection::<S>::new, (stream, addr, now), made),
        call_ensures(PooledConnection::<S>::update_last_used, (used, now), ()),
        call_ensures(PooledConnection::<S>::is_expired, (&made, idle_timeout, now), expired),
    ensures
        made.stream == stream && made.addr == addr && made.created_at == now && made.last_used
            == now,
        !expired,
        final(used).last_used == now,
        final(used).stream == old(used).stream,
        final(used).created_at == old(used).created_at,
        final(used).addr == old(used).addr,
{
}

/// Reading a header: a failure is handed on with its cause; a packet is refused exactly if it
/// announces fewer bytes than a header has or more than the limit; one that is all header is
/// complete; of any other the rest is to be read.
pub proof fn reading_a_header(
    bytes: Vec<u8>,
    header: RequestResponseHeader,
    cause: String,
    read: HeaderStep,
    failed: HeaderStep,
    timed_out: HeaderStep,
)
    requires
        call_ensures(recv_header, (HeaderOutcome::Read { bytes, header },), read),
        call_ensures(recv_header, (HeaderOutcome::Failed(cause),), failed),
        call_ensures(recv_header, (HeaderOutcome::TimedOut,), timed_out),
    ensures
        read is Fail <==> header.size < 8 || header.size > 1_048_576,
        read matches HeaderStep::Fail(error) ==> error is InvalidResponse,
        read is Parse <==> header.size == 8,
        read matches HeaderStep::Parse(packet) ==> packet@ == bytes@,
        read matches HeaderStep::ReadBody(partial) ==> partial.header@ == bytes@ && partial.size
            == header.size,
        failed == HeaderStep::Fail(NetworkError::Io(cause)),
        timed_out == HeaderStep::Fail(NetworkError::Timeout),
{
}

/// Reading the rest of a packet: as many bytes are missing as the header announces beyond itself,
/// and the packet is the header followed by them. A failure is handed on with its cause.
pub proof fn reading_the_rest_of_a_packet(
    partial: PartialPacket,
    missing: usize,
    body: Vec<u8>,
    cause: String,
    read: NetworkResult<Vec<u8>>,
    failed: NetworkResult<Vec<u8>>,
    timed_out: NetworkResult<Vec<u8>>,
)
    requires
        partial.size > 8,
        call_ensures(PartialPacket::missing, (&partial,), missing),
        call_ensures(PartialPacket::recv_body, (partial, BodyOutcome::Read(body)), read),
        call_ensures(PartialPacket::recv_body, (partial, BodyOutcome::Failed(cause)), failed),
        call_ensures(PartialPacket::recv_body, (partial, BodyOutcome::TimedOut), timed_out),
    ensures
        missing + 8 == partial.size,
        read matches Ok(packet) && packet@ == partial.header@ + body@,
        failed == Err::<Vec<u8>, _>(NetworkError::Io(cause)),
        timed_out == Err::<Vec<u8>, _>(NetworkError::Timeout),
{
}

/// Bytes that make a packet give that packet, and others an error.
pub proof fn parsing_a_packet(
    packet: QubicApiPacket,
    parsed: NetworkResult<Option<QubicApiPacket>>,
    refused: NetworkResult<Option<QubicApiPacket>>,
)
    requires
        call_ensures(recv_parsed, (Some(packet),), parsed),
        call_ensures(recv_parsed, (None::<QubicApiPacket>,), refused),
    ensures
        parsed == Ok::<_, NetworkError>(Some(packet)),
        refused matches Err(error) && error is InvalidResponse,
{
}

/// A collector takes in every packet that is not of the type that ends a response, behind those
/// before it and without ending, whatever else its header says. The packet that ends a response and
/// a failure end it. Nothing that was kept is lost.
pub proof fn collecting_a_packet(
    collector: &mut PacketCollector,
    result: NetworkResult<Option<QubicApiPacket>>,
)
    requires
        call_ensures(PacketCollector::recv_packet, (collector, result), ()),
        !old(collector)@.ended,
    ensures
        result matches Ok(Some(packet)) ==> if packet.header.entity_type
            == EntityType::ResponseEnd {
            final(collector)@.packets == old(collector)@.packets && final(collector)@.ended
        } else {
            final(collector)@.packets == old(collector)@.packets.push(packet@) && !final(collector)@.ended
        },
        result matches Ok(None) ==> final(collector)@.packets == old(collector)@.packets && !final(collector)@.ended,
        result is Ok && !final(collector)@.ended ==> final(collector)@.count == old(collector)@.count + 1,
        result is Err ==> final(collector)@.packets == old(collector)@.packets && final(collector)@.ended,
{
}

/// A collector starts with nothing, wants more exactly until the response has ended or a thousand
/// attempts were counted, and hands out what it kept, behind the first packet.
pub proof fn collecting_a_response(
    made: PacketCollector,
    collector: PacketCollector,
    more: bool,
    first: QubicApiPacket,
    rest: Vec<QubicApiPacket>,
    all: Vec<QubicApiPacket>,
    i: int,
)
    requires
        call_ensures(PacketCollector::new, (), made),
        call_ensures(PacketCollector::wants_more, (&collector,), more),
        call_ensures(PacketCollector::into_packets, (collector,), rest),
        call_ensures(finish_reception, (first, collector), all),
    ensures
        made@.packets.len() == 0 && made@.count == 0 && !made@.ended,
        more <==> !collector@.ended && collector@.count < 1000,
        rest@.len() == collector@.packets.len(),
        0 <= i < rest@.len() ==> rest@[i]@ == collector@.packets[i],
        all@.len() == 1 + collector@.packets.len(),
        all@[0]@ == first@,
        0 <= i < collector@.packets.len() ==> all@[i + 1]@ == collector@.packets[i],
{
    let views = crate::tcp_recv::packet_views(all@);
    assert(views.len() == all@.len());
    assert(views[0] == all@[0]@);
    if 0 <= i < rest@.len() {
        assert(crate::tcp_recv::packet_views(rest@)[i] == rest@[i]@);
        assert(views[i + 1] == all@[i + 1]@);
    }
}

/// A first packet that says that more follow starts a response of several; any other is the whole
/// response. A failure is handed on, and leaves the peer disconnected exactly if it says that the
/// connection is gone.
pub proof fn receiving_the_first_packet(
    peer: &mut AsyncPeer,
    result: NetworkResult<Option<QubicApiPacket>>,
    reception: Reception,
)
    requires
        call_ensures(async_qubic_tcp_receive_data, (peer, result), reception),
    ensures
        result matches Ok(Some(packet)) ==> if packet.header.multiple {
            reception matches Reception::Incomplete { first, rest } && first == packet
                && rest@.packets.len() == 0 && rest@.count == 0 && !rest@.ended
        } else {
            reception matches Reception::Complete(packets) && packets@ == seq![packet]
        },
        result matches Ok(None) ==> (reception matches Reception::Complete(packets) && packets@.len()
            == 0),
        result is Ok ==> final(peer)@ == old(peer)@,
        result matches Err(cause) ==> {
            let gone = cause is ConnectionFailed || cause is Timeout || cause is Io;
            &&& reception == (Reception::Failed { error: cause, disconnected: gone })
            &&& final(peer)@ == (crate::peer::PeerView {
                connected: old(peer)@.connected && !gone,
                ..old(peer)@
            })
        },
{
}

/// An error leaves a peer disconnected exactly if it says that the connection is gone. A connection
/// is alive exactly if a byte was read from it. A header is valid exactly if its size and its type
/// are.
pub proof fn judging_a_connection(
    peer: &mut AsyncPeer,
    error: NetworkError,
    disconnected: bool,
    outcome: ProbeOutcome,
    alive: bool,
    header: RequestResponseHeader,
    valid: NetworkResult<()>,
)
    requires
        call_ensures(handle_connection_error, (peer, &error), disconnected),
        call_ensures(test_connection_health, (outcome,), alive),
        call_ensures(validate_packet_header, (&header,), valid),
    ensures
        disconnected <==> error is ConnectionFailed || error is Timeout || error is Io,
        final(peer)@ == (crate::peer::PeerView {
            connected: old(peer)@.connected && !disconnected,
            ..old(peer)@
        }),
        alive <==> (outcome matches ProbeOutcome::Read(count) && count >= 1),
        valid is Ok <==> 8 <= header.size <= 1_048_576 && !(header.entity_type is Other),
        valid matches Err(cause) ==> cause is InvalidResponse,
{
}

/// A new peer has what its draft says, no connection and a record of its own with nothing counted.
/// One that the database refused is an error with the database's words, and opens no record.
pub proof fn making_a_peer(
    draft: NewPeer,
    entered: Result<(), String>,
    records: &mut PeerRecords,
    created_at: Nanos,
    result: NetworkResult<AsyncPeer>,
    key: u64,
)
    requires
        call_ensures(AsyncPeer::new, (draft, entered, records, created_at), result),
        old(records)@.wf(),
    ensures
        result is Ok <==> entered is Ok,
        result matches Ok(peer) ==> {
            let record = final(records)@.entries[peer@.record];
            &&& peer@.id == draft.id@
            &&& peer@.addr == draft.addr
            &&& peer@.whitelisted == draft.whitelisted
            &&& peer@.ping_time == draft.ping_time
            &&& peer@.created_at == created_at
            &&& !peer@.connected
            &&& !old(records)@.entries.contains_key(peer@.record)
            &&& final(records)@.entries.contains_key(peer@.record)
            &&& record.nick == draft.nick@
            &&& record.last_responded == draft.last_responded
            &&& record.stats.total_requests == 0
            &&& record.stats.successful_requests == 0
            &&& record.stats.failed_requests == 0
            &&& record.stats.avg_response_time_ms_bits == 0
            &&& record.stats.last_seen == 0
            &&& record.stats.uptime_percentage_bits == 0x4059_0000_0000_0000
            &&& old(records)@.entries.contains_key(key) ==> final(records)@.entries.contains_key(key) && final(records)@.entries[key] == old(records)@.entries[key]
        },
        entered matches Err(cause) ==> result->Err_0 == NetworkError::Database(cause) && final(records)@ == old(records)@,
{
}

/// A draft is for the address and the nick that were asked for, with nothing known yet.
pub proof fn drafting_a_peer(addr: SocketAddress, nick: &str, draft: NewPeer)
    requires
        call_ensures(NewPeer::new, (addr, nick), draft),
    ensures
        draft.addr == addr,
        draft.nick@ == nick@,
        draft.ping_time == 9999,
        !draft.whitelisted,
        draft.last_responded == 0,
        draft.id@.len() == 36,
{
}

/// A nick that is set through a copy of a peer is read through the peer, and not through others.
/// The same goes for the time of the last response.
pub proof fn copies_read_what_copies_wrote(
    peer: AsyncPeer,
    copy: AsyncPeer,
    other: AsyncPeer,
    records: &mut PeerRecords,
    nick: String,
    later: &PeerRecords,
    seen: String,
    seen_by_other: String,
    timed: &mut PeerRecords,
    time: Nanos,
    timed_later: &PeerRecords,
    seen_time: Nanos,
)
    requires
        call_ensures(AsyncPeer::clone, (&peer,), copy),
        call_ensures(AsyncPeer::set_nick, (&copy, records, nick), ()),
        call_ensures(AsyncPeer::get_nick, (&peer, later), seen),
        call_ensures(AsyncPeer::get_nick, (&other, later), seen_by_other),
        call_ensures(AsyncPeer::update_last_responded, (&copy, timed, time), ()),
        call_ensures(AsyncPeer::get_last_responded, (&peer, timed_later), seen_time),
        later@ == final(records)@,
        timed_later@ == final(timed)@,
        other@.record != peer@.record,
    ensures
        copy@ == peer@,
        seen@ == nick@,
        seen_by_other@ == old(records)@.entries[other@.record].nick,
        seen_time == time,
{
}

/// What is told of a peer is what it is, and setting one of its flags changes that flag alone.
pub proof fn flags_of_a_peer(
    peer: &mut AsyncPeer,
    connected: bool,
    pinged: &mut AsyncPeer,
    ping: u32,
    listed: &mut AsyncPeer,
    whitelisted: bool,
    told: AsyncPeer,
    is_connected: bool,
    told_ping: u32,
    is_whitelisted: bool,
    addr: SocketAddress,
    id: &str,
)
    requires
        call_ensures(AsyncPeer::set_connected, (peer, connected), ()),
        call_ensures(AsyncPeer::set_ping_time, (pinged, ping), ()),
        call_ensures(AsyncPeer::set_whitelisted, (listed, whitelisted), ()),
        call_ensures(AsyncPeer::is_connected, (&told,), is_connected),
        call_ensures(AsyncPeer::get_ping_time, (&told,), told_ping),
        call_ensures(AsyncPeer::is_whitelisted, (&told,), is_whitelisted),
        call_ensures(AsyncPeer::get_addr, (&told,), addr),
        call_ensures(AsyncPeer::get_id, (&told,), id),
    ensures
        final(peer)@ == (crate::peer::PeerView { connected, ..old(peer)@ }),
        final(pinged)@ == (crate::peer::PeerView { ping_time: ping, ..old(pinged)@ }),
        final(listed)@ == (crate::peer::PeerView { whitelisted, ..old(listed)@ }),
        is_connected == told@.connected,
        told_ping == told@.ping_time,
        is_whitelisted == told@.whitelisted,
        addr == told@.addr,
        id@ == told@.id,
{
}

/// A peer can be reached exactly if there was a connection, which then goes back to the pool. The
/// peer remembers which, and nothing else of it changes. Its uptime counts from when it was made
/// known.
pub proof fn checking_a_peer<S>(
    peer: &mut AsyncPeer,
    pool: &mut ConnectionPool<S>,
    connection: NetworkResult<PooledConnection<S>>,
    now: Nanos,
    healthy: bool,
    known: AsyncPeer,
    uptime: Nanos,
)
    requires
        call_ensures(AsyncPeer::health_check::<S>, (peer, pool, connection, now), healthy),
        call_ensures(AsyncPeer::get_uptime, (&known, now), uptime),
    ensures
        healthy <==> connection is Ok,
        final(peer)@ == (crate::peer::PeerView { connected: healthy, ..old(peer)@ }),
        !healthy ==> final(pool)@ == old(pool)@,
        connection matches Ok(c) ==> final(pool)@.active == old(pool)@.active.wrapping_sub(1)
            && final(pool)@.config == old(pool)@.config && final(pool)@.idle == (if now
            - c.last_used <= old(pool)@.config.idle_timeout && old(pool)@.idle.len() < old(pool)@.config.max_idle_connections {
            old(pool)@.idle.push(PooledConnection { last_used: now, ..c })
        } else {
            old(pool)@.idle
        }),
        known@.created_at <= now ==> known@.created_at + uptime == now,
{
}

/// Starting a worker enters it under its peer and hands out the one that ran; stopping it strikes
/// it off and hands it out; others are left alone.
pub proof fn running_workers(
    starting: &mut AsyncWorkerManager,
    id: &str,
    task: u64,
    replaced: Option<WorkerTask>,
    stopping: &mut AsyncWorkerManager,
    stopped: Option<WorkerTask>,
    restarting: &mut AsyncWorkerManager,
    ended: Option<WorkerTask>,
    exiting: &mut AsyncWorkerManager,
)
    requires
        call_ensures(AsyncWorkerManager::start_worker, (starting, id, task), replaced),
        call_ensures(AsyncWorkerManager::stop_worker, (stopping, id), stopped),
        call_ensures(AsyncWorkerManager::restart_worker, (restarting, id, task), ended),
        call_ensures(AsyncWorkerManager::worker_exited, (exiting, id), ()),
        old(stopping)@ == final(starting)@,
        old(restarting)@ == final(starting)@,
        old(exiting)@ == final(starting)@,
    ensures
        final(starting)@.workers.contains_key(id@),
        final(starting)@.workers[id@].task == task,
        final(starting)@.workers.remove(id@) == old(starting)@.workers.remove(id@),
        final(starting)@.requests == old(starting)@.requests,
        replaced is Some <==> old(starting)@.workers.contains_key(id@),
        replaced matches Some(worker) ==> worker.task == old(starting)@.workers[id@].task,
        stopped matches Some(worker) && worker.task == task && worker.peer_id@ == id@,
        final(stopping)@.workers == old(starting)@.workers.remove(id@),
        final(stopping)@.requests == old(starting)@.requests,
        ended matches Some(worker) && worker.task == task,
        final(restarting)@.workers == final(starting)@.workers,
        final(exiting)@.workers == old(starting)@.workers.remove(id@),
{
    let after = final(starting)@.workers;
    assert(after.remove(id@) =~= old(starting)@.workers.remove(id@));
    assert(final(restarting)@.workers =~= after);
}

/// A worker serves a request exactly if it is addressed to its peer or to nobody, and remembers it
/// first; it goes on after it missed some, ends when there are no more, and checks its peer when
/// none came.
pub proof fn taking_a_request(
    worker: Worker,
    matcher: &mut RequestMatcher,
    event: RequestEvent,
    action: WorkerAction,
)
    requires
        call_ensures(Worker::recv_request, (&worker, matcher, event), action),
    ensures
        event matches RequestEvent::Request(request) ==> {
            let own = match request.peer {
                Some(target) => target@ == worker.peer@.id,
                None => true,
            };
            &&& own ==> action == WorkerAction::Handle(request) && final(matcher)@ == old(matcher)@.insert(request.header.dejavu, request@)
            &&& !own ==> action is Receive && final(matcher)@ == old(matcher)@
        },
        !(event is Request) ==> final(matcher)@ == old(matcher)@,
        event is Lagged ==> action is Receive,
        event is Closed ==> action is Stop,
        event is TimedOut ==> action is CheckHealth,
{
}

/// A request that was recorded is found under its number until the matcher is cleaned, which
/// happens only when more than ten thousand are waiting.
pub proof fn matching_requests(
    matcher: &mut RequestMatcher,
    request: QubicApiPacket,
    later: &RequestMatcher,
    found: Option<&QubicApiPacket>,
    cleaning: &mut RequestMatcher,
    cleaned: bool,
)
    requires
        call_ensures(RequestMatcher::record, (matcher, &request), ()),
        call_ensures(RequestMatcher::find, (later, request.header.dejavu), found),
        call_ensures(RequestMatcher::cleanup, (cleaning,), cleaned),
        later@ == final(matcher)@,
    ensures
        found matches Some(waiting) && waiting@ == request@,
        final(matcher)@ == old(matcher)@.insert(request.header.dejavu, request@),
        cleaned <==> old(cleaning)@.len() > 10_000,
        cleaned ==> final(cleaning)@.dom() == Set::<u32>::empty(),
        !cleaned ==> final(cleaning)@ == old(cleaning)@,
{
}

/// A request that was sent and read gives its connection back and notes the time, whatever the
/// response was; one that was not sent does neither, and its error is handed on.
pub proof fn finishing_a_request<S>(
    worker: Worker,
    pool: &mut ConnectionPool<S>,
    records: &mut PeerRecords,
    exchange: Exchange<S>,
    now: Nanos,
    wall_time: Nanos,
    result: NetworkResult<()>,
    other: u64,
)
    requires
        call_ensures(
            Worker::handle_request::<S>,
            (&worker, pool, records, exchange, now, wall_time),
            result,
        ),
        old(records)@.entries.contains_key(worker.peer@.record),
    ensures
        exchange matches Exchange::NotConnected(cause) ==> result == Err::<(), _>(cause) && final(pool)@ == old(pool)@ && final(records)@ == old(records)@,
        exchange matches Exchange::NotSent(cause) ==> result == Err::<(), _>(cause) && final(pool)@
            == old(pool)@ && final(records)@ == old(records)@,
        exchange matches Exchange::Answered { connection, response } ==> {
            let key = worker.peer@.record;
            &&& result == response
            &&& final(records)@.entries[key].last_responded == wall_time
            &&& final(records)@.entries[key].nick == old(records)@.entries[key].nick
            &&& final(records)@.entries[key].stats == old(records)@.entries[key].stats
            &&& other != key ==> final(records)@.entries[other] == old(records)@.entries[other]
            &&& final(pool)@.active == old(pool)@.active.wrapping_sub(1)
            &&& final(pool)@.idle == if now - connection.last_used <= old(pool)@.config.idle_timeout && old(pool)@.idle.len() < old(pool)@.config.max_idle_connections {
                old(pool)@.idle.push(PooledConnection { last_used: now, ..connection })
            } else {
                old(pool)@.idle
            }
        },
{
}

/// A request is counted once, as what it was. A failure is followed by a pause of a tenth of a
/// second doubled for each failure in a row, and the fifth in a row ends the worker and leaves the
/// peer disconnected.
pub proof fn after_a_request(
    worker: &mut Worker,
    records: &mut PeerRecords,
    result: NetworkResult<()>,
    average: u64,
    aftermath: Aftermath,
    other: u64,
)
    requires
        call_ensures(Worker::request_handled, (worker, records, &result, average), aftermath),
        old(worker).consecutive_failures < 5,
        old(records)@.entries.contains_key(old(worker).peer@.record),
        old(records)@.entries[old(worker).peer@.record].stats.total_requests < u64::MAX,
        old(records)@.entries[old(worker).peer@.record].stats.successful_requests < u64::MAX,
        old(records)@.entries[old(worker).peer@.record].stats.failed_requests < u64::MAX,
    ensures
        result is Ok ==> final(worker).consecutive_failures == 0 && aftermath.backoff is None
            && !aftermath.disconnect,
        result is Err ==> final(worker).consecutive_failures == old(worker).consecutive_failures
            + 1 && aftermath.backoff == Some(
            (100_000_000 * vstd::arithmetic::power2::pow2(
                final(worker).consecutive_failures as nat,
            )) as u128,
        ),
        aftermath.disconnect <==> result is Err && old(worker).consecutive_failures == 4,
        final(worker).peer@ == (crate::peer::PeerView {
            connected: old(worker).peer@.connected && !aftermath.disconnect,
            ..old(worker).peer@
        }),
        ({
            let key = old(worker).peer@.record;
            let before = old(records)@.entries[key];
            let after = final(records)@.entries[key];
            &&& after.stats.total_requests == before.stats.total_requests + 1
            &&& result is Ok ==> after.stats.successful_requests
                == before.stats.successful_requests + 1 && after.stats.failed_requests
                == before.stats.failed_requests
            &&& result is Err ==> after.stats.failed_requests == before.stats.failed_requests + 1
                && after.stats.successful_requests == before.stats.successful_requests
            &&& after.stats.avg_response_time_ms_bits == average
            &&& after.nick == before.nick
            &&& after.last_responded == before.last_responded
            &&& other != key ==> final(records)@.entries[other] == old(records)@.entries[other]
        }),
{
    crate::worker::pauses_are_powers_of_two(final(worker).consecutive_failures);
}

/// A worker whose peer cannot be reached ends; any other goes on. A failure to send is handed on
/// with its cause.
pub proof fn other_steps_of_a_worker<S>(
    worker: &mut Worker,
    pool: &mut ConnectionPool<S>,
    connection: NetworkResult<PooledConnection<S>>,
    now: Nanos,
    action: WorkerAction,
    peer: AsyncPeer,
    made: Worker,
    cause: String,
    sent: NetworkResult<()>,
    unwritten: NetworkResult<()>,
    unflushed: NetworkResult<()>,
)
    requires
        call_ensures(Worker::health_checked::<S>, (worker, pool, connection, now), action),
        call_ensures(Worker::new, (peer,), made),
        call_ensures(send_data, (SendOutcome::Sent,), sent),
        call_ensures(send_data, (SendOutcome::WriteFailed(cause),), unwritten),
        call_ensures(send_data, (SendOutcome::FlushFailed(cause),), unflushed),
    ensures
        connection is Ok ==> action is Receive,
        connection is Err ==> action is Stop,
        final(worker).peer@ == (crate::peer::PeerView {
            connected: connection is Ok,
            ..old(worker).peer@
        }),
        final(worker).consecutive_failures == old(worker).consecutive_failures,
        connection is Err ==> final(pool)@ == old(pool)@,
        connection is Ok ==> final(pool)@.active == old(pool)@.active.wrapping_sub(1),
        made.peer@ == peer@,
        made.consecutive_failures == 0,
        sent is Ok,
        unwritten == Err::<(), _>(NetworkError::Io(cause)),
        unflushed == Err::<(), _>(NetworkError::Io(cause)),
{
}

/// Adding a peer starts exactly if the set is not full and does not know the address; a full set
/// says so first.
pub proof fn starting_to_add_a_peer<S>(
    set: &AsyncPeerSet<S>,
    addr: SocketAddress,
    nick: &str,
    result: NetworkResult<NewPeer>,
)
    requires
        call_ensures(AsyncPeerSet::<S>::add_peer, (set, addr, nick), result),
    ensures
        result is Ok <==> set@.peers.len() < set@.config.max_peers && !set@.addrs.contains_key(
            addr.spec_key(),
        ),
        set@.peers.len() >= set@.config.max_peers ==> (result matches Err(error) && error
            is PeerLimitReached),
        set@.peers.len() < set@.config.max_peers && set@.addrs.contains_key(addr.spec_key()) ==> (
        result matches Err(NetworkError::ConnectionFailed(cause)) && cause@
            == "Peer already exists"@),
        result matches Ok(draft) ==> draft.addr == addr && draft.nick@ == nick@ && draft.ping_time
            == 9999 && !draft.whitelisted && draft.last_responded == 0,
{
}

/// A peer that can be reached is entered as connected, its address leads to it, its worker runs as
/// the given task, and it is to be announced. One that cannot changes nothing and gives an error
/// that names its address.
pub proof fn finishing_to_add_a_peer<S>(
    set: &mut AsyncPeerSet<S>,
    peer: AsyncPeer,
    connection: NetworkResult<PooledConnection<S>>,
    text: &str,
    task: u64,
    now: Nanos,
    result: NetworkResult<AddedPeer>,
)
    requires
        call_ensures(
            AsyncPeerSet::<S>::finish_add_peer,
            (set, peer, connection, text, task, now),
            result,
        ),
    ensures
        result is Ok <==> connection is Ok,
        result matches Ok(added) ==> {
            let id = peer@.id;
            &&& added.announce
            &&& added.peer@ == (crate::peer::PeerView { connected: true, ..peer@ })
            &&& added.replaced is Some <==> old(set)@.manager.workers.contains_key(id)
            &&& final(set)@.peers == old(set)@.peers.insert(
                id,
                crate::peer::PeerView { connected: true, ..peer@ },
            )
            &&& final(set)@.addrs == old(set)@.addrs.insert(peer@.addr.spec_key(), id)
            &&& final(set)@.manager.workers.contains_key(id)
            &&& final(set)@.manager.workers[id].task == task
            &&& final(set)@.manager.workers.remove(id) == old(set)@.manager.workers.remove(id)
            &&& final(set)@.records == old(set)@.records
            &&& final(set)@.config == old(set)@.config
            &&& final(set)@.turn == old(set)@.turn
            &&& final(set)@.pool.active == old(set)@.pool.active.wrapping_sub(1)
        },
        result is Err ==> final(set)@ == old(set)@ && (
        result matches Err(NetworkError::ConnectionFailed(cause)) && cause@
            == "Failed to connect to "@ + text@),
{
    if result is Ok {
        let id = peer@.id;
        assert(final(set)@.manager.workers.remove(id) =~= old(set)@.manager.workers.remove(id));
        crate::peers::adding_enters_one_peer(old(set)@, peer@, connection->Ok_0, task, now);
    }
}

/// A peer that was added is refused under its address; removed by its id it is reported with its
/// task, and the set takes its address again if it was not full before.
pub proof fn adding_refusing_and_removing<S>(
    adding: &mut AsyncPeerSet<S>,
    peer: AsyncPeer,
    connection: PooledConnection<S>,
    text: &str,
    task: u64,
    now: Nanos,
    added: NetworkResult<AddedPeer>,
    full: &AsyncPeerSet<S>,
    again: NetworkResult<NewPeer>,
    removing: &mut AsyncPeerSet<S>,
    id: &str,
    removed: Option<RemovedPeer>,
    free: &AsyncPeerSet<S>,
    anew: NetworkResult<NewPeer>,
)
    requires
        call_ensures(
            AsyncPeerSet::<S>::finish_add_peer,
            (adding, peer, Ok(connection), text, task, now),
            added,
        ),
        call_ensures(AsyncPeerSet::<S>::add_peer, (full, peer@.addr, text), again),
        call_ensures(AsyncPeerSet::<S>::remove_peer, (removing, id), removed),
        call_ensures(AsyncPeerSet::<S>::add_peer, (free, peer@.addr, text), anew),
        full@ == final(adding)@,
        old(removing)@ == final(adding)@,
        free@ == final(removing)@,
        id@ == peer@.id,
        !old(adding)@.peers.contains_key(peer@.id),
        old(adding)@.peers.dom().finite(),
        old(adding)@.peers.len() < old(adding)@.config.max_peers,
    ensures
        added is Ok,
        again is Err,
        removed matches Some(report) && report.id@ == id@ && (report.stopped matches Some(worker)
            && worker.task == task),
        final(removing)@.peers == old(adding)@.peers,
        anew is Ok,
{
    finishing_to_add_a_peer(adding, peer, Ok(connection), text, task, now, added);
    assert(final(removing)@.peers =~= old(adding)@.peers);
    crate::peers::removing_takes_out_one_peer(old(removing)@, id@);
}

/// A peer is removed, reported and its worker handed out exactly if the set held its id, whatever
/// the state of the peer. Its address goes with it, and nothing else does.
pub proof fn removing_a_peer<S>(set: &mut AsyncPeerSet<S>, id: &str, removed: Option<RemovedPeer>)
    requires
        call_ensures(AsyncPeerSet::<S>::remove_peer, (set, id), removed),
    ensures
        removed is Some <==> old(set)@.peers.contains_key(id@),
        removed is None ==> final(set)@ == old(set)@,
        removed matches Some(report) ==> {
            &&& report.id@ == id@
            &&& report.stopped is Some <==> old(set)@.manager.workers.contains_key(id@)
            &&& report.stopped matches Some(worker) ==> worker.task == old(set)@.manager.workers[id@].task
            &&& final(set)@.peers == old(set)@.peers.remove(id@)
            &&& final(set)@.addrs == old(set)@.addrs.remove(old(set)@.peers[id@].addr.spec_key())
            &&& final(set)@.manager.workers == old(set)@.manager.workers.remove(id@)
            &&& final(set)@.manager.requests == old(set)@.manager.requests
            &&& final(set)@.records == old(set)@.records
            &&& final(set)@.pool == old(set)@.pool
            &&& final(set)@.config == old(set)@.config
            &&& final(set)@.turn == old(set)@.turn
        },
{
    crate::peers::removing_takes_out_one_peer(old(set)@, id@);
}

/// Removing by an address that the set does not know does nothing. Otherwise the address goes, and
/// the peer that it leads to, if the set holds it, is removed and reported with its worker.
pub proof fn removing_a_peer_by_its_address<S>(
    set: &mut AsyncPeerSet<S>,
    addr: SocketAddress,
    removed: Option<RemovedPeer>,
)
    requires
        call_ensures(AsyncPeerSet::<S>::remove_peer_by_addr, (set, addr), removed),
    ensures
        !old(set)@.addrs.contains_key(addr.spec_key()) ==> removed is None && final(set)@ == old(set)@,
        old(set)@.addrs.contains_key(addr.spec_key()) ==> {
            let id = old(set)@.addrs[addr.spec_key()];
            &&& removed is Some <==> old(set)@.peers.contains_key(id)
            &&& removed matches Some(report) ==> report.id@ == id && (report.stopped is Some
                <==> old(set)@.manager.workers.contains_key(id)) && (
            report.stopped matches Some(worker) ==> worker.task == old(set)@.manager.workers[id].task) && final(set)@.manager.workers == old(set)@.manager.workers.remove(id)
            &&& final(set)@.peers == old(set)@.peers.remove(id)
            &&& !final(set)@.addrs.contains_key(addr.spec_key())
            &&& final(set)@.records == old(set)@.records
            &&& final(set)@.pool == old(set)@.pool
        },
{
}

/// Without peers a request is an error. Requests of five types are handed on as they are, for all
/// peers. Any other, whatever its number, is addressed to one connected peer and otherwise
/// unchanged, or is an error; without connected peers it is one.
pub proof fn making_a_request<S, F: Fn(&AsyncPeer, PeerStats) -> Option<i64>>(
    set: &mut AsyncPeerSet<S>,
    request: QubicApiPacket,
    rank: F,
    result: NetworkResult<QubicApiPacket>,
)
    requires
        call_ensures(AsyncPeerSet::<S>::make_request::<F>, (set, request, rank), result),
        old(set)@.wf(),
    ensures
        old(set)@.peers.len() == 0 ==> (
        result matches Err(NetworkError::ConnectionFailed(cause)) && cause@
            == "No peers available"@),
        old(set)@.peers.len() > 0 && (request.api_type is RequestCurrentTickInfo
            || request.api_type is RequestedQuorumTick || request.api_type is RequestTickData
            || request.api_type is RequestContractFunction || request.api_type is RequestAssets)
            ==> result == Ok::<_, NetworkError>(request),
        old(set)@.peers.len() > 0 && !(request.api_type is RequestCurrentTickInfo
            || request.api_type is RequestedQuorumTick || request.api_type is RequestTickData
            || request.api_type is RequestContractFunction || request.api_type is RequestAssets)
            ==> match result {
            Ok(sent) => {
                &&& sent.peer is Some
                &&& old(set)@.peers.contains_key(sent.peer->0@)
                &&& old(set)@.peers[sent.peer->0@].connected
                &&& sent.api_type == request.api_type
                &&& sent.header == request.header
                &&& sent.data@ == request.data@
            },
            Err(error) => error matches NetworkError::ConnectionFailed(cause) && cause@
                == "No healthy peers available"@ && (old(set)@.config.load_balancing is ScoreBased
                || forall|id: Seq<char>| #[trigger]
                old(set)@.peers.contains_key(id) ==> !old(set)@.peers[id].connected),
        },
        final(set)@.peers == old(set)@.peers,
        final(set)@.addrs == old(set)@.addrs,
        final(set)@.manager == old(set)@.manager,
{
    let before = old(set)@;
    if before.peers.len() > 0 && !(request.api_type is RequestCurrentTickInfo || request.api_type
        is RequestedQuorumTick || request.api_type is RequestTickData || request.api_type
        is RequestContractFunction || request.api_type is RequestAssets) && result is Err {
        let chosen = choose|chosen: Option<Seq<char>>| #[trigger]
            crate::peers::may_select(before, rank, chosen) && crate::peers::addressed(
                request,
                chosen,
                result,
            );
        crate::peers::requests_go_to_connected_peers(before, rank, chosen);
        if !(before.config.load_balancing is ScoreBased) {
            assert(before.connected().len() == 0);
            assert(before.connected().finite()) by {
                assert(before.connected().subset_of(before.peers.dom()));
                vstd::set_lib::lemma_len_subset(before.connected(), before.peers.dom());
            }
            assert forall|id: Seq<char>| #[trigger]
                before.peers.contains_key(id) implies !before.peers[id].connected by {
                if before.peers[id].connected {
                    assert(before.connected().contains(id));
                    vstd::set::axiom_set_contains_len(before.connected(), id);
                }
            }
        }
    }
}

/// A check of one peer says whether there was a connection, and notes it of that peer, if the set
/// holds it, alone.
pub proof fn checking_a_peer_of_a_set<S>(
    set: &mut AsyncPeerSet<S>,
    id: &str,
    connection: NetworkResult<PooledConnection<S>>,
    now: Nanos,
    healthy: bool,
)
    requires
        call_ensures(AsyncPeerSet::<S>::check_peer, (set, id, connection, now), healthy),
    ensures
        healthy <==> connection is Ok,
        old(set)@.peers.contains_key(id@) ==> final(set)@.peers == old(set)@.peers.insert(
            id@,
            crate::peer::PeerView { connected: healthy, ..old(set)@.peers[id@] },
        ),
        !old(set)@.peers.contains_key(id@) ==> final(set)@.peers == old(set)@.peers,
        final(set)@.addrs == old(set)@.addrs,
        final(set)@.manager == old(set)@.manager,
        final(set)@.records == old(set)@.records,
        final(set)@.turn == old(set)@.turn,
        connection is Err ==> final(set)@.pool == old(set)@.pool,
        connection is Ok ==> final(set)@.pool.active == old(set)@.pool.active.wrapping_sub(1),
{
}

/// After a periodic check no id that was found unreachable has a peer or a worker, and all other
/// ids have what they had. The reports name each of those results in their order, the first
/// mention of an id with the worker that it had. Returns the places of those results.
pub proof fn dropping_the_unreachable<S>(
    set: &mut AsyncPeerSet<S>,
    results: Vec<(String, bool)>,
    dropped: Vec<RemovedPeer>,
    id: Seq<char>,
) -> (from: Seq<int>)
    requires
        call_ensures(AsyncPeerSet::<S>::drop_unreachable_peers, (set, &results), dropped),
    ensures
        ({
            let failed = exists|i: int|
                0 <= i < results@.len() && (#[trigger] results@[i]).0@ == id && !results@[i].1;
            &&& failed ==> !final(set)@.peers.contains_key(id) && !final(set)@.manager.workers.contains_key(id)
            &&& !failed ==> (final(set)@.peers.contains_key(id) <==> old(set)@.peers.contains_key(
                id,
            )) && (final(set)@.peers.contains_key(id) ==> final(set)@.peers[id] == old(set)@.peers[id]) && (final(set)@.manager.workers.contains_key(id) <==> old(set)@.manager.workers.contains_key(id)) && (final(set)@.manager.workers.contains_key(id)
                ==> final(set)@.manager.workers[id] == old(set)@.manager.workers[id])
        }),
        dropped@.len() == from.len(),
        forall|k: int, l: int| 0 <= k < l < from.len() ==> #[trigger] from[k] < #[trigger] from[l],
        forall|i: int|
            0 <= i < results@.len() ==> (from.contains(i) <==> !(#[trigger] results@[i]).1),
        forall|k: int|
            #![trigger from[k]]
            0 <= k < from.len() ==> {
                let name = results@[from[k]].0@;
                let mentioned = exists|i: int|
                    0 <= i < from[k] && (#[trigger] results@[i]).0@ == name && !results@[i].1;
                &&& 0 <= from[k] < results@.len()
                &&& dropped@[k].id@ == name
                &&& dropped@[k].stopped is Some <==> !mentioned && old(set)@.manager.workers.contains_key(name)
                &&& dropped@[k].stopped matches Some(worker) ==> worker.task == old(set)@.manager.workers[name].task
            },
{
    crate::peers::periodic_check_stops_the_unreachable(old(set)@, results@, id);
    let from = crate::peers::periodic_check_reports_every_worker(old(set)@, results@);
    let views = crate::peers::removed_views(dropped@);
    assert(views.len() == dropped@.len());
    assert forall|k: int| #![trigger from[k]] 0 <= k < from.len() implies {
        let name = results@[from[k]].0@;
        let mentioned = exists|i: int|
            0 <= i < from[k] && (#[trigger] results@[i]).0@ == name && !results@[i].1;
        &&& 0 <= from[k] < results@.len()
        &&& dropped@[k].id@ == name
        &&& dropped@[k].stopped is Some <==> !mentioned && old(set)@.manager.workers.contains_key(name)
        &&& dropped@[k].stopped matches Some(worker) ==> worker.task == old(set)@.manager.workers[name].task
    } by {
        assert(views[k] == dropped@[k]@);
    }
    from
}

/// After a check of all peers none that was found unreachable is left, nor its worker, and all
/// others have what they had. The reports are those peers, each once, with the worker that it had.
pub proof fn removing_the_unreachable<S>(
    set: &mut AsyncPeerSet<S>,
    results: Vec<(String, bool)>,
    removed: Vec<RemovedPeer>,
    id: Seq<char>,
)
    requires
        call_ensures(AsyncPeerSet::<S>::health_check_all_peers, (set, &results), removed),
    ensures
        ({
            let failed = exists|i: int|
                0 <= i < results@.len() && (#[trigger] results@[i]).0@ == id && !results@[i].1;
            let gone = failed && old(set)@.peers.contains_key(id);
            &&& failed ==> !final(set)@.peers.contains_key(id)
            &&& gone ==> !final(set)@.manager.workers.contains_key(id)
            &&& !failed ==> (final(set)@.peers.contains_key(id) <==> old(set)@.peers.contains_key(
                id,
            )) && (final(set)@.peers.contains_key(id) ==> final(set)@.peers[id] == old(set)@.peers[id])
            &&& !gone ==> (final(set)@.manager.workers.contains_key(id) <==> old(set)@.manager.workers.contains_key(id))
            &&& gone <==> exists|k: int|
                0 <= k < removed@.len() && (#[trigger] removed@[k]).id@ == id
            &&& forall|k: int|
                0 <= k < removed@.len() && (#[trigger] removed@[k]).id@ == id ==> (
                removed@[k].stopped is Some <==> old(set)@.manager.workers.contains_key(id)) && (
                removed@[k].stopped matches Some(worker) ==> worker.task == old(set)@.manager.workers[id].task)
        }),
        forall|k: int, l: int|
            0 <= k < l < removed@.len() ==> (#[trigger] removed@[k]).id@ != (
            #[trigger] removed@[l]).id@,
{
    crate::peers::health_check_stops_the_unreachable(old(set)@, results@, id);
    crate::peers::health_check_reports_every_worker(old(set)@, results@, id);
    let reports = old(set)@.all_removals(crate::peers::unreachable(results@));
    assert(reports == crate::peers::removed_views(removed@));
    assert forall|k: int| 0 <= k < removed@.len() implies #[trigger] reports[k] == removed@[k]@ by {
    }
    assert forall|k: int, l: int| 0 <= k < l < removed@.len() implies (#[trigger] removed@[k]).id@
        != (#[trigger] removed@[l]).id@ by {
        assert(reports[k].id != reports[l].id);
    }
    assert forall|k: int| 0 <= k < removed@.len() && (#[trigger] removed@[k]).id@ == id implies (
    removed@[k].stopped is Some <==> old(set)@.manager.workers.contains_key(id)) && (
    removed@[k].stopped matches Some(worker) ==> worker.task == old(set)@.manager.workers[id].task) by {
        assert(reports[k].id == id);
    }
    if exists|k: int| 0 <= k < reports.len() && (#[trigger] reports[k]).id == id {
        let k = choose|k: int| 0 <= k < reports.len() && (#[trigger] reports[k]).id == id;
        assert(removed@[k].id@ == id);
    }
    if exists|k: int| 0 <= k < removed@.len() && (#[trigger] removed@[k]).id@ == id {
        let k = choose|k: int| 0 <= k < removed@.len() && (#[trigger] removed@[k]).id@ == id;
        assert(reports[k].id == id);
    }
}

/// Reconnecting starts exactly for a peer that the set holds. It ends with a new worker exactly if
/// the set still holds the peer and there was a connection, and the worker that ran is handed out.
pub proof fn reconnecting_a_peer<S>(
    known: &AsyncPeerSet<S>,
    id: &str,
    found: NetworkResult<AsyncPeer>,
    set: &mut AsyncPeerSet<S>,
    peer: AsyncPeer,
    connection: NetworkResult<PooledConnection<S>>,
    task: u64,
    now: Nanos,
    result: NetworkResult<AddedPeer>,
)
    requires
        call_ensures(AsyncPeerSet::<S>::reconnect_peer, (known, id), found),
        call_ensures(
            AsyncPeerSet::<S>::finish_reconnect_peer,
            (set, id, peer, connection, task, now),
            result,
        ),
    ensures
        found is Ok <==> known@.peers.contains_key(id@),
        found matches Ok(copy) ==> copy@ == known@.peers[id@],
        found is Err ==> (found matches Err(NetworkError::ConnectionFailed(cause)) && cause@
            == "Peer not found"@),
        result is Ok <==> old(set)@.peers.contains_key(id@) && connection is Ok,
        result matches Ok(added) ==> !added.announce && added.peer@ == (crate::peer::PeerView {
            connected: true,
            ..peer@
        }) && (added.replaced is Some <==> old(set)@.manager.workers.contains_key(id@)) && final(set)@.manager.workers.contains_key(id@) && final(set)@.manager.workers[id@].task == task
            && final(set)@.manager.workers.remove(id@) == old(set)@.manager.workers.remove(id@),
        result is Err ==> final(set)@.manager == old(set)@.manager,
        !old(set)@.peers.contains_key(id@) ==> (
        result matches Err(NetworkError::ConnectionFailed(cause)) && cause@ == "Peer not found"@),
        old(set)@.peers.contains_key(id@) && connection is Err ==> (
        result matches Err(NetworkError::ConnectionFailed(cause)) && cause@
            == "Health check failed"@),
        connection is Ok ==> final(set)@.pool.active == old(set)@.pool.active.wrapping_sub(1),
        connection is Err ==> final(set)@.pool == old(set)@.pool,
        final(set)@.peers == old(set)@.peers,
        final(set)@.addrs == old(set)@.addrs,
        final(set)@.records == old(set)@.records,
{
    if result is Ok {
        assert(final(set)@.manager.workers.remove(id@) =~= old(set)@.manager.workers.remove(id@));
    }
}

/// A set tells how many peers it holds and how many of them are connected, and lists each of them
/// once with what is known of it.
pub proof fn what_a_set_tells<S>(
    set: &AsyncPeerSet<S>,
    count: usize,
    connected: usize,
    ids: Vec<String>,
    stats: Vec<(String, PeerStats)>,
    targets: Vec<(String, SocketAddress)>,
    id: Seq<char>,
)
    requires
        call_ensures(AsyncPeerSet::<S>::get_peer_count, (set,), count),
        call_ensures(AsyncPeerSet::<S>::get_connected_peer_count, (set,), connected),
        call_ensures(AsyncPeerSet::<S>::get_peer_ids, (set,), ids),
        call_ensures(AsyncPeerSet::<S>::get_peer_stats, (set,), stats),
        call_ensures(AsyncPeerSet::<S>::health_check_targets, (set,), targets),
    ensures
        count == set@.peers.len(),
        connected == set@.peers.dom().filter(|name: Seq<char>| set@.peers[name].connected).len(),
        set@.peers.contains_key(id) <==> exists|i: int|
            0 <= i < ids@.len() && (#[trigger] ids@[i])@ == id,
        forall|i: int, j: int|
            0 <= i < j < ids@.len() ==> (#[trigger] ids@[i])@ != (#[trigger] ids@[j])@,
        set@.peers.contains_key(id) <==> exists|i: int|
            0 <= i < stats@.len() && (#[trigger] stats@[i]).0@ == id,
        forall|i: int|
            0 <= i < stats@.len() ==> (#[trigger] stats@[i]).1
                == set@.records.entries[set@.peers[stats@[i].0@].record].stats,
        set@.peers.contains_key(id) <==> exists|i: int|
            0 <= i < targets@.len() && (#[trigger] targets@[i]).0@ == id,
        forall|i: int|
            0 <= i < targets@.len() ==> (#[trigger] targets@[i]).1
                == set@.peers[targets@[i].0@].addr,
{
    assert(set@.connected() == set@.peers.dom().filter(
        |name: Seq<char>| set@.peers[name].connected,
    ));
    if set@.peers.contains_key(id) {
        assert(set@.peers.dom().contains(id));
    }
    if exists|i: int| 0 <= i < ids@.len() && (#[trigger] ids@[i])@ == id {
        let i = choose|i: int| 0 <= i < ids@.len() && (#[trigger] ids@[i])@ == id;
        assert(set@.peers.dom().contains(ids@[i]@));
    }
    assert forall|i: int| 0 <= i < stats@.len() implies (#[trigger] stats@[i]).1
        == set@.records.entries[set@.peers[stats@[i].0@].record].stats by {
        assert(set@.peers.contains_key(stats@[i].0@));
    }
    assert forall|i: int| 0 <= i < targets@.len() implies (#[trigger] targets@[i]).1
        == set@.peers[targets@[i].0@].addr by {
        assert(set@.peers.contains_key(targets@[i].0@));
    }
    if exists|i: int| 0 <= i < stats@.len() && (#[trigger] stats@[i]).0@ == id {
        let i = choose|i: int| 0 <= i < stats@.len() && (#[trigger] stats@[i]).0@ == id;
        assert(set@.peers.contains_key(stats@[i].0@));
    }
    if exists|i: int| 0 <= i < targets@.len() && (#[trigger] targets@[i]).0@ == id {
        let i = choose|i: int| 0 <= i < targets@.len() && (#[trigger] targets@[i]).0@ == id;
        assert(set@.peers.contains_key(targets@[i].0@));
    }
}

/// A new set holds nothing and is configured as asked, and one for callers who want words is
/// configured as usual.
pub proof fn new_sets_are_empty<S>(
    config: PeerSetConfig,
    set: AsyncPeerSet<S>,
    worded: PeerSet<S>,
)
    requires
        call_ensures(AsyncPeerSet::<S>::new, (config,), set),
        call_ensures(PeerSet::<S>::new, (), worded),
    ensures
        set@.config == config,
        set@.peers == Map::<Seq<char>, crate::peer::PeerView>::empty(),
        set@.addrs == Map::<crate::addr::AddressKey, Seq<char>>::empty(),
        set@.turn == 0,
        set@.pool.idle.len() == 0,
        set@.pool.active == 0,
        set@.pool.config == config.pool_config,
        worded.async_peer_set@.peers == Map::<Seq<char>, crate::peer::PeerView>::empty(),
        worded.async_peer_set@.config.max_peers == 50,
        worded.async_peer_set@.config.load_balancing is ScoreBased,
        worded.async_peer_set@.config.pool_config.idle_timeout == 60_000_000_000,
        worded.async_peer_set@.config.pool_config.max_idle_connections == 10,
        worded.async_peer_set@.config.pool_config.max_connections_per_peer == 5,
        worded.async_peer_set@.config.pool_config.connection_timeout == 5_000_000_000,
{
}

/// A set for callers who want words refuses what is no address, and otherwise does what the set
/// does, with the error in words.
pub proof fn sets_that_use_words<S>(
    set: &PeerSet<S>,
    addr: Option<SocketAddress>,
    result: Result<NewPeer, String>,
    removing: &mut PeerSet<S>,
    id: &str,
    removed: Option<RemovedPeer>,
)
    requires
        call_ensures(PeerSet::<S>::add_peer, (set, addr), result),
        call_ensures(PeerSet::<S>::delete_peer_by_id, (removing, id), removed),
    ensures
        addr is None ==> (result matches Err(text) && text@ == "Invalid IP address format"@),
        addr matches Some(a) ==> {
            let peers = set.async_peer_set@;
            &&& result is Ok <==> peers.peers.len() < peers.config.max_peers
                && !peers.addrs.contains_key(a.spec_key())
            &&& peers.peers.len() >= peers.config.max_peers ==> (result matches Err(text) && text@
                == "Peer limit reached"@)
            &&& peers.peers.len() < peers.config.max_peers && peers.addrs.contains_key(
                a.spec_key(),
            ) ==> (result matches Err(text) && text@ == "Connection failed: "@
                + "Peer already exists"@)
            &&& result matches Ok(draft) ==> draft.addr == a && draft.nick@ == ""@
        },
        removed is Some <==> old(removing).async_peer_set@.peers.contains_key(id@),
        final(removing).async_peer_set@.peers == old(removing).async_peer_set@.peers.remove(id@),
{
}

/// The pause after failures in a row is a tenth of a second, doubled for each, ten times at most.
pub proof fn pausing(failures: u32, pause: Nanos)
    requires
        call_ensures(backoff, (failures,), pause),
    ensures
        pause == 100_000_000 * vstd::arithmetic::power2::pow2(
            if failures <= 10 {
                failures as nat
            } else {
                10
            },
        ),
{
}

/// What an error is and says, whatever its cause.
pub proof fn telling_errors(
    error: NetworkError,
    recoverable: bool,
    permanent: bool,
    message: String,
)
    requires
        call_ensures(NetworkError::is_recoverable, (&error,), recoverable),
        call_ensures(NetworkError::is_permanent, (&error,), permanent),
        call_ensures(NetworkError::message, (&error,), message),
    ensures
        recoverable <==> error is Timeout || error is ConnectionFailed || error is PoolExhausted
            || error is Network,
        permanent <==> error is PeerLimitReached || error is InvalidConfig || error is PeerNotFound,
        match error {
            NetworkError::Io(cause) => message@ == "IO error: "@ + cause@,
            NetworkError::ConnectionFailed(cause) => message@ == "Connection failed: "@ + cause@,
            NetworkError::Timeout => message@ == "Connection timeout"@,
            NetworkError::InvalidResponse => message@ == "Invalid response"@,
            NetworkError::PeerLimitReached => message@ == "Peer limit reached"@,
            NetworkError::Database(cause) => message@ == "Database error: "@ + cause@,
            NetworkError::Serialization(cause) => message@ == "Serialization error: "@ + cause@,
            NetworkError::Network(cause) => message@ == "Network error: "@ + cause@,
            NetworkError::PeerNotFound => message@ == "Peer not found"@,
            NetworkError::PoolExhausted => message@ == "Connection pool exhausted"@,
            NetworkError::InvalidConfig(cause) => message@ == "Invalid configuration: "@ + cause@,
        },
{
}

/// Each strategy chooses as it should among a given list, and only turns are counted.
pub proof fn choosing_a_candidate(
    strategy: LoadBalancingStrategy,
    candidates: Vec<Candidate>,
    turn: &mut u32,
    chosen: Option<String>,
)
    requires
        call_ensures(select_candidate, (strategy, candidates, turn), chosen),
    ensures
        candidates@.len() == 0 ==> chosen is None && *final(turn) == *old(turn),
        !(strategy is RoundRobin) ==> *final(turn) == *old(turn),
        candidates@.len() > 0 && strategy is RoundRobin ==> chosen is Some && chosen->0@
            == candidates@[*old(turn) as int % candidates@.len() as int].id@ && *final(turn) == if *old(turn)
            == u32::MAX {
            0
        } else {
            *old(turn) + 1
        },
        candidates@.len() > 0 && (strategy is Random || strategy is LeastConnections) ==> chosen
            is Some && exists|i: int|
            0 <= i < candidates@.len() && (#[trigger] candidates@[i]).id@ == chosen->0@,
        candidates@.len() > 0 && strategy is ScoreBased ==> match chosen {
            Some(id) => exists|i: int|
                0 <= i < candidates@.len() && (#[trigger] candidates@[i]).id@ == id@
                    && candidates@[i].rank is Some && candidates@[i].rank->0 > 0 && forall|j: int|
                    0 <= j < candidates@.len() && (#[trigger] candidates@[j]).rank is Some
                        ==> candidates@[j].rank->0 < candidates@[i].rank->0 || (
                    candidates@[j].rank->0 == candidates@[i].rank->0 && i <= j),
            None => forall|j: int|
                0 <= j < candidates@.len() && (#[trigger] candidates@[j]).rank is Some
                    ==> candidates@[j].rank->0 <= 0,
        },
{
    crate::selection::strategies_choose_as_they_should(
        candidates@,
        *old(turn),
        crate::packet::name_view(chosen),
    );
}

/// The best peers of a set are connected peers of it, none twice, as many as were asked for or all.
pub proof fn getting_the_best_peers<S, F: Fn(&AsyncPeer, PeerStats) -> i64>(
    set: &AsyncPeerSet<S>,
    count: usize,
    rank: F,
    best: Vec<AsyncPeer>,
)
    requires
        call_ensures(AsyncPeerSet::<S>::get_best_peers::<F>, (set, count, rank), best),
        set@.wf(),
    ensures
        best@.len() <= count,
        best@.len() == count || best@.len() == set@.peers.dom().filter(
            |id: Seq<char>| set@.peers[id].connected,
        ).len(),
        forall|k: int|
            0 <= k < best@.len() ==> set@.peers.contains_key((#[trigger] best@[k])@.id)
                && set@.peers[best@[k]@.id] == best@[k]@ && best@[k]@.connected,
        forall|k: int, l: int|
            0 <= k < l < best@.len() ==> (#[trigger] best@[k])@.id != (#[trigger] best@[l])@.id,
{
    assert(set@.connected() == set@.peers.dom().filter(
        |id: Seq<char>| set@.peers[id].connected,
    ));
    let listed = choose|listed: Seq<(String, AsyncPeer)>| #[trigger]
        set@.lists(listed) && crate::listing::is_best_among(
            listed,
            set@.records,
            rank,
            count,
            best@,
        );
    let entries = crate::listing::connected_in(listed);
    crate::peers::lemma_listing(set@, listed);
    let places = crate::listing::connected_entries_keep_their_order(listed);
    let found = crate::listing::best_of_a_list_are_the_best(
        listed,
        set@.records,
        rank,
        count,
        best@,
    );
    assert forall|k: int| 0 <= k < best@.len() implies set@.peers.contains_key(
        (#[trigger] best@[k])@.id,
    ) && set@.peers[best@[k]@.id] == best@[k]@ && best@[k]@.connected by {
        let a = found.1[k];
        let i = places[a];
        assert(entries[a] == listed[i]);
        assert(set@.peers.contains_key(listed[i].0@));
        assert(places.contains(i));
    }
    assert forall|k: int, l: int| 0 <= k < l < best@.len() implies (#[trigger] best@[k])@.id != (
    #[trigger] best@[l])@.id by {
        let a = found.1[k];
        let b = found.1[l];
        assert(a != b);
        if a < b {
            assert(entries[a].1@.id != entries[b].1@.id);
        } else {
            assert(entries[b].1@.id != entries[a].1@.id);
        }
    }
}

/// A set for callers who want words adds peers and makes requests as the set does, with the error
/// in words.
pub proof fn words_for_adding_and_asking<S, F: Fn(&AsyncPeer, PeerStats) -> Option<i64>>(
    adding: &mut PeerSet<S>,
    peer: AsyncPeer,
    connection: NetworkResult<PooledConnection<S>>,
    text: &str,
    task: u64,
    now: Nanos,
    added: Result<AddedPeer, String>,
    asking: &mut PeerSet<S>,
    request: QubicApiPacket,
    rank: F,
    asked: Result<QubicApiPacket, String>,
)
    requires
        call_ensures(
            PeerSet::<S>::finish_add_peer,
            (adding, peer, connection, text, task, now),
            added,
        ),
        call_ensures(PeerSet::<S>::make_request::<F>, (asking, request, rank), asked),
    ensures
        added is Ok <==> connection is Ok,
        added is Ok ==> added->Ok_0.announce && final(adding).async_peer_set@.peers
            == old(adding).async_peer_set@.peers.insert(
            peer@.id,
            crate::peer::PeerView { connected: true, ..peer@ },
        ) && final(adding).async_peer_set@.addrs == old(adding).async_peer_set@.addrs.insert(
            peer@.addr.spec_key(),
            peer@.id,
        ) && final(adding).async_peer_set@.manager.workers.contains_key(peer@.id)
            && final(adding).async_peer_set@.manager.workers[peer@.id].task == task,
        added matches Err(words) ==> words@ == "Connection failed: "@ + ("Failed to connect to "@
            + text@) && final(adding).async_peer_set@ == old(adding).async_peer_set@,
        old(asking).async_peer_set@.peers.len() == 0 ==> (asked matches Err(words) && words@
            == "Connection failed: "@ + "No peers available"@),
        old(asking).async_peer_set@.peers.len() > 0 && (request.api_type is RequestCurrentTickInfo
            || request.api_type is RequestedQuorumTick || request.api_type is RequestTickData
            || request.api_type is RequestContractFunction || request.api_type is RequestAssets)
            ==> asked == Ok::<_, String>(request),
        old(asking).async_peer_set@.peers.len() > 0 && !(request.api_type is RequestCurrentTickInfo
            || request.api_type is RequestedQuorumTick || request.api_type is RequestTickData
            || request.api_type is RequestContractFunction || request.api_type is RequestAssets)
            ==> match asked {
            Ok(sent) => {
                &&& sent.peer is Some
                &&& old(asking).async_peer_set@.peers.contains_key(sent.peer->0@)
                &&& old(asking).async_peer_set@.peers[sent.peer->0@].connected
                &&& sent.api_type == request.api_type
                &&& sent.header == request.header
                &&& sent.data@ == request.data@
            },
            Err(words) => words@ == "Connection failed: "@ + "No healthy peers available"@,
        },
        final(asking).async_peer_set@.peers == old(asking).async_peer_set@.peers,
{
}

/// All workers are handed out when all are stopped, each once, and none is left. A manager tells
/// how many there are, and for whom.
pub proof fn stopping_all_workers(
    manager: &mut AsyncWorkerManager,
    stopped: Vec<WorkerTask>,
    told: &AsyncWorkerManager,
    count: usize,
    ids: Vec<String>,
    id: Seq<char>,
)
    requires
        call_ensures(AsyncWorkerManager::stop_all_workers, (manager,), stopped),
        call_ensures(AsyncWorkerManager::get_worker_count, (told,), count),
        call_ensures(AsyncWorkerManager::get_worker_ids, (told,), ids),
    ensures
        !final(manager)@.workers.contains_key(id),
        final(manager)@.requests == old(manager)@.requests,
        old(manager)@.workers.contains_key(id) <==> exists|i: int|
            0 <= i < stopped@.len() && (#[trigger] stopped@[i]).peer_id@ == id,
        forall|i: int|
            0 <= i < stopped@.len() ==> (#[trigger] stopped@[i]).task
                == old(manager)@.workers[stopped@[i].peer_id@].task,
        forall|i: int, j: int|
            0 <= i < j < stopped@.len() ==> (#[trigger] stopped@[i]).peer_id@ != (
            #[trigger] stopped@[j]).peer_id@,
        count == told@.workers.len(),
        told@.workers.contains_key(id) <==> exists|i: int|
            0 <= i < ids@.len() && (#[trigger] ids@[i])@ == id,
        forall|i: int, j: int|
            0 <= i < j < ids@.len() ==> (#[trigger] ids@[i])@ != (#[trigger] ids@[j])@,
{
    assert forall|i: int| 0 <= i < stopped@.len() implies (#[trigger] stopped@[i]).task
        == old(manager)@.workers[stopped@[i].peer_id@].task by {
        assert(stopped@[i]@.task == stopped@[i].task);
    }
    if told@.workers.contains_key(id) {
        assert(told@.workers.dom().contains(id));
    }
    if exists|i: int| 0 <= i < ids@.len() && (#[trigger] ids@[i])@ == id {
        let i = choose|i: int| 0 <= i < ids@.len() && (#[trigger] ids@[i])@ == id;
        assert(told@.workers.dom().contains(ids@[i]@));
    }
}

/// A released record is gone and no other is; there is room for another as long as a key is left.
pub proof fn keeping_records(
    records: &mut PeerRecords,
    key: u64,
    other: u64,
    told: &PeerRecords,
    held: bool,
    room: bool,
    made: PeerRecords,
)
    requires
        call_ensures(PeerRecords::release, (records, key), ()),
        call_ensures(PeerRecords::holds, (told, key), held),
        call_ensures(PeerRecords::has_room, (told,), room),
        call_ensures(PeerRecords::new, (), made),
    ensures
        !final(records)@.entries.contains_key(key),
        other != key ==> (final(records)@.entries.contains_key(other)
            <==> old(records)@.entries.contains_key(other)) && final(records)@.entries[other]
            == old(records)@.entries[other],
        final(records)@.next_key == old(records)@.next_key,
        held <==> told@.entries.contains_key(key),
        room <==> told@.next_key < u64::MAX,
        made@.entries == Map::<u64, crate::records::RecordView>::empty(),
{
}

} // verus!
