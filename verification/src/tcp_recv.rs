//! Reading what a peer answers.
//!
//! A packet is read in up to three steps: its header, the bytes after the header, and the parsing
//! of both. A response is one packet, or a packet that announces more and those that follow it.

use vstd::prelude::*;

use crate::error::{NetworkError, NetworkResult};
use crate::packet::{EntityType, QubicApiPacket, RequestResponseHeader};
use crate::peer::AsyncPeer;
use crate::time::{Nanos, NANOS_PER_MILLI, NANOS_PER_SEC};

verus! {

/// How long a single read may take.
pub const READ_TIMEOUT: Nanos = 10 * NANOS_PER_SEC;

/// How long a test of a connection may take.
pub const PROBE_TIMEOUT: Nanos = 100 * NANOS_PER_MILLI;

/// The length of a packet header in bytes.
pub const HEADER_SIZE: usize = 8;

/// The length of the longest packet that is read, in bytes.
pub const MAX_PACKET_SIZE: usize = 1_048_576;

/// How many packets are read after the first one of a response.
pub const MAX_PACKETS_PER_RESPONSE: usize = 1000;

/// Whether a packet of this length is read at all.
pub open spec fn acceptable_size(size: usize) -> bool {
    HEADER_SIZE <= size <= MAX_PACKET_SIZE
}

/// How reading a header ended.
#[derive(Debug)]
pub enum HeaderOutcome {
    /// All bytes of the header, and what they say.
    Read { bytes: Vec<u8>, header: RequestResponseHeader },
    /// The system refused; holds its message.
    Failed(String),
    TimedOut,
}

/// How reading the rest of a packet ended.
#[derive(Debug)]
pub enum BodyOutcome {
    /// All bytes that were missing.
    Read(Vec<u8>),
    /// The system refused; holds its message.
    Failed(String),
    TimedOut,
}

/// A packet of which only the header has arrived.
#[derive(Debug)]
pub struct PartialPacket {
    pub header: Vec<u8>,
    /// The length of the whole packet.
    pub size: usize,
}

/// What follows on the reading of a header.
#[derive(Debug)]
pub enum HeaderStep {
    /// Read the bytes that are missing.
    ReadBody(PartialPacket),
    /// The packet is complete: parse it.
    Parse(Vec<u8>),
    Fail(NetworkError),
}

/// The first step of receiving a packet: the header was read, or was not. A packet that is too
/// short to hold a header, or too long, is refused.
pub fn recv_header(outcome: HeaderOutcome) -> (step: HeaderStep)
    requires
        outcome matches HeaderOutcome::Read { bytes, .. } ==> bytes@.len() == HEADER_SIZE,
    ensures
        match outcome {
            HeaderOutcome::Failed(cause) => step == HeaderStep::Fail(NetworkError::Io(cause)),
            HeaderOutcome::TimedOut => step == HeaderStep::Fail(NetworkError::Timeout),
            HeaderOutcome::Read { bytes, header } => if !acceptable_size(header.size) {
                step == HeaderStep::Fail(NetworkError::InvalidResponse)
            } else if header.size == HEADER_SIZE {
                step matches HeaderStep::Parse(packet) && packet@ == bytes@
            } else {
                step matches HeaderStep::ReadBody(partial) && partial.header@ == bytes@
                    && partial.size == header.size && partial.wf()
            },
        },
{
    match outcome {
        HeaderOutcome::Failed(cause) => HeaderStep::Fail(NetworkError::Io(cause)),
        HeaderOutcome::TimedOut => HeaderStep::Fail(NetworkError::Timeout),
        HeaderOutcome::Read { bytes, header } => {
            let size = header.get_size();
            if size < HEADER_SIZE || size > MAX_PACKET_SIZE {
                HeaderStep::Fail(NetworkError::InvalidResponse)
            } else if size == HEADER_SIZE {
                HeaderStep::Parse(bytes)
            } else {
                HeaderStep::ReadBody(PartialPacket { header: bytes, size })
            }
        },
    }
}

impl PartialPacket {
    /// A header that announces more bytes than its own.
    pub open spec fn wf(self) -> bool {
        &&& self.header@.len() == HEADER_SIZE
        &&& HEADER_SIZE < self.size <= MAX_PACKET_SIZE
    }

    /// How many bytes are missing.
    pub fn missing(&self) -> (missing: usize)
        requires
            self.wf(),
        ensures
            missing == self.size - HEADER_SIZE,
            missing > 0,
    {
        self.size - HEADER_SIZE
    }

    /// The second step of receiving a packet: the missing bytes were read, or were not. Returns
    /// the bytes of the whole packet.
    pub fn recv_body(self, outcome: BodyOutcome) -> (result: NetworkResult<Vec<u8>>)
        requires
            self.wf(),
            outcome matches BodyOutcome::Read(body) ==> body@.len() == self.size - HEADER_SIZE,
        ensures
            match outcome {
                BodyOutcome::Failed(cause) => result == Err::<Vec<u8>, _>(NetworkError::Io(cause)),
                BodyOutcome::TimedOut => result == Err::<Vec<u8>, _>(NetworkError::Timeout),
                BodyOutcome::Read(body) => {
                    &&& result matches Ok(packet)
                    &&& packet@ == self.header@ + body@
                    &&& packet@.len() == self.size
                },
            },
    {
        match outcome {
            BodyOutcome::Failed(cause) => Err(NetworkError::Io(cause)),
            BodyOutcome::TimedOut => Err(NetworkError::Timeout),
            BodyOutcome::Read(body) => {
                let mut packet = self.header;
                let mut body = body;
                packet.append(&mut body);
                Ok(packet)
            },
        }
    }
}

/// The last step of receiving a packet: its bytes were parsed, or make no packet.
pub fn recv_parsed(parsed: Option<QubicApiPacket>) -> (result: NetworkResult<
    Option<QubicApiPacket>,
>)
    ensures
        match parsed {
            Some(packet) => result == Ok::<_, NetworkError>(Some(packet)),
            None => result == Err::<Option<QubicApiPacket>, _>(NetworkError::InvalidResponse),
        },
{
    match parsed {
        Some(packet) => Ok(Some(packet)),
        None => Err(NetworkError::InvalidResponse),
    }
}

/// What came of an attempt to receive a packet, in mathematical terms.
pub ghost enum Received {
    Packet(crate::packet::PacketView),
    Nothing,
    Failure,
}

/// What came of an attempt to receive a packet, in mathematical terms.
pub open spec fn received(result: NetworkResult<Option<QubicApiPacket>>) -> Received {
    match result {
        Ok(Some(packet)) => Received::Packet(packet@),
        Ok(None) => Received::Nothing,
        Err(_) => Received::Failure,
    }
}

impl Received {
    /// Whether this does not end a response.
    pub open spec fn continues(self) -> bool {
        match self {
            Received::Packet(packet) => packet.header.entity_type != EntityType::ResponseEnd,
            Received::Nothing => true,
            Received::Failure => false,
        }
    }
}

/// The packets of a response after the first one, as they come in.
#[derive(Debug)]
pub struct PacketCollector {
    packets: Vec<QubicApiPacket>,
    packet_count: usize,
    ended: bool,
}

/// A collector, in mathematical terms.
#[verifier::ext_equal]
pub ghost struct CollectorView {
    pub packets: Seq<crate::packet::PacketView>,
    /// How many attempts did not end the response.
    pub count: int,
    pub ended: bool,
}

/// Packets, in mathematical terms.
pub open spec fn packet_views(packets: Seq<QubicApiPacket>) -> Seq<crate::packet::PacketView> {
    packets.map_values(|packet: QubicApiPacket| packet@)
}

impl CollectorView {
    /// A collector that was handed nothing yet.
    pub open spec fn empty() -> Self {
        CollectorView { packets: Seq::empty(), count: 0, ended: false }
    }

    /// What a collector can have come to hold.
    pub open spec fn wf(self) -> bool {
        self.packets.len() <= self.count <= MAX_PACKETS_PER_RESPONSE
    }

    /// Whether another packet is to be received.
    pub open spec fn wants_more(self) -> bool {
        !self.ended && self.count < MAX_PACKETS_PER_RESPONSE
    }

    /// The collector after one more attempt to receive a packet.
    pub open spec fn with(self, received: Received) -> Self {
        if !received.continues() {
            CollectorView { ended: true, ..self }
        } else {
            CollectorView {
                packets: match received {
                    Received::Packet(packet) => self.packets.push(packet),
                    _ => self.packets,
                },
                count: self.count + 1,
                ..self
            }
        }
    }
}

impl View for PacketCollector {
    type V = CollectorView;

    closed spec fn view(&self) -> CollectorView {
        CollectorView {
            packets: packet_views(self.packets@),
            count: self.packet_count as int,
            ended: self.ended,
        }
    }
}

impl PacketCollector {
    pub fn new() -> (collector: Self)
        ensures
            collector@ == CollectorView::empty(),
            collector@.wf(),
    {
        let collector = PacketCollector { packets: Vec::new(), packet_count: 0, ended: false };
        assert(collector@.packets =~= Seq::empty());
        collector
    }

    /// Whether another packet is to be received. It is not once the response has ended or the
    /// limit was reached.
    pub fn wants_more(&self) -> (more: bool)
        ensures
            more == self@.wants_more(),
    {
        !self.ended && self.packet_count < MAX_PACKETS_PER_RESPONSE
    }

    /// Takes in what came of an attempt to receive a packet. The packet that ends a response is
    /// not kept, and a failure ends the response too.
    pub fn recv_packet(&mut self, result: NetworkResult<Option<QubicApiPacket>>)
        requires
            old(self)@.wf(),
            old(self)@.wants_more(),
        ensures
            final(self)@ == old(self)@.with(received(result)),
            final(self)@.wf(),
            match result {
                Ok(Some(packet)) => if packet.header.entity_type == EntityType::ResponseEnd {
                    final(self)@.packets == old(self)@.packets && final(self)@.ended
                } else {
                    final(self)@.packets == old(self)@.packets.push(packet@) && !final(self)@.ended
                        && final(self)@.count == old(self)@.count + 1
                },
                Ok(None) => final(self)@.packets == old(self)@.packets && !final(self)@.ended
                    && final(self)@.count == old(self)@.count + 1,
                Err(_) => final(self)@.packets == old(self)@.packets && final(self)@.ended,
            },
    {
        match result {
            Ok(Some(packet)) => {
                if packet.header.get_type() == EntityType::ResponseEnd {
                    self.ended = true;
                } else {
                    self.packets.push(packet);
                    self.packet_count = self.packet_count + 1;
                    assert(self@.packets =~= old(self)@.packets.push(packet@));
                }
            },
            Ok(None) => {
                self.packet_count = self.packet_count + 1;
            },
            Err(_) => {
                self.ended = true;
            },
        }
    }

    /// The packets that were received.
    pub fn into_packets(self) -> (packets: Vec<QubicApiPacket>)
        ensures
            packet_views(packets@) == self@.packets,
    {
        self.packets
    }
}

/// How far the receiving of a response has come.
#[derive(Debug)]
pub enum Reception {
    /// These are all packets of the response.
    Complete(Vec<QubicApiPacket>),
    /// More packets follow `first`.
    Incomplete { first: QubicApiPacket, rest: PacketCollector },
    /// There is no response. `disconnected` says whether the peer is to be entered into the peer
    /// database as disconnected.
    Failed { error: NetworkError, disconnected: bool },
}

/// Starts to receive a response of `peer`: `result` is what came of receiving its first packet.
pub fn async_qubic_tcp_receive_data(
    peer: &mut AsyncPeer,
    result: NetworkResult<Option<QubicApiPacket>>,
) -> (reception: Reception)
    ensures
        match result {
            Ok(Some(packet)) => {
                &&& final(peer)@ == old(peer)@
                &&& if packet.header.multiple {
                    reception matches Reception::Incomplete { first, rest } && first == packet
                        && rest@ == CollectorView::empty()
                } else {
                    reception matches Reception::Complete(packets) && packets@ == seq![packet]
                }
            },
            Ok(None) => {
                &&& final(peer)@ == old(peer)@
                &&& reception matches Reception::Complete(packets) && packets@.len() == 0
            },
            Err(cause) => {
                &&& final(peer)@ == peer_after_error(old(peer)@, cause)
                &&& reception == (Reception::Failed {
                    error: cause,
                    disconnected: cause.breaks_connection(),
                })
            },
        },
{
    match result {
        Ok(Some(packet)) => {
            if packet.header.recv_multiple_packets() {
                Reception::Incomplete { first: packet, rest: PacketCollector::new() }
            } else {
                let mut packets: Vec<QubicApiPacket> = Vec::new();
                packets.push(packet);
                Reception::Complete(packets)
            }
        },
        Ok(None) => Reception::Complete(Vec::new()),
        Err(error) => {
            let disconnected = handle_connection_error(peer, &error);
            Reception::Failed { error, disconnected }
        },
    }
}

/// Finishes receiving a response of several packets: returns them all, in their order.
pub fn finish_reception(first: QubicApiPacket, rest: PacketCollector) -> (packets: Vec<
    QubicApiPacket,
>)
    ensures
        packet_views(packets@) == seq![first@] + rest@.packets,
{
    let mut packets: Vec<QubicApiPacket> = Vec::new();
    packets.push(first);
    let mut more = rest.into_packets();
    packets.append(&mut more);
    assert(packet_views(packets@) =~= seq![first@] + rest@.packets);
    packets
}

/// The peer after `error` happened to it. One that says that the connection is gone leaves it
/// disconnected.
pub open spec fn peer_after_error(
    peer: crate::peer::PeerView,
    error: NetworkError,
) -> crate::peer::PeerView {
    if error.breaks_connection() {
        peer.with_connected(false)
    } else {
        peer
    }
}

/// Draws the consequences of `error` for `peer`, and says whether the peer is to be entered into
/// the peer database as disconnected.
pub fn handle_connection_error(peer: &mut AsyncPeer, error: &NetworkError) -> (disconnected: bool)
    ensures
        disconnected == error.breaks_connection(),
        disconnected <==> *error is ConnectionFailed || *error is Timeout || *error is Io,
        final(peer)@ == peer_after_error(old(peer)@, *error),
        final(peer)@ == (crate::peer::PeerView {
            connected: old(peer)@.connected && !disconnected,
            ..old(peer)@
        }),
{
    match error {
        NetworkError::ConnectionFailed(_) | NetworkError::Timeout | NetworkError::Io(_) => {
            peer.set_connected(false);
            true
        },
        _ => false,
    }
}

/// How a test of a connection ended.
#[derive(Debug, Clone, Copy, PartialEq, Eq, Structural)]
pub enum ProbeOutcome {
    /// A read returned this many bytes.
    Read(usize),
    Failed,
    TimedOut,
}

/// Whether a connection on which a test ended so is alive. A read of no byte says that the peer has
/// closed it.
pub fn test_connection_health(outcome: ProbeOutcome) -> (alive: bool)
    ensures
        alive == (outcome matches ProbeOutcome::Read(count) && count > 0),
{
    match outcome {
        ProbeOutcome::Read(count) => count > 0,
        _ => false,
    }
}

/// The types of packets that a peer may send.
pub open spec fn valid_entity_type(entity_type: EntityType) -> bool {
    !(entity_type is Other)
}

/// Whether a packet with this header is one that a peer may send.
pub fn validate_packet_header(header: &RequestResponseHeader) -> (result: NetworkResult<()>)
    ensures
        result is Ok <==> acceptable_size(header.size) && valid_entity_type(header.entity_type),
        result is Ok <==> 8 <= header.size <= 1_048_576 && (header.entity_type
            is RequestCurrentTickInfo || header.entity_type is RespondCurrentTickInfo
            || header.entity_type is RequestedQuorumTick || header.entity_type is RequestTickData
            || header.entity_type is RequestContractFunction || header.entity_type is RequestAssets
            || header.entity_type is ResponseEnd),
        result matches Err(error) ==> error is InvalidResponse,
{
    let size = header.get_size();
    if size < HEADER_SIZE || size > MAX_PACKET_SIZE {
        return Err(NetworkError::InvalidResponse);
    }
    let entity_type = header.get_type();
    if !is_valid_entity_type(&entity_type) {
        return Err(NetworkError::InvalidResponse);
    }
    Ok(())
}

/// Whether a peer may send packets of this type.
pub fn is_valid_entity_type(entity_type: &EntityType) -> (valid: bool)
    ensures
        valid == valid_entity_type(*entity_type),
{
    matches!(
        entity_type,
        EntityType::RequestCurrentTickInfo
            | EntityType::RespondCurrentTickInfo
            | EntityType::RequestedQuorumTick
            | EntityType::RequestTickData
            | EntityType::RequestContractFunction
            | EntityType::RequestAssets
            | EntityType::ResponseEnd
    )
}

/// The collector after a whole run of attempts; those after its end are not made.
pub open spec fn collector_after(results: Seq<Received>) -> CollectorView
    decreases results.len(),
{
    if results.len() == 0 {
        CollectorView::empty()
    } else {
        let before = collector_after(results.drop_last());
        if before.wants_more() {
            before.with(results.last())
        } else {
            before
        }
    }
}

/// The packets among `results`.
pub open spec fn packets_among(results: Seq<Received>) -> Seq<crate::packet::PacketView> {
    results.filter_map(
        |received: Received|
            match received {
                Received::Packet(packet) => Some(packet),
                _ => None,
            },
    )
}

/// Whether the first `n` of `results` are those that a response is made of: none of them is a
/// failure or the packet that ends it, and it goes no further, because the next one is such, the
/// limit is reached or nothing else comes.
pub open spec fn response_is(results: Seq<Received>, n: int) -> bool {
    &&& 0 <= n <= results.len()
    &&& n <= MAX_PACKETS_PER_RESPONSE
    &&& forall|i: int|
        0 <= i < n ==> !((#[trigger] results[i]) is Failure) && (results[i] matches Received::Packet(
            packet,
        ) ==> packet.header.entity_type != EntityType::ResponseEnd)
    &&& n == results.len() || n == MAX_PACKETS_PER_RESPONSE || results[n] is Failure || (
    results[n] matches Received::Packet(packet) && packet.header.entity_type
        == EntityType::ResponseEnd)
}

/// A response holds exactly the packets that come before the packet that ends it or a failure, in
/// their order, whatever else is in their headers.
pub proof fn response_holds_what_comes_before_its_end(results: Seq<Received>, n: int)
    requires
        0 <= n <= results.len(),
        n <= 1000,
        forall|i: int|
            0 <= i < n ==> !((#[trigger] results[i]) is Failure) && (
            results[i] matches Received::Packet(packet) ==> packet.header.entity_type
                != EntityType::ResponseEnd),
        n == results.len() || n == 1000 || results[n] is Failure || (
        results[n] matches Received::Packet(packet) && packet.header.entity_type
            == EntityType::ResponseEnd),
    ensures
        collector_after(results).packets == packets_among(results.take(n)),
        collector_after(results).packets.len() <= 1000,
        n < results.len() ==> !collector_after(results).wants_more(),
    decreases results.len(),
{
    assert(response_is(results, n));
    lemma_continues();
    assert forall|i: int| 0 <= i < n implies (#[trigger] results.take(n)[i]).continues() by {
        assert(results.take(n)[i] == results[i]);
    }
    lemma_collector_before_end(results.take(n));
    if n < results.len() {
        lemma_collector_stays(results, n);
    } else {
        assert(results.take(n) =~= results);
    }
}

proof fn lemma_continues()
    ensures
        forall|received: Received| #[trigger]
            received.continues() <==> !(received is Failure) && (
            received matches Received::Packet(packet) ==> packet.header.entity_type
                != EntityType::ResponseEnd),
{
}

/// What a collector takes in. A packet of any type but the one that ends a response is put behind
/// those before it and does not end the response, whatever else its header says. The packet that
/// ends a response and a failure end it, and nothing more is kept. An attempt that brought nothing
/// is only counted.
pub proof fn only_an_end_packet_or_a_failure_ends_a_response(
    collector: CollectorView,
    packet: crate::packet::PacketView,
)
    ensures
        packet.header.entity_type != EntityType::ResponseEnd ==> ({
            let after = collector.with(Received::Packet(packet));
            &&& after.packets == collector.packets.push(packet)
            &&& after.ended == collector.ended
            &&& after.count == collector.count + 1
        }),
        packet.header.entity_type == EntityType::ResponseEnd ==> ({
            let after = collector.with(Received::Packet(packet));
            &&& after.packets == collector.packets
            &&& after.ended
        }),
        ({
            let after = collector.with(Received::Nothing);
            &&& after.packets == collector.packets
            &&& after.ended == collector.ended
            &&& after.count == collector.count + 1
        }),
        ({
            let after = collector.with(Received::Failure);
            &&& after.packets == collector.packets
            &&& after.ended
        }),
        collector.wants_more() <==> !collector.ended && collector.count < 1000,
        CollectorView::empty().packets.len() == 0,
        CollectorView::empty().count == 0,
        !CollectorView::empty().ended,
{
}

/// A result is taken in as what it is: a packet, nothing or a failure. Packets are taken one for
/// one.
pub proof fn results_are_taken_as_they_are(
    packet: QubicApiPacket,
    error: NetworkError,
    packets: Seq<QubicApiPacket>,
    i: int,
)
    ensures
        received(Ok(Some(packet))) == Received::Packet(packet@),
        received(Ok(None)) == Received::Nothing,
        received(Err(error)) == Received::Failure,
        packet_views(packets).len() == packets.len(),
        0 <= i < packets.len() ==> packet_views(packets)[i] == packets[i]@,
{
}

/// A packet is read exactly if its length is that of a header at least and one mebibyte at most. A
/// peer may send the seven types of packets that are named, and no others. An error leaves a peer
/// disconnected exactly if it says that the connection is gone, and changes nothing else of it.
pub proof fn limits_of_what_a_peer_sends(
    size: usize,
    entity_type: EntityType,
    peer: crate::peer::PeerView,
    error: NetworkError,
)
    ensures
        acceptable_size(size) <==> 8 <= size <= 1_048_576,
        valid_entity_type(entity_type) <==> entity_type is RequestCurrentTickInfo || entity_type
            is RespondCurrentTickInfo || entity_type is RequestedQuorumTick || entity_type
            is RequestTickData || entity_type is RequestContractFunction || entity_type
            is RequestAssets || entity_type is ResponseEnd,
        error is ConnectionFailed || error is Timeout || error is Io ==> peer_after_error(
            peer,
            error,
        ) == (crate::peer::PeerView { connected: false, ..peer }),
        !(error is ConnectionFailed || error is Timeout || error is Io) ==> peer_after_error(
            peer,
            error,
        ) == peer,
{
}

/// While nothing ends the response, every packet is kept.
proof fn lemma_collector_before_end(results: Seq<Received>)
    requires
        results.len() <= MAX_PACKETS_PER_RESPONSE,
        forall|i: int| 0 <= i < results.len() ==> (#[trigger] results[i]).continues(),
    ensures
        collector_after(results).packets == packets_among(results),
        collector_after(results).count == results.len(),
        !collector_after(results).ended,
        collector_after(results).wf(),
    decreases results.len(),
{
    reveal(Seq::filter_map);
    if results.len() > 0 {
        let rest = results.drop_last();
        assert forall|i: int| 0 <= i < rest.len() implies (#[trigger] rest[i]).continues() by {
            assert(rest[i] == results[i]);
        }
        lemma_collector_before_end(rest);
        assert(results[results.len() - 1].continues());
        assert(collector_after(results).packets =~= packets_among(results));
    } else {
        assert(collector_after(results).packets =~= packets_among(results));
    }
}

/// After the end of the response nothing is kept any more.
proof fn lemma_collector_stays(results: Seq<Received>, n: int)
    requires
        response_is(results, n),
        n < results.len(),
    ensures
        collector_after(results).packets == collector_after(results.take(n)).packets,
        !collector_after(results).wants_more(),
    decreases results.len(),
{
    lemma_continues();
    let rest = results.drop_last();
    if n < rest.len() {
        assert forall|i: int| 0 <= i < n implies !((#[trigger] rest[i]) is Failure) && (
        rest[i] matches Received::Packet(packet) ==> packet.header.entity_type
            != EntityType::ResponseEnd) by {
            assert(rest[i] == results[i]);
        }
        assert(rest[n] == results[n]);
        lemma_collector_stays(rest, n);
        assert(rest.take(n) =~= results.take(n));
    } else {
        assert(rest =~= results.take(n));
        assert forall|i: int| 0 <= i < n implies (#[trigger] rest[i]).continues() by {
            assert(rest[i] == results[i]);
        }
        lemma_collector_before_end(rest);
    }
}

/// A response never holds the packet that ends it.
pub proof fn response_has_no_end_packet(results: Seq<Received>, i: int)
    requires
        0 <= i < collector_after(results).packets.len(),
    ensures
        collector_after(results).packets[i].header.entity_type != EntityType::ResponseEnd,
    decreases results.len(),
{
    if results.len() > 0 {
        let before = collector_after(results.drop_last());
        if i < before.packets.len() {
            response_has_no_end_packet(results.drop_last(), i);
        }
    }
}

} // verus!
