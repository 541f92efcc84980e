//! Requests and responses as the network layer sees them.

use vstd::prelude::*;

verus! {

/// What a packet asks for or answers.
#[derive(Debug, Clone, Copy, PartialEq, Eq, Structural)]
pub enum EntityType {
    RequestCurrentTickInfo,
    RespondCurrentTickInfo,
    RequestedQuorumTick,
    RequestTickData,
    RequestContractFunction,
    RequestAssets,
    ResponseEnd,
    /// Any other type, by its number on the wire.
    Other(u8),
}

/// The header of a packet.
#[derive(Debug, Clone, Copy, PartialEq, Eq, Structural)]
pub struct RequestResponseHeader {
    /// The length of the whole packet in bytes, header included.
    pub size: usize,
    /// What the packet is.
    pub entity_type: EntityType,
    /// The number that ties a response to its request.
    pub dejavu: u32,
    /// Whether more packets follow this one.
    pub multiple: bool,
}

impl RequestResponseHeader {
    /// The length of the whole packet in bytes.
    pub fn get_size(&self) -> (size: usize)
        ensures
            size == self.size,
    {
        self.size
    }

    /// What the packet is.
    pub fn get_type(&self) -> (entity_type: EntityType)
        ensures
            entity_type == self.entity_type,
    {
        self.entity_type
    }

    /// Whether more packets follow the one with this header.
    pub fn recv_multiple_packets(&self) -> (multiple: bool)
        ensures
            multiple == self.multiple,
    {
        self.multiple
    }
}

/// A packet: a request on its way to a peer, or what a peer answered.
#[derive(Debug)]
pub struct QubicApiPacket {
    /// The peer that is to serve the request, or that sent the response; any peer if absent.
    pub peer: Option<String>,
    /// What the packet asks for.
    pub api_type: EntityType,
    pub header: RequestResponseHeader,
    /// The bytes after the header.
    pub data: Vec<u8>,
}

/// A packet, in mathematical terms.
#[verifier::ext_equal]
pub ghost struct PacketView {
    pub peer: Option<Seq<char>>,
    pub api_type: EntityType,
    pub header: RequestResponseHeader,
    pub data: Seq<u8>,
}

/// The characters of a name, if there is one.
pub open spec fn name_view(name: Option<String>) -> Option<Seq<char>> {
    match name {
        Some(text) => Some(text@),
        None => None,
    }
}

impl View for QubicApiPacket {
    type V = PacketView;

    open spec fn view(&self) -> PacketView {
        PacketView {
            peer: name_view(self.peer),
            api_type: self.api_type,
            header: self.header,
            data: self.data@,
        }
    }
}

impl PacketView {
    /// The same packet, meant for the peer `id` alone.
    pub open spec fn addressed_to(self, id: Seq<char>) -> PacketView {
        PacketView { peer: Some(id), ..self }
    }

    /// Whether the peer `id` is to serve the packet.
    pub open spec fn is_for(self, id: Seq<char>) -> bool {
        self.peer is None || self.peer == Some(id)
    }
}

impl Clone for QubicApiPacket {
    fn clone(&self) -> (copy: Self)
        ensures
            copy@ == self@,
    {
        let copy = QubicApiPacket {
            peer: self.peer.clone(),
            api_type: self.api_type,
            header: self.header,
            data: self.data.clone(),
        };
        assert(copy.data@ =~= self.data@);
        copy
    }
}

/// The view of a packet leaves nothing of it out.
pub proof fn packet_views_are_complete(packet: QubicApiPacket)
    ensures
        packet@.api_type == packet.api_type,
        packet@.header == packet.header,
        packet@.data == packet.data@,
        packet.peer is None ==> packet@.peer is None,
        packet.peer matches Some(name) ==> packet@.peer == Some(name@),
{
}

/// Addressing a packet changes whom it is meant for and nothing else. A packet that is addressed
/// is for that peer and for no other, and one that is not is for every peer.
pub proof fn addressing_chooses_one_peer(packet: PacketView, id: Seq<char>, other: Seq<char>)
    ensures
        packet.addressed_to(id).peer == Some(id),
        packet.addressed_to(id).api_type == packet.api_type,
        packet.addressed_to(id).header == packet.header,
        packet.addressed_to(id).data == packet.data,
        packet.peer is None ==> packet.is_for(other),
        packet.peer == Some(id) ==> (packet.is_for(other) <==> other == id),
{
}

} // verus!
