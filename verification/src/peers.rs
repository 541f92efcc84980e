//! The set of known peers.

use dashmap::DashMap;
use vstd::prelude::*;

use crate::addr::{AddressKey, SocketAddress};
use crate::connection_pool::{ConnectionPool, PoolConfig, PooledConnection};
use crate::error::{labelled, NetworkError, NetworkResult};
use crate::listing::{best_among, count_connected, select_among};
use crate::packet::{EntityType, QubicApiPacket};
use crate::peer::{AsyncPeer, NewPeer, PeerStats};
use crate::records::PeerRecords;
use crate::selection::LoadBalancingStrategy;
use crate::tables::{
    count_peers, find_peer, knows_address, list_peers, new_address_table, new_peer_table,
    put_address, put_peer, take_address, take_peer,
};
use crate::time::{Nanos, NANOS_PER_SEC};
use crate::worker::{AsyncWorkerManager, WorkerTask};

verus! {

/// How many requests the channel to the workers holds.
pub const REQUEST_CHANNEL_CAPACITY: usize = 1000;

/// The limits and habits of an [`AsyncPeerSet`].
#[derive(Debug, Clone, Copy)]
pub struct PeerSetConfig {
    pub max_peers: usize,
    pub connection_timeout: Nanos,
    /// How often the peers are checked.
    pub health_check_interval: Nanos,
    pub load_balancing: LoadBalancingStrategy,
    pub enable_connection_pooling: bool,
    pub pool_config: PoolConfig,
}

impl PeerSetConfig {
    /// The limits and habits of a set that is not configured otherwise.
    pub open spec fn spec_default() -> PeerSetConfig {
        PeerSetConfig {
            max_peers: 50,
            connection_timeout: (5 * NANOS_PER_SEC) as Nanos,
            health_check_interval: (30 * NANOS_PER_SEC) as Nanos,
            load_balancing: LoadBalancingStrategy::ScoreBased,
            enable_connection_pooling: true,
            pool_config: PoolConfig::spec_default(),
        }
    }
}

impl Default for PeerSetConfig {
    fn default() -> (config: Self)
        ensures
            config == PeerSetConfig::spec_default(),
            config.max_peers == 50,
            config.connection_timeout == 5_000_000_000,
            config.health_check_interval == 30_000_000_000,
            config.load_balancing is ScoreBased,
            config.enable_connection_pooling,
            config.pool_config.max_connections_per_peer == 5,
            config.pool_config.connection_timeout == 5_000_000_000,
            config.pool_config.idle_timeout == 60_000_000_000,
            config.pool_config.max_idle_connections == 10,
    {
        PeerSetConfig {
            max_peers: 50,
            connection_timeout: 5 * NANOS_PER_SEC,
            health_check_interval: 30 * NANOS_PER_SEC,
            load_balancing: LoadBalancingStrategy::ScoreBased,
            enable_connection_pooling: true,
            pool_config: PoolConfig::default(),
        }
    }
}

/// The known peers, the connections to them and the workers that serve them. `S` is the stream
/// to a peer.
pub struct AsyncPeerSet<S> {
    peers: DashMap<String, AsyncPeer>,
    addr_to_id: DashMap<AddressKey, String>,
    records: PeerRecords,
    connection_pool: ConnectionPool<S>,
    worker_manager: AsyncWorkerManager,
    config: PeerSetConfig,
    round_robin_counter: u32,
}

/// A set of peers, in mathematical terms.
#[verifier::ext_equal]
pub ghost struct SetView<S> {
    pub config: PeerSetConfig,
    /// The peers, by their ids.
    pub peers: Map<Seq<char>, crate::peer::PeerView>,
    /// The ids of the peers, by their addresses.
    pub addrs: Map<AddressKey, Seq<char>>,
    /// What the copies of each peer share.
    pub records: crate::records::RecordsView,
    pub pool: crate::connection_pool::PoolView<S>,
    pub manager: crate::worker::ManagerView,
    /// How many turns were taken, modulo the width of the counter.
    pub turn: u32,
}

impl<S> SetView<S> {
    /// A set without peers.
    pub open spec fn empty(config: PeerSetConfig) -> Self {
        SetView {
            config,
            peers: Map::empty(),
            addrs: Map::empty(),
            records: crate::records::RecordsView::empty(),
            pool: crate::connection_pool::PoolView::empty(config.pool_config),
            manager: crate::worker::ManagerView::empty(),
            turn: 0,
        }
    }

    /// There are finitely many peers, each listed under its id and each with a record.
    pub open spec fn wf(self) -> bool {
        &&& self.peers.dom().finite()
        &&& forall|id: Seq<char>| #[trigger]
            self.peers.contains_key(id) ==> self.peers[id].id == id && self.records.holds(
                self.peers[id].record,
            )
        &&& self.records.wf()
        &&& self.pool.wf()
        &&& self.manager.wf()
    }

    /// What the copies of the peer `id` share.
    pub open spec fn shared(self, id: Seq<char>) -> crate::records::RecordView {
        self.peers[id].shared(self.records)
    }

    /// The ids of the peers that are connected.
    pub open spec fn connected(self) -> Set<Seq<char>> {
        self.peers.dom().filter(|id: Seq<char>| self.peers[id].connected)
    }

    /// The set with `peer` in it, served by `task`, and `connection` back in the pool.
    pub open spec fn added(
        self,
        peer: crate::peer::PeerView,
        connection: PooledConnection<S>,
        task: u64,
        now: Nanos,
    ) -> Self {
        SetView {
            peers: self.peers.insert(peer.id, peer.with_connected(true)),
            addrs: self.addrs.insert(peer.addr.spec_key(), peer.id),
            pool: self.pool.returned(connection, now),
            manager: self.manager.started(peer.id, task),
            ..self
        }
    }

    /// The set without the peer `id`, its address and its worker.
    pub open spec fn removed(self, id: Seq<char>) -> Self {
        if self.peers.contains_key(id) {
            SetView {
                peers: self.peers.remove(id),
                addrs: self.addrs.remove(self.peers[id].addr.spec_key()),
                manager: self.manager.stopped(id),
                ..self
            }
        } else {
            self
        }
    }

    /// What removing the peer `id` reports.
    pub open spec fn removal(self, id: Seq<char>) -> Option<RemovedView> {
        if self.peers.contains_key(id) {
            Some(RemovedView { id, stopped: self.manager.worker_of(id) })
        } else {
            None
        }
    }

    /// The set without the address `key`.
    pub open spec fn without_address(self, key: AddressKey) -> Self {
        SetView { addrs: self.addrs.remove(key), ..self }
    }
}

impl<S> View for AsyncPeerSet<S> {
    type V = SetView<S>;

    closed spec fn view(&self) -> SetView<S> {
        SetView {
            config: self.config,
            peers: crate::tables::peers_in(self.peers),
            addrs: crate::tables::ids_in(self.addr_to_id),
            records: self.records@,
            pool: self.connection_pool@,
            manager: self.worker_manager@,
            turn: self.round_robin_counter,
        }
    }
}

/// A peer that was added, or that got a new worker.
#[derive(Debug)]
pub struct AddedPeer {
    /// The peer, for its worker.
    pub peer: AsyncPeer,
    /// The worker that the new one replaces, whose task is to be aborted.
    pub replaced: Option<WorkerTask>,
    /// Whether the peer is to be entered into the peer database as connected.
    pub announce: bool,
}

/// A peer that was removed. It is to be entered into the peer database as disconnected.
#[derive(Debug)]
pub struct RemovedPeer {
    pub id: String,
    /// The worker of the peer, whose task is to be aborted.
    pub stopped: Option<WorkerTask>,
}

/// A peer that was removed, in mathematical terms.
pub ghost struct RemovedView {
    pub id: Seq<char>,
    pub stopped: Option<crate::worker::WorkerTaskView>,
}

impl View for RemovedPeer {
    type V = RemovedView;

    open spec fn view(&self) -> RemovedView {
        RemovedView { id: self.id@, stopped: crate::worker::stopped_view(self.stopped) }
    }
}

/// A peer that may have been removed, in mathematical terms.
pub open spec fn removal_view(removal: Option<RemovedPeer>) -> Option<RemovedView> {
    match removal {
        Some(peer) => Some(peer@),
        None => None,
    }
}

/// Whether `error` says that a connection failed, for the reason `cause`.
pub open spec fn connection_failed(error: NetworkError, cause: Seq<char>) -> bool {
    error matches NetworkError::ConnectionFailed(text) && text@ == cause
}

impl<S> AsyncPeerSet<S> {
    /// A set without peers.
    pub fn new(config: PeerSetConfig) -> (set: Self)
        requires
            config.pool_config.permits_fit(),
        ensures
            set@.wf(),
            set@ == SetView::<S>::empty(config),
    {
        AsyncPeerSet {
            peers: new_peer_table(),
            addr_to_id: new_address_table(),
            records: PeerRecords::new(),
            connection_pool: ConnectionPool::new(config.pool_config),
            worker_manager: AsyncWorkerManager::new(),
            config,
            round_robin_counter: 0,
        }
    }

    /// The connections to the peers.
    pub fn connection_pool(&mut self) -> (pool: &mut ConnectionPool<S>)
        ensures
            pool@ == old(self)@.pool,
            final(self)@ == (SetView { pool: final(pool)@, ..old(self)@ }),
    {
        &mut self.connection_pool
    }

    /// What the copies of each peer share. A record of a peer of the set is not to be released.
    pub fn records(&mut self) -> (records: &mut PeerRecords)
        ensures
            records@ == old(self)@.records,
            final(self)@ == (SetView { records: final(records)@, ..old(self)@ }),
    {
        &mut self.records
    }

    /// The connections to the peers, and what the copies of each peer share.
    pub fn pool_and_records(&mut self) -> ((pool, records): (
        &mut ConnectionPool<S>,
        &mut PeerRecords,
    ))
        ensures
            pool@ == old(self)@.pool,
            records@ == old(self)@.records,
            final(self)@ == (SetView {
                pool: final(pool)@,
                records: final(records)@,
                ..old(self)@
            }),
    {
        (&mut self.connection_pool, &mut self.records)
    }

    /// The workers that serve the peers.
    pub fn worker_manager(&mut self) -> (manager: &mut AsyncWorkerManager)
        ensures
            manager@ == old(self)@.manager,
            final(self)@ == (SetView { manager: final(manager)@, ..old(self)@ }),
    {
        &mut self.worker_manager
    }

    /// The limits and habits of the set.
    pub fn get_config(&self) -> (config: &PeerSetConfig)
        ensures
            *config == self@.config,
    {
        &self.config
    }

    /// Starts to add a peer. Returns what is to be entered into the peer database. A set that is
    /// full takes no peer, and none takes a peer whose address it knows.
    pub fn add_peer(&self, addr: SocketAddress, nick: &str) -> (result: NetworkResult<NewPeer>)
        requires
            self@.wf(),
        ensures
            if self@.peers.len() >= self@.config.max_peers {
                result matches Err(error) && error is PeerLimitReached
            } else if self@.addrs.contains_key(addr.spec_key()) {
                result matches Err(error) && connection_failed(error, "Peer already exists"@)
            } else {
                result matches Ok(peer) && crate::random::is_random_uuid(peer.id@) && peer.addr
                    == addr && peer.nick@ == nick@ && peer.ping_time
                    == crate::peer::UNKNOWN_PING_TIME && !peer.whitelisted && peer.last_responded
                    == crate::time::UNIX_EPOCH
            },
    {
        if count_peers(&self.peers) >= self.config.max_peers {
            return Err(NetworkError::PeerLimitReached);
        }
        if knows_address(&self.addr_to_id, addr.key()) {
            return Err(NetworkError::ConnectionFailed("Peer already exists".to_owned()));
        }
        Ok(NewPeer::new(addr, nick))
    }

    /// Finishes adding `peer`, whose address reads `addr_text`: `connection` is what came of
    /// trying to get a connection to it. A peer that can be reached gets a worker, which `task`
    /// runs. The peer's record is one of this set's.
    pub fn finish_add_peer(
        &mut self,
        peer: AsyncPeer,
        connection: NetworkResult<PooledConnection<S>>,
        addr_text: &str,
        task: u64,
        now: Nanos,
    ) -> (result: NetworkResult<AddedPeer>)
        requires
            old(self)@.wf(),
            old(self)@.records.holds(peer@.record),
        ensures
            final(self)@.wf(),
            match connection {
                Ok(connection) => {
                    &&& result matches Ok(added)
                    &&& added.peer@ == peer@.with_connected(true)
                    &&& crate::worker::stopped_view(added.replaced)
                        == old(self)@.manager.worker_of(peer@.id)
                    &&& added.announce
                    &&& final(self)@ == old(self)@.added(peer@, connection, task, now)
                },
                Err(_) => {
                    &&& result matches Err(error)
                    &&& connection_failed(error, "Failed to connect to "@ + addr_text@)
                    &&& final(self)@ == old(self)@
                },
            },
    {
        let mut peer = peer;
        if !peer.health_check(&mut self.connection_pool, connection, now) {
            return Err(
                NetworkError::ConnectionFailed(labelled("Failed to connect to ", addr_text)),
            );
        }
        put_address(&mut self.addr_to_id, peer.get_addr().key(), peer.get_id().to_owned());
        put_peer(&mut self.peers, peer.get_id().to_owned(), peer.clone());
        let replaced = self.worker_manager.start_worker(peer.get_id(), task);
        Ok(AddedPeer { peer, replaced, announce: true })
    }

    /// The ids of the peers, in no particular order.
    pub fn get_peer_ids(&self) -> (ids: Vec<String>)
        ensures
            crate::worker::lists_once(ids@, self@.peers.dom()),
    {
        let listed = list_peers(&self.peers);
        let mut ids: Vec<String> = Vec::new();
        let mut k: usize = 0;
        while k < listed.len()
            invariant
                k <= listed@.len(),
                ids@.len() == k,
                forall|i: int| 0 <= i < k ==> (#[trigger] ids@[i])@ == listed@[i].0@,
            decreases listed@.len() - k,
        {
            ids.push(listed[k].0.clone());
            k += 1;
        }
        assert forall|id: Seq<char>| #[trigger] self@.peers.dom().contains(id) implies exists|
            i: int,
        |
            0 <= i < ids@.len() && (#[trigger] ids@[i])@ == id by {
            assert(crate::tables::peers_in(self.peers).contains_key(id));
            let i = choose|i: int| 0 <= i < listed@.len() && (#[trigger] listed@[i]).0@ == id;
            assert(ids@[i]@ == id);
        }
        assert forall|i: int| 0 <= i < ids@.len() implies self@.peers.dom().contains(
            (#[trigger] ids@[i])@,
        ) by {
            assert(crate::tables::peers_in(self.peers).contains_key(listed@[i].0@));
        }
        assert forall|i: int, j: int| 0 <= i < j < ids@.len() implies (#[trigger] ids@[i])@ != (
        #[trigger] ids@[j])@ by {
            assert(listed@[i].0@ != listed@[j].0@);
        }
        ids
    }

    /// Removes a peer, its address and its worker. Returns nothing if there is no such peer.
    pub fn remove_peer(&mut self, peer_id: &str) -> (removed: Option<RemovedPeer>)
        requires
            old(self)@.wf(),
        ensures
            final(self)@.wf(),
            final(self)@ == old(self)@.removed(peer_id@),
            removal_view(removed) == old(self)@.removal(peer_id@),
            removed is Some <==> old(self)@.peers.contains_key(peer_id@),
            removed matches Some(peer) ==> {
                &&& peer.id@ == peer_id@
                &&& peer.stopped is Some <==> old(self)@.manager.workers.contains_key(peer_id@)
                &&& peer.stopped matches Some(worker) ==> worker.peer_id@ == peer_id@
                    && worker.task == old(self)@.manager.workers[peer_id@].task
                &&& final(self)@.manager.workers == old(self)@.manager.workers.remove(peer_id@)
            },
            removed is None ==> final(self)@ == old(self)@,
            final(self)@.peers == old(self)@.peers.remove(peer_id@),
    {
        match take_peer(&mut self.peers, peer_id) {
            Some(peer) => {
                let _ = take_address(&mut self.addr_to_id, peer.get_addr().key());
                let stopped = self.worker_manager.stop_worker(peer_id);
                Some(RemovedPeer { id: peer_id.to_owned(), stopped })
            },
            None => {
                assert(self@.peers =~= old(self)@.peers);
                None
            },
        }
    }

    /// Removes the peer with this address.
    pub fn remove_peer_by_addr(&mut self, addr: SocketAddress) -> (removed: Option<RemovedPeer>)
        requires
            old(self)@.wf(),
        ensures
            final(self)@.wf(),
            if old(self)@.addrs.contains_key(addr.spec_key()) {
                let id = old(self)@.addrs[addr.spec_key()];
                &&& final(self)@ == old(self)@.without_address(addr.spec_key()).removed(id)
                &&& removal_view(removed) == old(self)@.removal(id)
                &&& removed is Some <==> old(self)@.peers.contains_key(id)
                &&& removed matches Some(peer) ==> {
                    &&& peer.id@ == id
                    &&& peer.stopped is Some <==> old(self)@.manager.workers.contains_key(id)
                    &&& peer.stopped matches Some(worker) ==> worker.task
                        == old(self)@.manager.workers[id].task
                }
                &&& final(self)@.peers == old(self)@.peers.remove(id)
                &&& !final(self)@.addrs.contains_key(addr.spec_key())
            } else {
                final(self)@ == old(self)@ && removed is None
            },
    {
        match take_address(&mut self.addr_to_id, addr.key()) {
            Some(id) => self.remove_peer(id.as_str()),
            None => {
                assert(self@.addrs =~= old(self)@.addrs);
                None
            },
        }
    }

    /// Sends a request on its way. Some requests go to all peers; any other is addressed to one
    /// that the set's strategy chooses among those that are connected. `rank` gives the score of
    /// a peer with its statistics, as an integer that orders as the scores do. Returns what is to
    /// be put on the channel of requests.
    pub fn make_request<F: Fn(&AsyncPeer, PeerStats) -> Option<i64>>(
        &mut self,
        request: QubicApiPacket,
        rank: F,
    ) -> (result: NetworkResult<QubicApiPacket>)
        requires
            old(self)@.wf(),
            forall|peer: &AsyncPeer, stats: PeerStats| rank.requires((peer, stats)),
        ensures
            final(self)@.wf(),
            if old(self)@.peers.len() == 0 {
                &&& result matches Err(error) && connection_failed(error, "No peers available"@)
                &&& final(self)@ == old(self)@
            } else if goes_to_all(request.api_type) {
                &&& result == Ok::<_, NetworkError>(request)
                &&& final(self)@ == old(self)@
            } else {
                &&& exists|chosen: Option<Seq<char>>| #[trigger]
                    may_select(old(self)@, rank, chosen) && addressed(request, chosen, result)
                &&& final(self)@ == old(self)@.turn_taken()
            },
            result is Ok ==> old(self)@.peers.len() > 0,
            (request.api_type is RequestCurrentTickInfo || request.api_type is RequestedQuorumTick
                || request.api_type is RequestTickData || request.api_type
                is RequestContractFunction || request.api_type is RequestAssets) ==> (result matches Ok(sent) ==> sent == request) && (
            old(self)@.peers.len() > 0 ==> result is Ok),
            !(request.api_type is RequestCurrentTickInfo || request.api_type is RequestedQuorumTick
                || request.api_type is RequestTickData || request.api_type
                is RequestContractFunction || request.api_type is RequestAssets) ==> (result matches Ok(sent) ==> {
                &&& sent.peer is Some
                &&& old(self)@.peers.contains_key(sent.peer->0@)
                &&& old(self)@.peers[sent.peer->0@].connected
                &&& sent.api_type == request.api_type
                &&& sent.header == request.header
                &&& sent.data@ == request.data@
            }),
            final(self)@.peers == old(self)@.peers,
            final(self)@.addrs == old(self)@.addrs,
            final(self)@.manager == old(self)@.manager,
    {
        if count_peers(&self.peers) == 0 {
            return Err(NetworkError::ConnectionFailed("No peers available".to_owned()));
        }
        if is_for_all(&request.api_type) {
            return Ok(request);
        }
        let ghost before = self@;
        let chosen = self.select_peer_for_request(rank);
        proof {
            requests_go_to_connected_peers(before, rank, crate::packet::name_view(chosen));
        }
        address_request(request, chosen)
    }

    /// The id of the peer that serves the next request.
    fn select_peer_for_request<F: Fn(&AsyncPeer, PeerStats) -> Option<i64>>(&mut self, rank: F) -> (chosen:
        Option<String>)
        requires
            old(self)@.wf(),
            forall|peer: &AsyncPeer, stats: PeerStats| rank.requires((peer, stats)),
        ensures
            final(self)@.wf(),
            may_select(old(self)@, rank, crate::packet::name_view(chosen)),
            final(self)@ == old(self)@.turn_taken(),
    {
        let listed = list_peers(&self.peers);
        proof {
            assert(self@.lists(listed@));
            lemma_listing(self@, listed@);
        }
        select_among(
            &listed,
            self.config.load_balancing,
            &self.records,
            rank,
            &mut self.round_robin_counter,
        )
    }

    /// How many peers there are.
    pub fn get_peer_count(&self) -> (count: usize)
        ensures
            count == self@.peers.len(),
    {
        count_peers(&self.peers)
    }

    /// How many peers are connected.
    pub fn get_connected_peer_count(&self) -> (count: usize)
        requires
            self@.wf(),
        ensures
            count == self@.connected().len(),
    {
        let listed = list_peers(&self.peers);
        proof {
            lemma_listing(self@, listed@);
        }
        count_connected(&listed)
    }

    /// The statistics of all peers by their ids, in no particular order.
    pub fn get_peer_stats(&self) -> (stats: Vec<(String, PeerStats)>)
        requires
            self@.wf(),
        ensures
            forall|i: int|
                0 <= i < stats@.len() ==> self@.peers.contains_key(#[trigger] stats@[i].0@)
                    && stats@[i].1 == self@.shared(stats@[i].0@).stats,
            forall|i: int, j: int|
                0 <= i < j < stats@.len() ==> (#[trigger] stats@[i]).0@ != (
                #[trigger] stats@[j]).0@,
            forall|id: Seq<char>| #[trigger]
                self@.peers.contains_key(id) ==> exists|i: int|
                    0 <= i < stats@.len() && (#[trigger] stats@[i]).0@ == id,
    {
        let listed = list_peers(&self.peers);
        let mut stats: Vec<(String, PeerStats)> = Vec::new();
        let mut k: usize = 0;
        while k < listed.len()
            invariant
                k <= listed@.len(),
                stats@.len() == k,
                forall|i: int|
                    0 <= i < k ==> (#[trigger] stats@[i]).0@ == listed@[i].0@ && stats@[i].1
                        == listed@[i].1@.shared(self@.records).stats,
                self@.wf(),
                forall|i: int|
                    0 <= i < listed@.len() ==> self@.peers.contains_key(#[trigger] listed@[i].0@)
                        && listed@[i].1@ == self@.peers[listed@[i].0@],
            decreases listed@.len() - k,
        {
            assert(self@.peers.contains_key(listed@[k as int].0@));
            stats.push((listed[k].0.clone(), listed[k].1.get_stats(&self.records)));
            k += 1;
        }
        assert forall|i: int| 0 <= i < stats@.len() implies self@.peers.contains_key(
            #[trigger] stats@[i].0@,
        ) && stats@[i].1 == self@.shared(stats@[i].0@).stats by {
            assert(crate::tables::peers_in(self.peers).contains_key(listed@[i].0@));
        }
        assert forall|i: int, j: int| 0 <= i < j < stats@.len() implies (#[trigger] stats@[i]).0@
            != (#[trigger] stats@[j]).0@ by {
            assert(listed@[i].0@ != listed@[j].0@);
        }
        assert forall|id: Seq<char>| #[trigger] self@.peers.contains_key(id) implies exists|i: int|
            0 <= i < stats@.len() && (#[trigger] stats@[i]).0@ == id by {
            assert(crate::tables::peers_in(self.peers).contains_key(id));
            let i = choose|i: int| 0 <= i < listed@.len() && (#[trigger] listed@[i]).0@ == id;
            assert(stats@[i].0@ == id);
        }
        stats
    }

    /// The peers to check and their addresses, in no particular order.
    pub fn health_check_targets(&self) -> (targets: Vec<(String, SocketAddress)>)
        ensures
            forall|i: int|
                0 <= i < targets@.len() ==> self@.peers.contains_key(#[trigger] targets@[i].0@)
                    && targets@[i].1 == self@.peers[targets@[i].0@].addr,
            forall|i: int, j: int|
                0 <= i < j < targets@.len() ==> (#[trigger] targets@[i]).0@ != (
                #[trigger] targets@[j]).0@,
            forall|id: Seq<char>| #[trigger]
                self@.peers.contains_key(id) ==> exists|i: int|
                    0 <= i < targets@.len() && (#[trigger] targets@[i]).0@ == id,
    {
        let listed = list_peers(&self.peers);
        let mut targets: Vec<(String, SocketAddress)> = Vec::new();
        let mut k: usize = 0;
        while k < listed.len()
            invariant
                k <= listed@.len(),
                targets@.len() == k,
                forall|i: int|
                    0 <= i < k ==> (#[trigger] targets@[i]).0@ == listed@[i].0@ && targets@[i].1
                        == listed@[i].1@.addr,
            decreases listed@.len() - k,
        {
            targets.push((listed[k].0.clone(), listed[k].1.get_addr()));
            k += 1;
        }
        assert forall|i: int| 0 <= i < targets@.len() implies self@.peers.contains_key(
            #[trigger] targets@[i].0@,
        ) && targets@[i].1 == self@.peers[targets@[i].0@].addr by {
            assert(crate::tables::peers_in(self.peers).contains_key(listed@[i].0@));
        }
        assert forall|i: int, j: int| 0 <= i < j < targets@.len() implies (
        #[trigger] targets@[i]).0@ != (#[trigger] targets@[j]).0@ by {
            assert(listed@[i].0@ != listed@[j].0@);
        }
        assert forall|id: Seq<char>| #[trigger] self@.peers.contains_key(id) implies exists|i: int|
            0 <= i < targets@.len() && (#[trigger] targets@[i]).0@ == id by {
            assert(crate::tables::peers_in(self.peers).contains_key(id));
            let i = choose|i: int| 0 <= i < listed@.len() && (#[trigger] listed@[i]).0@ == id;
            assert(targets@[i].0@ == id);
        }
        targets
    }

    /// Takes in a check of the peer `peer_id`: `connection` is what came of trying to get a
    /// connection to it. Says whether the peer can be reached, and remembers it if the set still
    /// holds the peer.
    pub fn check_peer(
        &mut self,
        peer_id: &str,
        connection: NetworkResult<PooledConnection<S>>,
        now: Nanos,
    ) -> (healthy: bool)
        requires
            old(self)@.wf(),
        ensures
            final(self)@.wf(),
            healthy == (connection is Ok),
            final(self)@ == (SetView {
                pool: match connection {
                    Ok(connection) => old(self)@.pool.returned(connection, now),
                    Err(_) => old(self)@.pool,
                },
                ..old(self)@.with_connected(peer_id@, healthy)
            }),
    {
        match find_peer(&self.peers, peer_id) {
            Some(peer) => {
                let mut peer = peer;
                let healthy = peer.health_check(&mut self.connection_pool, connection, now);
                put_peer(&mut self.peers, peer_id.to_owned(), peer);
                healthy
            },
            None => match connection {
                Ok(connection) => {
                    self.connection_pool.return_connection(connection, now);
                    true
                },
                Err(_) => false,
            },
        }
    }

    /// Finishes a check of all peers, of which `results` says whether they could be reached:
    /// removes those that could not. Returns those that were removed.
    pub fn health_check_all_peers(&mut self, results: &Vec<(String, bool)>) -> (removed: Vec<
        RemovedPeer,
    >)
        requires
            old(self)@.wf(),
        ensures
            final(self)@.wf(),
            final(self)@ == old(self)@.all_removed(unreachable(results@)),
            removed_views(removed@) == old(self)@.all_removals(unreachable(results@)),
    {
        let mut removed: Vec<RemovedPeer> = Vec::new();
        let mut k: usize = 0;
        assert(results@.take(0) =~= Seq::empty());
        assert(removed_views(removed@) =~= Seq::empty());
        proof {
            reveal(Seq::filter_map);
        }
        while k < results.len()
            invariant
                k <= results@.len(),
                self@.wf(),
                self@ == old(self)@.all_removed(unreachable(results@.take(k as int))),
                removed_views(removed@) == old(self)@.all_removals(
                    unreachable(results@.take(k as int)),
                ),
            decreases results@.len() - k,
        {
            let ghost so_far = unreachable(results@.take(k as int));
            let ghost reported = removed@;
            proof {
                lemma_unreachable_step(results@, k as int);
            }
            if !results[k].1 {
                let id = results[k].0.as_str();
                assert(so_far.push(id@).drop_last() =~= so_far);
                match self.remove_peer(id) {
                    Some(peer) => {
                        removed.push(peer);
                        assert(removed_views(removed@) =~= removed_views(reported).push(peer@));
                    },
                    None => {},
                }
            }
            k += 1;
        }
        assert(results@.take(k as int) =~= results@);
        removed
    }

    /// Finishes a periodic check of all peers, of which `results` says whether they could be
    /// reached: removes those that could not, with their addresses and workers. Returns one entry
    /// for each of them, whether the set still held it or not.
    pub fn drop_unreachable_peers(&mut self, results: &Vec<(String, bool)>) -> (dropped: Vec<
        RemovedPeer,
    >)
        requires
            old(self)@.wf(),
        ensures
            final(self)@.wf(),
            final(self)@ == old(self)@.all_dropped(unreachable(results@)),
            removed_views(dropped@) == old(self)@.all_drops(unreachable(results@)),
    {
        let mut dropped: Vec<RemovedPeer> = Vec::new();
        let mut k: usize = 0;
        assert(results@.take(0) =~= Seq::empty());
        assert(removed_views(dropped@) =~= Seq::empty());
        proof {
            reveal(Seq::filter_map);
        }
        while k < results.len()
            invariant
                k <= results@.len(),
                self@.wf(),
                self@ == old(self)@.all_dropped(unreachable(results@.take(k as int))),
                removed_views(dropped@) == old(self)@.all_drops(
                    unreachable(results@.take(k as int)),
                ),
            decreases results@.len() - k,
        {
            let ghost so_far = unreachable(results@.take(k as int));
            let ghost reported = dropped@;
            let ghost before = self@;
            proof {
                lemma_unreachable_step(results@, k as int);
            }
            if !results[k].1 {
                let id = results[k].0.as_str();
                assert(so_far.push(id@).drop_last() =~= so_far);
                match take_peer(&mut self.peers, id) {
                    Some(peer) => {
                        let _ = take_address(&mut self.addr_to_id, peer.get_addr().key());
                    },
                    None => {
                        assert(self@.peers =~= before.peers);
                    },
                }
                let stopped = self.worker_manager.stop_worker(id);
                let entry = RemovedPeer { id: id.to_owned(), stopped };
                dropped.push(entry);
                assert(removed_views(dropped@) =~= removed_views(reported).push(entry@));
            }
            k += 1;
        }
        assert(results@.take(k as int) =~= results@);
        dropped
    }

    /// The `count` connected peers with the highest scores, the best first. `rank` gives the
    /// score of a peer with its statistics, as an integer that orders as the scores do.
    pub fn get_best_peers<F: Fn(&AsyncPeer, PeerStats) -> i64>(&self, count: usize, rank: F) -> (best: Vec<
        AsyncPeer,
    >)
        requires
            self@.wf(),
            forall|peer: &AsyncPeer, stats: PeerStats| rank.requires((peer, stats)),
        ensures
            best@.len() == if count < self@.connected().len() {
                count as nat
            } else {
                self@.connected().len()
            },
            exists|listed: Seq<(String, AsyncPeer)>| #[trigger]
                self@.lists(listed) && crate::listing::is_best_among(
                    listed,
                    self@.records,
                    rank,
                    count,
                    best@,
                ),
    {
        let listed = list_peers(&self.peers);
        proof {
            assert(self@.lists(listed@));
            lemma_listing(self@, listed@);
        }
        best_among(&listed, &self.records, rank, count)
    }

    /// Starts to reconnect a peer: returns it as the set knows it.
    pub fn reconnect_peer(&self, peer_id: &str) -> (result: NetworkResult<AsyncPeer>)
        ensures
            if self@.peers.contains_key(peer_id@) {
                result matches Ok(peer) && peer@ == self@.peers[peer_id@]
            } else {
                result matches Err(error) && connection_failed(error, "Peer not found"@)
            },
    {
        match find_peer(&self.peers, peer_id) {
            Some(peer) => Ok(peer),
            None => Err(NetworkError::ConnectionFailed("Peer not found".to_owned())),
        }
    }

    /// Finishes reconnecting `peer`: `connection` is what came of trying to get a connection to
    /// it. A peer that can be reached gets a new worker, which `task` runs. The flags that the set
    /// keeps of the peer stay as they are. A peer that was removed in the meantime gets no worker;
    /// its connection goes back to the pool all the same.
    pub fn finish_reconnect_peer(
        &mut self,
        peer_id: &str,
        peer: AsyncPeer,
        connection: NetworkResult<PooledConnection<S>>,
        task: u64,
        now: Nanos,
    ) -> (result: NetworkResult<AddedPeer>)
        requires
            old(self)@.wf(),
        ensures
            final(self)@.wf(),
            if !old(self)@.peers.contains_key(peer_id@) {
                &&& result matches Err(error) && connection_failed(error, "Peer not found"@)
                &&& final(self)@ == (SetView {
                    pool: match connection {
                        Ok(connection) => old(self)@.pool.returned(connection, now),
                        Err(_) => old(self)@.pool,
                    },
                    ..old(self)@
                })
            } else {
                match connection {
                    Ok(connection) => {
                        &&& result matches Ok(added)
                        &&& added.peer@ == peer@.with_connected(true)
                        &&& crate::worker::stopped_view(added.replaced)
                            == old(self)@.manager.worker_of(peer_id@)
                        &&& !added.announce
                        &&& final(self)@ == (SetView {
                            pool: old(self)@.pool.returned(connection, now),
                            manager: old(self)@.manager.started(peer_id@, task),
                            ..old(self)@
                        })
                    },
                    Err(_) => {
                        &&& result matches Err(error)
                        &&& connection_failed(error, "Health check failed"@)
                        &&& final(self)@ == old(self)@
                    },
                }
            },
    {
        if find_peer(&self.peers, peer_id).is_none() {
            if let Ok(connection) = connection {
                self.connection_pool.return_connection(connection, now);
            }
            return Err(NetworkError::ConnectionFailed("Peer not found".to_owned()));
        }
        let mut peer = peer;
        if peer.health_check(&mut self.connection_pool, connection, now) {
            let replaced = self.worker_manager.start_worker(peer_id, task);
            Ok(AddedPeer { peer, replaced, announce: false })
        } else {
            Err(NetworkError::ConnectionFailed("Health check failed".to_owned()))
        }
    }
}

/// Whether requests of this type go to all peers.
pub open spec fn goes_to_all(api_type: EntityType) -> bool {
    ||| api_type is RequestCurrentTickInfo
    ||| api_type is RequestedQuorumTick
    ||| api_type is RequestTickData
    ||| api_type is RequestContractFunction
    ||| api_type is RequestAssets
}

/// Whether requests of this type go to all peers.
fn is_for_all(api_type: &EntityType) -> (for_all: bool)
    ensures
        for_all == goes_to_all(*api_type),
        for_all <==> *api_type is RequestCurrentTickInfo || *api_type is RequestedQuorumTick
            || *api_type is RequestTickData || *api_type is RequestContractFunction || *api_type
            is RequestAssets,
{
    matches!(
        api_type,
        EntityType::RequestCurrentTickInfo
            | EntityType::RequestedQuorumTick
            | EntityType::RequestTickData
            | EntityType::RequestContractFunction
            | EntityType::RequestAssets
    )
}

/// Whether `result` is `request` addressed to the peer that was chosen, or the error that there
/// is none.
pub open spec fn addressed(
    request: QubicApiPacket,
    chosen: Option<Seq<char>>,
    result: NetworkResult<QubicApiPacket>,
) -> bool {
    match chosen {
        Some(id) => result matches Ok(sent) && sent@ == request@.addressed_to(id),
        None => result matches Err(error) && connection_failed(
            error,
            "No healthy peers available"@,
        ),
    }
}

/// Addresses a request to the peer that was chosen.
pub fn address_request(request: QubicApiPacket, chosen: Option<String>) -> (result: NetworkResult<
    QubicApiPacket,
>)
    ensures
        addressed(request, crate::packet::name_view(chosen), result),
{
    match chosen {
        Some(id) => {
            let mut request = request;
            request.peer = Some(id);
            Ok(request)
        },
        None => Err(NetworkError::ConnectionFailed("No healthy peers available".to_owned())),
    }
}

impl<S> SetView<S> {
    /// Whether `listed` are the peers of the set with their ids, each once, in some order.
    pub open spec fn lists(self, listed: Seq<(String, AsyncPeer)>) -> bool {
        &&& forall|i: int|
            0 <= i < listed.len() ==> self.peers.contains_key(#[trigger] listed[i].0@)
                && listed[i].1@ == self.peers[listed[i].0@]
        &&& forall|i: int, j: int|
            0 <= i < j < listed.len() ==> (#[trigger] listed[i]).0@ != (#[trigger] listed[j]).0@
        &&& forall|id: Seq<char>| #[trigger]
            self.peers.contains_key(id) ==> exists|i: int|
                0 <= i < listed.len() && (#[trigger] listed[i]).0@ == id
    }

    /// Whether the set may choose `chosen` for its next request if a walk over its peers comes to
    /// them in the order of `listed`.
    pub open spec fn may_select_from<F: Fn(&AsyncPeer, PeerStats) -> Option<i64>>(
        self,
        listed: Seq<(String, AsyncPeer)>,
        rank: F,
        chosen: Option<Seq<char>>,
    ) -> bool {
        crate::listing::may_select_among(
            listed,
            self.config.load_balancing,
            self.records,
            rank,
            self.turn,
            chosen,
        )
    }

    /// The set after a peer was chosen `k` times.
    pub open spec fn after_turns(self, k: nat) -> Self
        decreases k,
    {
        if k == 0 {
            self
        } else {
            self.after_turns((k - 1) as nat).turn_taken()
        }
    }

    /// The set after a peer was chosen.
    pub open spec fn turn_taken(self) -> Self {
        SetView {
            turn: crate::selection::next_turn(
                self.config.load_balancing,
                self.connected().len(),
                self.turn,
            ),
            ..self
        }
    }

    /// The set with the connection state of the peer `id`, if it holds it, set.
    pub open spec fn with_connected(self, id: Seq<char>, connected: bool) -> Self {
        if self.peers.contains_key(id) {
            SetView {
                peers: self.peers.insert(id, self.peers[id].with_connected(connected)),
                ..self
            }
        } else {
            self
        }
    }

    /// The set after the peers `ids` were removed, one after the other.
    pub open spec fn all_removed(self, ids: Seq<Seq<char>>) -> Self
        decreases ids.len(),
    {
        if ids.len() == 0 {
            self
        } else {
            self.all_removed(ids.drop_last()).removed(ids.last())
        }
    }

    /// What removing the peers `ids`, one after the other, reports.
    pub open spec fn all_removals(self, ids: Seq<Seq<char>>) -> Seq<RemovedView>
        decreases ids.len(),
    {
        if ids.len() == 0 {
            Seq::empty()
        } else {
            let before = self.all_removals(ids.drop_last());
            match self.all_removed(ids.drop_last()).removal(ids.last()) {
                Some(removal) => before.push(removal),
                None => before,
            }
        }
    }

    /// The set without the peer `id`, its address and its worker. A worker is stopped even where
    /// the set does not hold its peer.
    pub open spec fn dropped(self, id: Seq<char>) -> Self {
        SetView { manager: self.manager.stopped(id), ..self.removed(id) }
    }

    /// The set after the peers `ids` were dropped, one after the other.
    pub open spec fn all_dropped(self, ids: Seq<Seq<char>>) -> Self
        decreases ids.len(),
    {
        if ids.len() == 0 {
            self
        } else {
            self.all_dropped(ids.drop_last()).dropped(ids.last())
        }
    }

    /// What dropping the peers `ids`, one after the other, reports.
    pub open spec fn all_drops(self, ids: Seq<Seq<char>>) -> Seq<RemovedView>
        decreases ids.len(),
    {
        if ids.len() == 0 {
            Seq::empty()
        } else {
            let stopped = self.all_dropped(ids.drop_last()).manager.worker_of(ids.last());
            self.all_drops(ids.drop_last()).push(RemovedView { id: ids.last(), stopped })
        }
    }
}

/// The ids of the peers that could not be reached.
pub open spec fn unreachable(results: Seq<(String, bool)>) -> Seq<Seq<char>> {
    results.filter_map(
        |result: (String, bool)|
            if result.1 {
                None
            } else {
                Some(result.0@)
            },
    )
}

/// Removed peers, in mathematical terms.
pub open spec fn removed_views(removed: Seq<RemovedPeer>) -> Seq<RemovedView> {
    removed.map_values(|peer: RemovedPeer| peer@)
}

/// Whether a set may choose `chosen` for its next request. The order in which its peers are walked
/// over is left open.
pub open spec fn may_select<S, F: Fn(&AsyncPeer, PeerStats) -> Option<i64>>(
    set: SetView<S>,
    rank: F,
    chosen: Option<Seq<char>>,
) -> bool {
    exists|listed: Seq<(String, AsyncPeer)>| #[trigger]
        set.lists(listed) && set.may_select_from(listed, rank, chosen)
}

proof fn lemma_unreachable_step(results: Seq<(String, bool)>, k: int)
    requires
        0 <= k < results.len(),
    ensures
        unreachable(results.take(k + 1)) == if results[k].1 {
            unreachable(results.take(k))
        } else {
            unreachable(results.take(k)).push(results[k].0@)
        },
{
    reveal(Seq::filter_map);
    assert(results.take(k + 1).drop_last() =~= results.take(k));
    let before = unreachable(results.take(k));
    assert(before + seq![results[k].0@] =~= before.push(results[k].0@));
}

/// The connected entries of a list of a set's peers are its connected peers, each once.
pub(crate) proof fn lemma_listing<S>(set: SetView<S>, listed: Seq<(String, AsyncPeer)>)
    requires
        set.wf(),
        set.lists(listed),
    ensures
        crate::listing::connected_in(listed).len() == set.connected().len(),
        crate::listing::has_records(listed, set.records),
        forall|i: int| 0 <= i < listed.len() ==> (#[trigger] listed[i]).0@ == listed[i].1@.id,
        forall|a: int|
            0 <= a < crate::listing::connected_in(listed).len() ==> set.connected().contains(
                (#[trigger] crate::listing::connected_in(listed)[a]).1@.id,
            ),
        forall|a: int, b: int|
            0 <= a < b < crate::listing::connected_in(listed).len() ==> (
            #[trigger] crate::listing::connected_in(listed)[a]).1@.id != (
            #[trigger] crate::listing::connected_in(listed)[b]).1@.id,
        forall|id: Seq<char>| #[trigger]
            set.connected().contains(id) ==> exists|a: int|
                0 <= a < crate::listing::connected_in(listed).len() && (
                #[trigger] crate::listing::connected_in(listed)[a]).1@.id == id,
{
    let entries = crate::listing::connected_in(listed);
    crate::listing::lemma_connected_in(listed);
    assert forall|i: int| 0 <= i < listed.len() implies (#[trigger] listed[i]).0@
        == listed[i].1@.id && set.records.holds(listed[i].1@.record) by {
        assert(set.peers.contains_key(listed[i].0@));
    }
    assert forall|a: int| 0 <= a < entries.len() implies set.connected().contains(
        (#[trigger] entries[a]).1@.id,
    ) && entries[a].0@ == entries[a].1@.id by {
        assert(listed.contains(entries[a]));
        let i = choose|i: int| 0 <= i < listed.len() && listed[i] == entries[a];
        assert(set.peers.contains_key(listed[i].0@));
    }
    assert forall|id: Seq<char>| #[trigger] set.connected().contains(id) implies exists|a: int|
        0 <= a < entries.len() && (#[trigger] entries[a]).1@.id == id by {
        assert(set.peers.contains_key(id));
        let i = choose|i: int| 0 <= i < listed.len() && (#[trigger] listed[i]).0@ == id;
        assert(entries.contains(listed[i]));
        let a = choose|a: int| 0 <= a < entries.len() && entries[a] == listed[i];
        assert(entries[a].1@.id == id);
    }
    assert forall|a: int, b: int| 0 <= a < b < entries.len() implies (#[trigger] entries[a]).1@.id
        != (#[trigger] entries[b]).1@.id by {
        assert(entries[a].0@ != entries[b].0@);
    }
    let ids = entries.map_values(|entry: (String, AsyncPeer)| entry.1@.id);
    assert(ids.no_duplicates()) by {
        assert forall|a: int, b: int|
            0 <= a < ids.len() && 0 <= b < ids.len() && a != b implies ids[a] != ids[b] by {
            if a < b {
                assert(entries[a].1@.id != entries[b].1@.id);
            } else {
                assert(entries[b].1@.id != entries[a].1@.id);
            }
        }
    }
    ids.unique_seq_to_set();
    assert(ids.to_set() =~= set.connected()) by {
        assert forall|id: Seq<char>| ids.to_set().contains(id) <==> set.connected().contains(
            id,
        ) by {
            if ids.to_set().contains(id) {
                let a = choose|a: int| 0 <= a < ids.len() && ids[a] == id;
                assert(entries[a].1@.id == id);
            }
            if set.connected().contains(id) {
                let a = choose|a: int| 0 <= a < entries.len() && (#[trigger] entries[a]).1@.id
                    == id;
                assert(ids[a] == id);
            }
        }
    }
}

impl<S> SetView<S> {
    /// Every peer is found under its address, and every address leads to its peer.
    pub open spec fn consistent(self) -> bool {
        &&& forall|id: Seq<char>| #[trigger]
            self.peers.contains_key(id) ==> self.addrs.contains_key(self.peers[id].addr.spec_key())
                && self.addrs[self.peers[id].addr.spec_key()] == id
        &&& forall|key: AddressKey| #[trigger]
            self.addrs.contains_key(key) ==> self.peers.contains_key(self.addrs[key])
                && self.peers[self.addrs[key]].addr.spec_key() == key
    }

    /// Whether the set knows neither the id nor the address of `peer`.
    pub open spec fn is_new(self, peer: crate::peer::PeerView) -> bool {
        &&& !self.peers.contains_key(peer.id)
        &&& !self.addrs.contains_key(peer.addr.spec_key())
    }
}

/// A set in which peers and addresses match stays so when a peer is added that is new to it,
/// when a peer is removed or dropped and when a peer is checked. An empty set is one.
pub proof fn peers_and_addresses_match<S>(
    set: SetView<S>,
    config: PeerSetConfig,
    peer: crate::peer::PeerView,
    connection: PooledConnection<S>,
    task: u64,
    now: Nanos,
    id: Seq<char>,
    connected: bool,
)
    requires
        set.consistent(),
    ensures
        SetView::<S>::empty(config).consistent(),
        set.is_new(peer) ==> set.added(peer, connection, task, now).consistent(),
        set.removed(id).consistent(),
        set.dropped(id).consistent(),
        set.with_connected(id, connected).consistent(),
{
    if set.is_new(peer) {
        let after = set.added(peer, connection, task, now);
        assert forall|key: AddressKey| #[trigger]
            after.addrs.contains_key(key) implies after.peers.contains_key(after.addrs[key])
            && after.peers[after.addrs[key]].addr.spec_key() == key by {
            if key != peer.addr.spec_key() {
                assert(set.addrs.contains_key(key));
            }
        }
        assert forall|id: Seq<char>| #[trigger]
            after.peers.contains_key(id) implies after.addrs.contains_key(
            after.peers[id].addr.spec_key(),
        ) && after.addrs[after.peers[id].addr.spec_key()] == id by {
            if id != peer.id {
                assert(set.peers.contains_key(id));
            }
        }
    }
    lemma_removed_consistent(set, id);
    lemma_checked_consistent(set, id, connected);
}

pub(crate) proof fn lemma_checked_consistent<S>(set: SetView<S>, id: Seq<char>, connected: bool)
    requires
        set.consistent(),
    ensures
        set.with_connected(id, connected).consistent(),
{
    let checked = set.with_connected(id, connected);
    assert forall|other: Seq<char>| #[trigger]
        checked.peers.contains_key(other) implies checked.addrs.contains_key(
        checked.peers[other].addr.spec_key(),
    ) && checked.addrs[checked.peers[other].addr.spec_key()] == other by {
        assert(set.peers.contains_key(other));
    }
    assert forall|key: AddressKey| #[trigger]
        checked.addrs.contains_key(key) implies checked.peers.contains_key(checked.addrs[key])
        && checked.peers[checked.addrs[key]].addr.spec_key() == key by {
        assert(set.addrs.contains_key(key));
    }
}

pub(crate) proof fn lemma_removed_consistent<S>(set: SetView<S>, id: Seq<char>)
    requires
        set.consistent(),
    ensures
        set.removed(id).consistent(),
        set.dropped(id).consistent(),
{
    if set.peers.contains_key(id) {
        let after = set.removed(id);
        assert forall|other: Seq<char>| #[trigger]
            after.peers.contains_key(other) implies after.addrs.contains_key(
            after.peers[other].addr.spec_key(),
        ) && after.addrs[after.peers[other].addr.spec_key()] == other by {
            assert(set.peers.contains_key(other));
        }
        assert forall|key: AddressKey| #[trigger]
            after.addrs.contains_key(key) implies after.peers.contains_key(after.addrs[key])
            && after.peers[after.addrs[key]].addr.spec_key() == key by {
            assert(set.addrs.contains_key(key));
        }
    }
    let dropped = set.dropped(id);
    assert(dropped.peers == set.removed(id).peers);
    assert(dropped.addrs == set.removed(id).addrs);
}

/// A peer that was added is in the set, is connected and has a worker, and the set refuses its
/// address from then on.
pub proof fn added_peer_is_known<S>(
    set: SetView<S>,
    peer: crate::peer::PeerView,
    connection: PooledConnection<S>,
    task: u64,
    now: Nanos,
)
    ensures
        ({
            let after = set.added(peer, connection, task, now);
            &&& after.peers.contains_key(peer.id)
            &&& after.connected().contains(peer.id)
            &&& after.addrs.contains_key(peer.addr.spec_key())
            &&& after.manager.worker_of(peer.id) == Some(
                crate::worker::WorkerTaskView { peer_id: peer.id, task },
            )
        }),
{
}

/// Where peers and addresses match, the set refuses an address exactly as long as one of its peers
/// has it.
pub proof fn address_is_refused_while_taken<S>(set: SetView<S>, addr: SocketAddress)
    requires
        set.consistent(),
    ensures
        set.addrs.contains_key(addr.spec_key()) <==> exists|id: Seq<char>| #[trigger]
            set.peers.contains_key(id) && set.peers[id].addr == addr,
{
    if set.addrs.contains_key(addr.spec_key()) {
        let id = set.addrs[addr.spec_key()];
        assert(set.peers.contains_key(id));
        crate::addr::address_key_is_injective(set.peers[id].addr, addr);
    }
}

/// As long as peers are added one at a time, no set grows beyond its limit: a peer that is not
/// refused still fits.
pub proof fn peer_limit_is_kept<S>(
    set: SetView<S>,
    peer: crate::peer::PeerView,
    connection: PooledConnection<S>,
    task: u64,
    now: Nanos,
)
    requires
        set.peers.dom().finite(),
        set.peers.len() < set.config.max_peers,
    ensures
        set.added(peer, connection, task, now).peers.len() <= set.config.max_peers,
{
    vstd::set::axiom_set_insert_len(set.peers.dom(), peer.id);
}

/// Removing a peer undoes adding it: peers, addresses and workers are as they were.
pub proof fn removing_undoes_adding<S>(
    set: SetView<S>,
    peer: crate::peer::PeerView,
    connection: PooledConnection<S>,
    task: u64,
    now: Nanos,
)
    requires
        set.is_new(peer),
        set.manager.worker_of(peer.id) is None,
    ensures
        ({
            let after = set.added(peer, connection, task, now).removed(peer.id);
            &&& after.peers == set.peers
            &&& after.addrs == set.addrs
            &&& after.manager == set.manager
            &&& after.config == set.config
            &&& after.turn == set.turn
        }),
{
    let after = set.added(peer, connection, task, now).removed(peer.id);
    assert(after.peers =~= set.peers);
    assert(after.addrs =~= set.addrs);
    assert(after.manager.workers =~= set.manager.workers);
}

/// A peer that was removed is gone, with its address and its worker; removing it again finds
/// nothing and changes nothing. Other peers stay.
pub proof fn removed_peer_is_gone<S>(set: SetView<S>, id: Seq<char>, other: Seq<char>)
    ensures
        !set.removed(id).peers.contains_key(id),
        set.removed(id).removal(id) is None,
        set.removed(id).removed(id) == set.removed(id),
        set.peers.contains_key(id) ==> set.removed(id).manager.worker_of(id) is None,
        set.peers.contains_key(id) ==> !set.removed(id).addrs.contains_key(
            set.peers[id].addr.spec_key(),
        ),
        other != id ==> (set.removed(id).peers.contains_key(other) <==> set.peers.contains_key(
            other,
        )),
        other != id && set.peers.contains_key(other) ==> set.removed(id).peers[other]
            == set.peers[other],
{
}

/// Where peers and addresses match, removing a peer by its address is removing it by its id.
pub proof fn removing_by_address_is_removing_by_id<S>(set: SetView<S>, addr: SocketAddress)
    requires
        set.consistent(),
        set.addrs.contains_key(addr.spec_key()),
    ensures
        ({
            let id = set.addrs[addr.spec_key()];
            &&& set.peers.contains_key(id)
            &&& set.peers[id].addr == addr
            &&& set.without_address(addr.spec_key()).removed(id) == set.removed(id)
        }),
{
    let id = set.addrs[addr.spec_key()];
    crate::addr::address_key_is_injective(set.peers[id].addr, addr);
    assert(set.without_address(addr.spec_key()).removed(id).addrs =~= set.removed(id).addrs);
}

/// Whether `results` says of the peer `id` that it could not be reached.
pub open spec fn found_unreachable(results: Seq<(String, bool)>, id: Seq<char>) -> bool {
    exists|i: int| 0 <= i < results.len() && (#[trigger] results[i]).0@ == id && !results[i].1
}

proof fn lemma_unreachable_contains(results: Seq<(String, bool)>, id: Seq<char>)
    ensures
        unreachable(results).contains(id) <==> found_unreachable(results, id),
    decreases results.len(),
{
    reveal(Seq::filter_map);
    if results.len() > 0 {
        let k = results.len() - 1;
        let before = results.take(k);
        lemma_unreachable_step(results, k);
        lemma_unreachable_contains(before, id);
        assert(results.take(k + 1) =~= results);
        let ids = unreachable(before);
        if ids.contains(id) {
            let i = choose|i: int|
                0 <= i < before.len() && (#[trigger] before[i]).0@ == id && !before[i].1;
            assert(results[i].0@ == id);
            let j = choose|j: int| 0 <= j < ids.len() && ids[j] == id;
            assert(ids.push(results[k].0@)[j] == id);
        }
        if found_unreachable(results, id) {
            let i = choose|i: int|
                0 <= i < results.len() && (#[trigger] results[i]).0@ == id && !results[i].1;
            if i < k {
                assert(before[i].0@ == id);
            } else {
                assert(ids.push(id)[ids.len() as int] == id);
            }
        }
        if unreachable(results).contains(id) && !ids.contains(id) {
            let j = choose|j: int|
                0 <= j < unreachable(results).len() && unreachable(results)[j] == id;
            if j < ids.len() {
                assert(ids[j] == id);
            }
            assert(results[k].0@ == id);
        }
    }
}

/// A check of all peers removes those that could not be reached and no others, and leaves those
/// that stay as they were. Peers and addresses go on matching.
pub proof fn health_check_removes_the_unreachable<S>(
    set: SetView<S>,
    results: Seq<(String, bool)>,
    id: Seq<char>,
)
    ensures
        ({
            let after = set.all_removed(unreachable(results));
            &&& after.peers.contains_key(id) <==> set.peers.contains_key(id) && !found_unreachable(
                results,
                id,
            )
            &&& after.peers.contains_key(id) ==> after.peers[id] == set.peers[id]
            &&& set.consistent() ==> after.consistent()
        }),
{
    lemma_unreachable_contains(results, id);
    lemma_all_removed(set, unreachable(results), id);
}

proof fn lemma_all_removed<S>(
    set: SetView<S>,
    ids: Seq<Seq<char>>,
    id: Seq<char>,
)
    ensures
        set.all_removed(ids).peers.contains_key(id) <==> set.peers.contains_key(id)
            && !ids.contains(id),
        set.all_removed(ids).peers.contains_key(id) ==> set.all_removed(ids).peers[id]
            == set.peers[id],
        set.consistent() ==> set.all_removed(ids).consistent(),
    decreases ids.len(),
{
    if ids.len() > 0 {
        let before = ids.drop_last();
        lemma_all_removed(set, before, id);
        if ids.contains(id) {
            let i = choose|i: int| 0 <= i < ids.len() && ids[i] == id;
            if i < before.len() {
                assert(before[i] == id);
            }
        }
        if before.contains(id) {
            let i = choose|i: int| 0 <= i < before.len() && before[i] == id;
            assert(ids[i] == id);
        }
        assert(ids.last() == ids[ids.len() - 1]);
        if set.consistent() {
            lemma_removed_consistent(set.all_removed(before), ids.last());
        }
    }
}

/// A periodic check drops the peers that could not be reached, and no others, and leaves those
/// that stay as they were. Peers and addresses go on matching, so that the address of a peer that
/// was dropped is free again.
pub proof fn periodic_check_drops_the_unreachable<S>(
    set: SetView<S>,
    results: Seq<(String, bool)>,
    id: Seq<char>,
)
    ensures
        ({
            let after = set.all_dropped(unreachable(results));
            &&& after.peers.contains_key(id) <==> set.peers.contains_key(id) && !found_unreachable(
                results,
                id,
            )
            &&& after.peers.contains_key(id) ==> after.peers[id] == set.peers[id]
            &&& set.consistent() ==> after.consistent()
        }),
{
    lemma_unreachable_contains(results, id);
    lemma_all_dropped(set, unreachable(results), id);
}

proof fn lemma_all_dropped<S>(
    set: SetView<S>,
    ids: Seq<Seq<char>>,
    id: Seq<char>,
)
    ensures
        set.all_dropped(ids).peers.contains_key(id) <==> set.peers.contains_key(id)
            && !ids.contains(id),
        set.all_dropped(ids).peers.contains_key(id) ==> set.all_dropped(ids).peers[id]
            == set.peers[id],
        set.consistent() ==> set.all_dropped(ids).consistent(),
    decreases ids.len(),
{
    if ids.len() > 0 {
        let before = ids.drop_last();
        lemma_all_dropped(set, before, id);
        if ids.contains(id) {
            let i = choose|i: int| 0 <= i < ids.len() && ids[i] == id;
            if i < before.len() {
                assert(before[i] == id);
            }
        }
        if before.contains(id) {
            let i = choose|i: int| 0 <= i < before.len() && before[i] == id;
            assert(ids[i] == id);
        }
        assert(ids.last() == ids[ids.len() - 1]);
        if set.consistent() {
            lemma_removed_consistent(set.all_dropped(before), ids.last());
        }
    }
}

/// A request is only ever addressed to a connected peer, and a set that does not go by scores
/// finds one whenever there is one.
pub proof fn requests_go_to_connected_peers<S, F: Fn(&AsyncPeer, PeerStats) -> Option<i64>>(
    set: SetView<S>,
    rank: F,
    chosen: Option<Seq<char>>,
)
    requires
        set.wf(),
        may_select(set, rank, chosen),
    ensures
        chosen matches Some(id) ==> set.connected().contains(id),
        chosen is None && !(set.config.load_balancing is ScoreBased) ==> set.connected().len() == 0,
        set.connected().len() == 0 ==> chosen is None,
{
    let listed = choose|listed: Seq<(String, AsyncPeer)>| #[trigger]
        set.lists(listed) && set.may_select_from(listed, rank, chosen);
    lemma_listing(set, listed);
    let entries = crate::listing::connected_in(listed);
    let strategy = set.config.load_balancing;
    let candidates = choose|candidates: Seq<crate::selection::Candidate>| #[trigger]
        crate::listing::candidates_are(entries, strategy, set.records, rank, candidates)
            && crate::selection::may_choose(strategy, candidates, set.turn, chosen);
    assert forall|i: int| 0 <= i < candidates.len() implies set.connected().contains(
        (#[trigger] candidates[i]).id@,
    ) by {
        assert(set.connected().contains(entries[i].1@.id));
    }
    if candidates.len() > 0 {
        let n = candidates.len() as int;
        vstd::arithmetic::div_mod::lemma_mod_bound(set.turn as int, n);
        assert(set.connected().contains(candidates[set.turn as int % n].id@));
    }
}

/// A set that takes turns goes through its connected peers: as long as the walk over them keeps
/// its order and the count of turns does not start over, as many requests in a row as there are
/// connected peers go to each of them exactly once, and the next one goes where the first went.
pub proof fn round_robin_goes_through_the_set<S, F: Fn(&AsyncPeer, PeerStats) -> Option<i64>>(
    set: SetView<S>,
    listed: Seq<(String, AsyncPeer)>,
    rank: F,
    id: Seq<char>,
)
    requires
        set.wf(),
        set.config.load_balancing is RoundRobin,
        set.lists(listed),
        set.connected().contains(id),
        set.turn + set.connected().len() <= u32::MAX + 1,
    ensures
        exists|k: nat|
            k < set.connected().len() && #[trigger] set.after_turns(k).may_select_from(
                listed,
                rank,
                Some(id),
            ),
        forall|k: nat, l: nat|
            k < set.connected().len() && l < set.connected().len() && #[trigger] set.after_turns(
                k,
            ).may_select_from(listed, rank, Some(id)) && #[trigger] set.after_turns(
                l,
            ).may_select_from(listed, rank, Some(id)) ==> k == l,
        forall|k: nat, chosen: Option<Seq<char>>|
            k < set.connected().len() && #[trigger] set.after_turns(k).may_select_from(
                listed,
                rank,
                chosen,
            ) ==> chosen is Some && set.connected().contains(chosen->0),
        set.turn + set.connected().len() <= u32::MAX ==> forall|chosen: Option<Seq<char>>|
            set.may_select_from(listed, rank, chosen) <==> #[trigger] set.after_turns(
                set.connected().len(),
            ).may_select_from(listed, rank, chosen),
{
    let entries = crate::listing::connected_in(listed);
    let n = set.connected().len();
    let m = n as int;
    lemma_listing(set, listed);
    let i = choose|i: int| 0 <= i < entries.len() && (#[trigger] entries[i]).1@.id == id;
    assert forall|k: nat, chosen: Option<Seq<char>>|
        k < n || (k == n && set.turn + n <= u32::MAX) implies (#[trigger] set.after_turns(
        k,
    ).may_select_from(listed, rank, chosen) <==> chosen == Some(
        entries[(set.turn + k) % m].1@.id,
    )) by {
        lemma_after_turns(set, k);
        crate::selection::lemma_turn_after(n, set.turn, k);
        crate::listing::round_robin_follows_the_list(
            listed,
            set.records,
            rank,
            (set.turn + k) as u32,
            chosen,
        );
    }
    assert forall|k: nat| #![trigger set.after_turns(k)] k < n implies 0 <= (set.turn + k) % m
        < n by {
        vstd::arithmetic::div_mod::lemma_mod_bound(set.turn + k, m);
    }
    crate::selection::lemma_one_turn_each(n, set.turn, i);
    let k = choose|k: int| 0 <= k < n && #[trigger] ((set.turn + k) % m) == i;
    assert(set.after_turns(k as nat).may_select_from(listed, rank, Some(id)));
    assert forall|k: nat|
        k < n && #[trigger] set.after_turns(k).may_select_from(listed, rank, Some(id)) implies (
    set.turn + k) % m == i by {
        let at = (set.turn + k) % m;
        assert(entries[at].1@.id == entries[i].1@.id);
    }
    assert forall|k: nat, chosen: Option<Seq<char>>|
        k < n && #[trigger] set.after_turns(k).may_select_from(listed, rank, chosen) implies chosen
        is Some && set.connected().contains(chosen->0) by {
        let at = (set.turn + k) % m;
        assert(set.connected().contains(entries[at].1@.id));
    }
    if set.turn + n <= u32::MAX {
        vstd::arithmetic::div_mod::lemma_mod_add_multiples_vanish(set.turn as int, m);
        assert forall|chosen: Option<Seq<char>>|
            set.may_select_from(listed, rank, chosen) <==> #[trigger] set.after_turns(
                n,
            ).may_select_from(listed, rank, chosen) by {
            assert(set.after_turns(0).may_select_from(listed, rank, chosen) <==> chosen == Some(
                entries[(set.turn + 0) % m].1@.id,
            ));
        }
    }
}

proof fn lemma_after_turns<S>(set: SetView<S>, k: nat)
    requires
        set.config.load_balancing is RoundRobin,
    ensures
        set.after_turns(k) == (SetView {
            turn: crate::selection::turn_after(set.connected().len(), set.turn, k),
            ..set
        }),
    decreases k,
{
    if k > 0 {
        lemma_after_turns(set, (k - 1) as nat);
        let before = set.after_turns((k - 1) as nat);
        assert(before.connected() =~= set.connected());
    }
}

/// Whether `shown` is `result`, with an error put into words.
pub open spec fn in_words<T>(result: NetworkResult<T>, shown: Result<T, String>) -> bool {
    match result {
        Ok(value) => shown == Ok::<T, String>(value),
        Err(error) => shown matches Err(text) && text@ == error.text(),
    }
}

/// Puts an error into words.
pub fn describe<T>(result: NetworkResult<T>) -> (shown: Result<T, String>)
    ensures
        in_words(result, shown),
{
    match result {
        Ok(value) => Ok(value),
        Err(error) => Err(error.message()),
    }
}

/// A set of peers for callers who want errors in words.
pub struct PeerSet<S> {
    pub async_peer_set: AsyncPeerSet<S>,
}

impl<S> PeerSet<S> {
    /// A set without peers, configured as usual.
    pub fn new() -> (set: Self)
        ensures
            set.async_peer_set@ == SetView::<S>::empty(PeerSetConfig::spec_default()),
            set.async_peer_set@.wf(),
    {
        PeerSet { async_peer_set: AsyncPeerSet::new(PeerSetConfig::default()) }
    }

    /// The ids of the peers, in no particular order.
    pub fn get_peers(&self) -> (ids: Vec<String>)
        ensures
            crate::worker::lists_once(ids@, self.async_peer_set@.peers.dom()),
    {
        self.async_peer_set.get_peer_ids()
    }

    /// The ids of the peers, in no particular order.
    pub fn get_peer_ids(&self) -> (ids: Vec<String>)
        ensures
            crate::worker::lists_once(ids@, self.async_peer_set@.peers.dom()),
    {
        self.async_peer_set.get_peer_ids()
    }

    /// How many peers there are.
    pub fn num_peers(&self) -> (count: usize)
        ensures
            count == self.async_peer_set@.peers.len(),
    {
        self.async_peer_set.get_peer_count()
    }

    /// Starts to add a peer without a nick. `addr` is what the caller's text says, if it is an
    /// address.
    pub fn add_peer(&self, addr: Option<SocketAddress>) -> (result: Result<NewPeer, String>)
        requires
            self.async_peer_set@.wf(),
        ensures
            match addr {
                None => result matches Err(text) && text@ == "Invalid IP address format"@,
                Some(addr) => {
                    let set = self.async_peer_set@;
                    if set.peers.len() >= set.config.max_peers {
                        result matches Err(text) && text@ == NetworkError::PeerLimitReached.text()
                    } else if set.addrs.contains_key(addr.spec_key()) {
                        result matches Err(text) && text@ == "Connection failed: "@
                            + "Peer already exists"@
                    } else {
                        result matches Ok(peer) && crate::random::is_random_uuid(peer.id@)
                            && peer.addr == addr && peer.nick@ == ""@ && peer.ping_time
                            == crate::peer::UNKNOWN_PING_TIME && !peer.whitelisted
                            && peer.last_responded == crate::time::UNIX_EPOCH
                    }
                },
            },
    {
        match addr {
            None => Err("Invalid IP address format".to_owned()),
            Some(addr) => describe(self.async_peer_set.add_peer(addr, "")),
        }
    }

    /// Finishes adding a peer, as [`AsyncPeerSet::finish_add_peer`] does.
    pub fn finish_add_peer(
        &mut self,
        peer: AsyncPeer,
        connection: NetworkResult<PooledConnection<S>>,
        addr_text: &str,
        task: u64,
        now: Nanos,
    ) -> (result: Result<AddedPeer, String>)
        requires
            old(self).async_peer_set@.wf(),
            old(self).async_peer_set@.records.holds(peer@.record),
        ensures
            final(self).async_peer_set@.wf(),
            match connection {
                Ok(connection) => {
                    &&& result matches Ok(added)
                    &&& added.peer@ == peer@.with_connected(true)
                    &&& crate::worker::stopped_view(added.replaced)
                        == old(self).async_peer_set@.manager.worker_of(peer@.id)
                    &&& added.announce
                    &&& final(self).async_peer_set@ == old(self).async_peer_set@.added(
                        peer@,
                        connection,
                        task,
                        now,
                    )
                },
                Err(_) => {
                    &&& result matches Err(text)
                    &&& text@ == "Connection failed: "@ + ("Failed to connect to "@ + addr_text@)
                    &&& final(self).async_peer_set@ == old(self).async_peer_set@
                },
            },
    {
        describe(self.async_peer_set.finish_add_peer(peer, connection, addr_text, task, now))
    }

    /// Removes a peer, as [`AsyncPeerSet::remove_peer`] does.
    pub fn delete_peer_by_id(&mut self, id: &str) -> (removed: Option<RemovedPeer>)
        requires
            old(self).async_peer_set@.wf(),
        ensures
            final(self).async_peer_set@.wf(),
            final(self).async_peer_set@ == old(self).async_peer_set@.removed(id@),
            removal_view(removed) == old(self).async_peer_set@.removal(id@),
            removed is Some <==> old(self).async_peer_set@.peers.contains_key(id@),
            removed matches Some(peer) ==> {
                &&& peer.id@ == id@
                &&& peer.stopped is Some
                    <==> old(self).async_peer_set@.manager.workers.contains_key(id@)
                &&& peer.stopped matches Some(worker) ==> worker.task
                    == old(self).async_peer_set@.manager.workers[id@].task
            },
            final(self).async_peer_set@.peers == old(self).async_peer_set@.peers.remove(id@),
    {
        self.async_peer_set.remove_peer(id)
    }

    /// Sends a request on its way, as [`AsyncPeerSet::make_request`] does.
    pub fn make_request<F: Fn(&AsyncPeer, PeerStats) -> Option<i64>>(
        &mut self,
        request: QubicApiPacket,
        rank: F,
    ) -> (result: Result<QubicApiPacket, String>)
        requires
            old(self).async_peer_set@.wf(),
            forall|peer: &AsyncPeer, stats: PeerStats| rank.requires((peer, stats)),
        ensures
            final(self).async_peer_set@.wf(),
            if old(self).async_peer_set@.peers.len() == 0 {
                &&& result matches Err(text)
                &&& text@ == "Connection failed: "@ + "No peers available"@
                &&& final(self).async_peer_set@ == old(self).async_peer_set@
            } else if goes_to_all(request.api_type) {
                &&& result == Ok::<_, String>(request)
                &&& final(self).async_peer_set@ == old(self).async_peer_set@
            } else {
                &&& exists|chosen: Option<Seq<char>>| #[trigger]
                    may_select(old(self).async_peer_set@, rank, chosen) && match chosen {
                        Some(id) => result matches Ok(sent) && sent@ == request@.addressed_to(id),
                        None => result matches Err(text) && text@ == "Connection failed: "@
                            + "No healthy peers available"@,
                    }
                &&& final(self).async_peer_set@ == old(self).async_peer_set@.turn_taken()
            },
            (request.api_type is RequestCurrentTickInfo || request.api_type is RequestedQuorumTick
                || request.api_type is RequestTickData || request.api_type
                is RequestContractFunction || request.api_type is RequestAssets) ==> (result matches Ok(sent) ==> sent == request) && (
            old(self).async_peer_set@.peers.len() > 0 ==> result is Ok),
            !(request.api_type is RequestCurrentTickInfo || request.api_type is RequestedQuorumTick
                || request.api_type is RequestTickData || request.api_type
                is RequestContractFunction || request.api_type is RequestAssets) ==> (result matches Ok(sent) ==> {
                &&& sent.peer is Some
                &&& old(self).async_peer_set@.peers.contains_key(sent.peer->0@)
                &&& old(self).async_peer_set@.peers[sent.peer->0@].connected
                &&& sent.api_type == request.api_type
                &&& sent.header == request.header
                &&& sent.data@ == request.data@
            }),
    {
        describe(self.async_peer_set.make_request(request, rank))
    }
}

/// Requests of five types go to all peers. Any other, whatever its number, is addressed to the
/// peer that was chosen, so that this peer's worker serves it and no other does; where none was
/// chosen there is an error.
pub proof fn requests_go_to_all_or_to_one(
    request: QubicApiPacket,
    api_type: EntityType,
    id: Seq<char>,
    other: Seq<char>,
    result: NetworkResult<QubicApiPacket>,
)
    ensures
        goes_to_all(api_type) <==> api_type is RequestCurrentTickInfo || api_type
            is RequestedQuorumTick || api_type is RequestTickData || api_type
            is RequestContractFunction || api_type is RequestAssets,
        addressed(request, Some(id), result) ==> (result matches Ok(sent) && sent.peer matches Some(
            name,
        ) && name@ == id && sent.api_type == request.api_type && sent.header == request.header
            && sent.data@ == request.data@ && (sent@.is_for(other) <==> other == id)),
        addressed(request, None, result) ==> (
        result matches Err(NetworkError::ConnectionFailed(text)) && text@
            == "No healthy peers available"@),
{
}

/// What adding a peer does: it is entered under its id as connected, its address leads to it, its
/// worker runs as the given task, and nothing else of peers, addresses, workers, records, requests,
/// turns or limits changes.
pub proof fn adding_enters_one_peer<S>(
    set: SetView<S>,
    peer: crate::peer::PeerView,
    connection: PooledConnection<S>,
    task: u64,
    now: Nanos,
)
    ensures
        ({
            let after = set.added(peer, connection, task, now);
            &&& after.peers == set.peers.insert(
                peer.id,
                crate::peer::PeerView { connected: true, ..peer },
            )
            &&& after.addrs == set.addrs.insert(peer.addr.spec_key(), peer.id)
            &&& after.manager.workers == set.manager.workers.insert(
                peer.id,
                crate::worker::WorkerTaskView { peer_id: peer.id, task },
            )
            &&& after.manager.requests == set.manager.requests
            &&& after.records == set.records
            &&& after.config == set.config
            &&& after.turn == set.turn
            &&& after.pool.config == set.pool.config
            &&& after.pool.active == set.pool.active.wrapping_sub(1)
        }),
{
}

/// What removing a peer does and reports: a peer that the set holds, in whatever state, is taken
/// out with its address and its worker, and the report names it and holds the worker that it had.
/// For an id that the set does not hold there is no report and no change.
pub proof fn removing_takes_out_one_peer<S>(set: SetView<S>, id: Seq<char>)
    ensures
        set.removal(id) is Some <==> set.peers.contains_key(id),
        set.removal(id) matches Some(report) ==> report.id == id && (report.stopped is Some
            <==> set.manager.workers.contains_key(id)) && (report.stopped matches Some(worker)
            ==> worker == set.manager.workers[id]),
        set.peers.contains_key(id) ==> ({
            let after = set.removed(id);
            &&& after.peers == set.peers.remove(id)
            &&& after.addrs == set.addrs.remove(set.peers[id].addr.spec_key())
            &&& after.manager.workers == set.manager.workers.remove(id)
            &&& after.manager.requests == set.manager.requests
            &&& after.records == set.records
            &&& after.pool == set.pool
            &&& after.config == set.config
            &&& after.turn == set.turn
        }),
        !set.peers.contains_key(id) ==> set.removed(id) == set,
{
}

/// The view of a report leaves nothing of it out, and reports are taken one for one.
pub proof fn reports_are_complete(report: RemovedPeer, reports: Seq<RemovedPeer>, i: int)
    ensures
        removal_view(None) is None,
        removal_view(Some(report)) == Some(report@),
        report@.id == report.id@,
        report@.stopped is Some <==> report.stopped is Some,
        report.stopped matches Some(worker) ==> report@.stopped->0.peer_id == worker.peer_id@
            && report@.stopped->0.task == worker.task,
        removed_views(reports).len() == reports.len(),
        0 <= i < reports.len() ==> removed_views(reports)[i] == reports[i]@,
{
}

/// The ids of the peers that could not be reached are those of the results that say so, all of
/// them, in their order. Returns the places at which those results stand.
pub proof fn unreachable_are_those_that_failed(results: Seq<(String, bool)>) -> (from: Seq<int>)
    ensures
        from.len() == unreachable(results).len(),
        forall|k: int|
            #![trigger from[k]]
            0 <= k < from.len() ==> 0 <= from[k] < results.len() && unreachable(results)[k]
                == results[from[k]].0@,
        forall|k: int, l: int| 0 <= k < l < from.len() ==> #[trigger] from[k] < #[trigger] from[l],
        forall|i: int|
            0 <= i < results.len() ==> (from.contains(i) <==> !(#[trigger] results[i]).1),
    decreases results.len(),
{
    if results.len() == 0 {
        reveal(Seq::filter_map);
        assert(unreachable(results).len() == 0);
        Seq::empty()
    } else {
        let last = results.len() - 1;
        let start = results.take(last);
        let before = unreachable_are_those_that_failed(start);
        lemma_unreachable_step(results, last);
        assert(results.take(last + 1) =~= results);
        let from = if results[last].1 {
            before
        } else {
            before.push(last)
        };
        assert forall|k: int| #![trigger from[k]] 0 <= k < from.len() implies 0 <= from[k]
            < results.len() && unreachable(results)[k] == results[from[k]].0@ by {
            if k < before.len() {
                assert(from[k] == before[k]);
                assert(start[before[k]] == results[before[k]]);
            }
        }
        assert forall|k: int, l: int| 0 <= k < l < from.len() implies #[trigger] from[k]
            < #[trigger] from[l] by {
            assert(from[k] == before[k]);
            if l < before.len() {
                assert(before[k] < before[l]);
            }
        }
        assert forall|i: int| 0 <= i < results.len() implies (from.contains(i) <==> !(
        #[trigger] results[i]).1) by {
            if i < last {
                assert(start[i] == results[i]);
                if before.contains(i) {
                    let k = choose|k: int| 0 <= k < before.len() && before[k] == i;
                    assert(from[k] == i);
                }
                if from.contains(i) {
                    let k = choose|k: int| 0 <= k < from.len() && from[k] == i;
                    assert(before[k] == i);
                }
            } else {
                if !results[i].1 {
                    assert(from[before.len() as int] == i);
                }
                if from.contains(i) {
                    let k = choose|k: int| 0 <= k < from.len() && from[k] == i;
                    assert(results[i].1 ==> before[k] < last);
                }
            }
        }
        from
    }
}

/// After a periodic check no id that was found unreachable has a worker or a peer, whatever was
/// known of its connection; the workers and peers of all other ids are as before.
pub proof fn periodic_check_stops_the_unreachable<S>(
    set: SetView<S>,
    results: Seq<(String, bool)>,
    id: Seq<char>,
)
    ensures
        ({
            let after = set.all_dropped(unreachable(results));
            let failed = exists|i: int|
                0 <= i < results.len() && (#[trigger] results[i]).0@ == id && !results[i].1;
            &&& failed ==> !after.manager.workers.contains_key(id) && !after.peers.contains_key(id)
            &&& !failed ==> (after.manager.workers.contains_key(id)
                <==> set.manager.workers.contains_key(id)) && (
            after.manager.workers.contains_key(id) ==> after.manager.workers[id]
                == set.manager.workers[id]) && (after.peers.contains_key(id)
                <==> set.peers.contains_key(id)) && (after.peers.contains_key(id)
                ==> after.peers[id] == set.peers[id])
            &&& after.manager.requests == set.manager.requests
            &&& after.records == set.records
            &&& after.pool == set.pool
            &&& after.config == set.config
            &&& after.turn == set.turn
        }),
{
    lemma_unreachable_contains(results, id);
    lemma_dropped_raw(set, unreachable(results), id);
}

/// A periodic check reports each result that says unreachable, in their order, under its id and
/// with the worker that the id had before the check; a second mention of an id finds no worker.
/// Returns the places at which those results stand.
pub proof fn periodic_check_reports_every_worker<S>(
    set: SetView<S>,
    results: Seq<(String, bool)>,
) -> (from: Seq<int>)
    ensures
        from.len() == set.all_drops(unreachable(results)).len(),
        forall|k: int, l: int| 0 <= k < l < from.len() ==> #[trigger] from[k] < #[trigger] from[l],
        forall|i: int|
            0 <= i < results.len() ==> (from.contains(i) <==> !(#[trigger] results[i]).1),
        forall|k: int|
            #![trigger from[k]]
            0 <= k < from.len() ==> {
                let report = set.all_drops(unreachable(results))[k];
                let id = results[from[k]].0@;
                let mentioned = exists|i: int|
                    0 <= i < from[k] && (#[trigger] results[i]).0@ == id && !results[i].1;
                &&& 0 <= from[k] < results.len()
                &&& report.id == id
                &&& !mentioned && set.manager.workers.contains_key(id) ==> report.stopped == Some(
                    set.manager.workers[id],
                )
                &&& mentioned || !set.manager.workers.contains_key(id) ==> report.stopped is None
            },
{
    let from = unreachable_are_those_that_failed(results);
    let ids = unreachable(results);
    lemma_drops_raw(set, ids);
    assert forall|k: int| #![trigger from[k]] 0 <= k < from.len() implies {
        let report = set.all_drops(ids)[k];
        let id = results[from[k]].0@;
        let mentioned = exists|i: int|
            0 <= i < from[k] && (#[trigger] results[i]).0@ == id && !results[i].1;
        &&& 0 <= from[k] < results.len()
        &&& report.id == id
        &&& !mentioned && set.manager.workers.contains_key(id) ==> report.stopped == Some(
            set.manager.workers[id],
        )
        &&& mentioned || !set.manager.workers.contains_key(id) ==> report.stopped is None
    } by {
        let id = results[from[k]].0@;
        assert(ids[k] == id);
        lemma_mentioned(results, from, k);
    }
    from
}

/// A mention of an id before the `k`-th one that failed is a mention among the first `k`.
proof fn lemma_mentioned(results: Seq<(String, bool)>, from: Seq<int>, k: int)
    requires
        0 <= k < from.len(),
        from.len() == unreachable(results).len(),
        forall|k: int|
            #![trigger from[k]]
            0 <= k < from.len() ==> 0 <= from[k] < results.len() && unreachable(results)[k]
                == results[from[k]].0@,
        forall|k: int, l: int| 0 <= k < l < from.len() ==> #[trigger] from[k] < #[trigger] from[l],
        forall|i: int|
            0 <= i < results.len() ==> (from.contains(i) <==> !(#[trigger] results[i]).1),
    ensures
        (exists|i: int|
            0 <= i < from[k] && (#[trigger] results[i]).0@ == results[from[k]].0@ && !results[i].1)
            <==> (exists|l: int|
            0 <= l < k && #[trigger] unreachable(results)[l] == unreachable(results)[k]),
{
    let ids = unreachable(results);
    let id = results[from[k]].0@;
    if exists|i: int| 0 <= i < from[k] && (#[trigger] results[i]).0@ == id && !results[i].1 {
        let i = choose|i: int|
            0 <= i < from[k] && (#[trigger] results[i]).0@ == id && !results[i].1;
        assert(from.contains(i));
        let l = choose|l: int| 0 <= l < from.len() && from[l] == i;
        if k < l {
            assert(from[k] < from[l]);
        }
        assert(ids[l] == ids[k]);
    }
    if exists|l: int| 0 <= l < k && #[trigger] ids[l] == ids[k] {
        let l = choose|l: int| 0 <= l < k && #[trigger] ids[l] == ids[k];
        let i = from[l];
        assert(from[l] < from[k]);
        assert(from.contains(i));
        assert(results[i].0@ == id);
    }
}

proof fn lemma_dropped_raw<S>(set: SetView<S>, ids: Seq<Seq<char>>, id: Seq<char>)
    ensures
        ({
            let after = set.all_dropped(ids);
            &&& ids.contains(id) ==> !after.manager.workers.contains_key(id)
                && !after.peers.contains_key(id)
            &&& !ids.contains(id) ==> (after.manager.workers.contains_key(id)
                <==> set.manager.workers.contains_key(id)) && (
            after.manager.workers.contains_key(id) ==> after.manager.workers[id]
                == set.manager.workers[id]) && (after.peers.contains_key(id)
                <==> set.peers.contains_key(id)) && (after.peers.contains_key(id)
                ==> after.peers[id] == set.peers[id])
            &&& after.manager.requests == set.manager.requests
            &&& after.records == set.records
            &&& after.pool == set.pool
            &&& after.config == set.config
            &&& after.turn == set.turn
        }),
    decreases ids.len(),
{
    if ids.len() > 0 {
        let before = ids.drop_last();
        lemma_dropped_raw(set, before, id);
        assert(ids =~= before.push(ids.last()));
        assert(ids.contains(id) <==> before.contains(id) || id == ids.last()) by {
            if before.contains(id) {
                let i = choose|i: int| 0 <= i < before.len() && before[i] == id;
                assert(ids[i] == id);
            }
            if ids.contains(id) {
                let i = choose|i: int| 0 <= i < ids.len() && ids[i] == id;
                if i < before.len() {
                    assert(before[i] == id);
                }
            }
            assert(ids[ids.len() - 1] == ids.last());
        }
    }
}

proof fn lemma_drops_raw<S>(set: SetView<S>, ids: Seq<Seq<char>>)
    ensures
        set.all_drops(ids).len() == ids.len(),
        forall|k: int|
            #![trigger set.all_drops(ids)[k]]
            0 <= k < ids.len() ==> {
                let report = set.all_drops(ids)[k];
                let mentioned = exists|l: int| 0 <= l < k && #[trigger] ids[l] == ids[k];
                &&& report.id == ids[k]
                &&& !mentioned && set.manager.workers.contains_key(ids[k]) ==> report.stopped
                    == Some(set.manager.workers[ids[k]])
                &&& mentioned || !set.manager.workers.contains_key(ids[k]) ==> report.stopped
                    is None
            },
    decreases ids.len(),
{
    if ids.len() > 0 {
        let before = ids.drop_last();
        lemma_drops_raw(set, before);
        lemma_dropped_raw(set, before, ids.last());
        assert forall|k: int| #![trigger set.all_drops(ids)[k]] 0 <= k < ids.len() implies {
            let report = set.all_drops(ids)[k];
            let mentioned = exists|l: int| 0 <= l < k && #[trigger] ids[l] == ids[k];
            &&& report.id == ids[k]
            &&& !mentioned && set.manager.workers.contains_key(ids[k]) ==> report.stopped == Some(
                set.manager.workers[ids[k]],
            )
            &&& mentioned || !set.manager.workers.contains_key(ids[k]) ==> report.stopped is None
        } by {
            if k < before.len() {
                assert(set.all_drops(ids)[k] == set.all_drops(before)[k]);
                assert(before[k] == ids[k]);
                if exists|l: int| 0 <= l < k && #[trigger] ids[l] == ids[k] {
                    let l = choose|l: int| 0 <= l < k && #[trigger] ids[l] == ids[k];
                    assert(before[l] == before[k]);
                }
                if exists|l: int| 0 <= l < k && #[trigger] before[l] == before[k] {
                    let l = choose|l: int| 0 <= l < k && #[trigger] before[l] == before[k];
                    assert(ids[l] == ids[k]);
                }
            } else {
                let mentioned = exists|l: int| 0 <= l < k && #[trigger] ids[l] == ids[k];
                assert(mentioned <==> before.contains(ids[k])) by {
                    if mentioned {
                        let l = choose|l: int| 0 <= l < k && #[trigger] ids[l] == ids[k];
                        assert(before[l] == ids[k]);
                    }
                    if before.contains(ids[k]) {
                        let l = choose|l: int| 0 <= l < before.len() && before[l] == ids[k];
                        assert(ids[l] == ids[k]);
                    }
                }
            }
        }
    }
}

/// After a check of all peers no id that was found unreachable has a peer, and none that the set
/// held has a worker, whatever was known of its connection; the peers and workers of all other ids
/// are as before.
pub proof fn health_check_stops_the_unreachable<S>(
    set: SetView<S>,
    results: Seq<(String, bool)>,
    id: Seq<char>,
)
    ensures
        ({
            let after = set.all_removed(unreachable(results));
            let failed = exists|i: int|
                0 <= i < results.len() && (#[trigger] results[i]).0@ == id && !results[i].1;
            &&& failed ==> !after.peers.contains_key(id)
            &&& failed && set.peers.contains_key(id) ==> !after.manager.workers.contains_key(id)
            &&& !failed ==> (after.peers.contains_key(id) <==> set.peers.contains_key(id)) && (
            after.peers.contains_key(id) ==> after.peers[id] == set.peers[id])
            &&& !failed || !set.peers.contains_key(id) ==> (after.manager.workers.contains_key(id)
                <==> set.manager.workers.contains_key(id)) && (
            after.manager.workers.contains_key(id) ==> after.manager.workers[id]
                == set.manager.workers[id])
            &&& after.manager.requests == set.manager.requests
            &&& after.records == set.records
            &&& after.pool == set.pool
            &&& after.config == set.config
            &&& after.turn == set.turn
        }),
{
    lemma_unreachable_contains(results, id);
    lemma_removed_raw(set, unreachable(results), id);
}

/// A check of all peers reports exactly the peers of the set that it found unreachable, each once,
/// with the worker that it had, whatever was known of its connection.
pub proof fn health_check_reports_every_worker<S>(
    set: SetView<S>,
    results: Seq<(String, bool)>,
    id: Seq<char>,
)
    ensures
        ({
            let reports = set.all_removals(unreachable(results));
            let failed = exists|i: int|
                0 <= i < results.len() && (#[trigger] results[i]).0@ == id && !results[i].1;
            &&& failed && set.peers.contains_key(id) <==> exists|k: int|
                0 <= k < reports.len() && (#[trigger] reports[k]).id == id
            &&& forall|k: int|
                0 <= k < reports.len() && (#[trigger] reports[k]).id == id ==> (
                reports[k].stopped is Some <==> set.manager.workers.contains_key(id)) && (
                reports[k].stopped is Some ==> reports[k].stopped->0 == set.manager.workers[id])
            &&& forall|k: int, l: int|
                0 <= k < l < reports.len() ==> (#[trigger] reports[k]).id != (
                #[trigger] reports[l]).id
        }),
{
    lemma_unreachable_contains(results, id);
    lemma_removals_raw(set, unreachable(results));
}

proof fn lemma_removed_raw<S>(set: SetView<S>, ids: Seq<Seq<char>>, id: Seq<char>)
    ensures
        ({
            let after = set.all_removed(ids);
            &&& ids.contains(id) ==> !after.peers.contains_key(id)
            &&& ids.contains(id) && set.peers.contains_key(id)
                ==> !after.manager.workers.contains_key(id)
            &&& !ids.contains(id) ==> (after.peers.contains_key(id) <==> set.peers.contains_key(
                id,
            )) && (after.peers.contains_key(id) ==> after.peers[id] == set.peers[id])
            &&& !ids.contains(id) || !set.peers.contains_key(id) ==> (
            after.manager.workers.contains_key(id) <==> set.manager.workers.contains_key(id)) && (
            after.manager.workers.contains_key(id) ==> after.manager.workers[id]
                == set.manager.workers[id])
            &&& after.manager.requests == set.manager.requests
            &&& after.records == set.records
            &&& after.pool == set.pool
            &&& after.config == set.config
            &&& after.turn == set.turn
        }),
    decreases ids.len(),
{
    if ids.len() > 0 {
        let before = ids.drop_last();
        lemma_removed_raw(set, before, id);
        assert(ids.contains(id) <==> before.contains(id) || id == ids.last()) by {
            if before.contains(id) {
                let i = choose|i: int| 0 <= i < before.len() && before[i] == id;
                assert(ids[i] == id);
            }
            if ids.contains(id) {
                let i = choose|i: int| 0 <= i < ids.len() && ids[i] == id;
                if i < before.len() {
                    assert(before[i] == id);
                }
            }
            assert(ids[ids.len() - 1] == ids.last());
        }
    }
}

proof fn lemma_removals_raw<S>(set: SetView<S>, ids: Seq<Seq<char>>)
    ensures
        forall|id: Seq<char>|
            #![trigger set.peers.contains_key(id)]
            #![trigger ids.contains(id)]
            ids.contains(id) && set.peers.contains_key(id) ==> exists|k: int|
                0 <= k < set.all_removals(ids).len() && (#[trigger] set.all_removals(ids)[k]).id
                    == id,
        forall|k: int|
            #![trigger set.all_removals(ids)[k]]
            0 <= k < set.all_removals(ids).len() ==> {
                let report = set.all_removals(ids)[k];
                &&& ids.contains(report.id)
                &&& set.peers.contains_key(report.id)
                &&& report.stopped is Some <==> set.manager.workers.contains_key(report.id)
                &&& report.stopped is Some ==> report.stopped->0 == set.manager.workers[report.id]
            },
        forall|k: int, l: int|
            0 <= k < l < set.all_removals(ids).len() ==> (#[trigger] set.all_removals(ids)[k]).id
                != (#[trigger] set.all_removals(ids)[l]).id,
    decreases ids.len(),
{
    if ids.len() > 0 {
        let before = ids.drop_last();
        let last = ids.last();
        let earlier = set.all_removals(before);
        let reports = set.all_removals(ids);
        lemma_removals_raw(set, before);
        lemma_removed_raw(set, before, last);
        assert(ids[ids.len() - 1] == last);
        assert forall|id: Seq<char>| before.contains(id) implies #[trigger] ids.contains(id) by {
            let i = choose|i: int| 0 <= i < before.len() && before[i] == id;
            assert(ids[i] == id);
        }
        assert forall|id: Seq<char>|
            #![trigger set.peers.contains_key(id)]
            #![trigger ids.contains(id)]
            ids.contains(id) && set.peers.contains_key(id) implies exists|k: int|
            0 <= k < reports.len() && (#[trigger] reports[k]).id == id by {
            let i = choose|i: int| 0 <= i < ids.len() && ids[i] == id;
            if i < before.len() {
                assert(before[i] == id);
            }
            if before.contains(id) {
                let k = choose|k: int| 0 <= k < earlier.len() && (#[trigger] earlier[k]).id == id;
                assert(reports[k] == earlier[k]);
            } else {
                assert(id == last);
                assert(reports[earlier.len() as int].id == id);
            }
        }
        assert forall|k: int| #![trigger reports[k]] 0 <= k < reports.len() implies {
            let report = reports[k];
            &&& ids.contains(report.id)
            &&& set.peers.contains_key(report.id)
            &&& report.stopped is Some <==> set.manager.workers.contains_key(report.id)
            &&& report.stopped is Some ==> report.stopped->0 == set.manager.workers[report.id]
        } by {
            if k < earlier.len() {
                assert(reports[k] == earlier[k]);
                assert(before.contains(earlier[k].id));
            }
        }
        assert forall|k: int, l: int| 0 <= k < l < reports.len() implies (
        #[trigger] reports[k]).id != (#[trigger] reports[l]).id by {
            assert(reports[k] == earlier[k]);
            if l < earlier.len() {
                assert(reports[l] == earlier[l]);
            } else {
                assert(before.contains(earlier[k].id));
            }
        }
    }
}

/// What the other steps of a set change, and what they leave.
pub proof fn steps_of_a_set_change_one_thing<S>(
    set: SetView<S>,
    config: PeerSetConfig,
    id: Seq<char>,
    connected: bool,
    key: AddressKey,
)
    ensures
        set.peers.contains_key(id) ==> set.with_connected(id, connected) == (SetView {
            peers: set.peers.insert(
                id,
                crate::peer::PeerView { connected, ..set.peers[id] },
            ),
            ..set
        }),
        !set.peers.contains_key(id) ==> set.with_connected(id, connected) == set,
        set.connected().contains(id) <==> set.peers.contains_key(id) && set.peers[id].connected,
        set.without_address(key) == (SetView { addrs: set.addrs.remove(key), ..set }),
        set.shared(id) == set.records.entries[set.peers[id].record],
        set.turn_taken().peers == set.peers,
        set.turn_taken().addrs == set.addrs,
        set.turn_taken().records == set.records,
        set.turn_taken().pool == set.pool,
        set.turn_taken().manager == set.manager,
        set.turn_taken().config == set.config,
        set.config.load_balancing is RoundRobin && set.connected().len() > 0
            ==> set.turn_taken().turn == set.turn.wrapping_add(1),
        !(set.config.load_balancing is RoundRobin) || set.connected().len() == 0
            ==> set.turn_taken().turn == set.turn,
        SetView::<S>::empty(config).config == config,
        SetView::<S>::empty(config).peers == Map::<Seq<char>, crate::peer::PeerView>::empty(),
        SetView::<S>::empty(config).addrs == Map::<AddressKey, Seq<char>>::empty(),
        SetView::<S>::empty(config).turn == 0,
        SetView::<S>::empty(config).pool.idle.len() == 0,
        SetView::<S>::empty(config).pool.active == 0,
        SetView::<S>::empty(config).pool.config == config.pool_config,
{
}

/// An error is shown in full, and a result without one is handed on.
pub proof fn results_are_put_into_words<T>(
    result: NetworkResult<T>,
    shown: Result<T, String>,
    error: NetworkError,
    cause: Seq<char>,
)
    ensures
        in_words(result, shown) ==> (result is Ok <==> shown is Ok),
        in_words(result, shown) && result is Ok ==> shown->Ok_0 == result->Ok_0,
        in_words(result, shown) && result is Err ==> shown->Err_0@ == result->Err_0.text(),
        connection_failed(error, cause) <==> (error matches NetworkError::ConnectionFailed(text)
            && text@ == cause),
{
}

} // verus!
