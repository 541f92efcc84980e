//! What holds of a set of peers after any run of calls.

use vstd::prelude::*;

use crate::addr::SocketAddress;
use crate::connection_pool::PooledConnection;
use crate::peers::PeerSetConfig;
use crate::time::Nanos;

verus! {

/// What a call does to a set.
pub ghost enum SetEvent<S> {
    /// A peer was added.
    Added { peer: crate::peer::PeerView, connection: PooledConnection<S>, task: u64, now: Nanos },
    /// A peer was removed by its id, if there was one.
    Removed { id: Seq<char> },
    /// A peer was removed by its address, if there was one.
    RemovedByAddress { addr: SocketAddress },
    /// A peer was checked, and the pool is now `pool`.
    Checked { id: Seq<char>, connected: bool, pool: crate::connection_pool::PoolView<S> },
    /// All peers were checked.
    AllChecked { results: Seq<(String, bool)> },
    /// All peers were checked by the periodic check.
    PeriodicallyChecked { results: Seq<(String, bool)> },
    /// Something was done that concerns neither peers nor addresses: a request was made, a peer
    /// was refused or reconnected, a connection, a worker or a record was used.
    Other {
        records: crate::records::RecordsView,
        pool: crate::connection_pool::PoolView<S>,
        manager: crate::worker::ManagerView,
        turn: u32,
    },
}

impl<S> crate::peers::SetView<S> {
    /// The set after `event`.
    pub open spec fn after(self, event: SetEvent<S>) -> Self {
        match event {
            SetEvent::Added { peer, connection, task, now } => self.added(
                peer,
                connection,
                task,
                now,
            ),
            SetEvent::Removed { id } => self.removed(id),
            SetEvent::RemovedByAddress { addr } => if self.addrs.contains_key(addr.spec_key()) {
                self.without_address(addr.spec_key()).removed(self.addrs[addr.spec_key()])
            } else {
                self
            },
            SetEvent::Checked { id, connected, pool } => crate::peers::SetView {
                pool,
                ..self.with_connected(id, connected)
            },
            SetEvent::AllChecked { results } => self.all_removed(
                crate::peers::unreachable(results),
            ),
            SetEvent::PeriodicallyChecked { results } => self.all_dropped(
                crate::peers::unreachable(results),
            ),
            SetEvent::Other { records, pool, manager, turn } => crate::peers::SetView {
                records,
                pool,
                manager,
                turn,
                ..self
            },
        }
    }

    /// The set after `events`, one after the other.
    pub open spec fn after_all(self, events: Seq<SetEvent<S>>) -> Self
        decreases events.len(),
    {
        if events.len() == 0 {
            self
        } else {
            self.after_all(events.drop_last()).after(events.last())
        }
    }

    /// Whether `event` can happen to the set. A peer is added only if the set still takes it by
    /// then: it is not full, and does not know the address of the peer.
    pub open spec fn admits(self, event: SetEvent<S>) -> bool {
        event matches SetEvent::Added { peer, .. } ==> self.peers.len() < self.config.max_peers
            && !self.addrs.contains_key(peer.addr.spec_key())
    }

    /// Whether each of `events` can happen after those before it.
    pub open spec fn admits_all(self, events: Seq<SetEvent<S>>) -> bool
        decreases events.len(),
    {
        events.len() > 0 ==> self.admits_all(events.drop_last()) && self.after_all(
            events.drop_last(),
        ).admits(events.last())
    }

    /// The address of every peer leads to that peer.
    pub open spec fn findable(self) -> bool {
        forall|id: Seq<char>| #[trigger]
            self.peers.contains_key(id) ==> self.addrs.contains_key(self.peers[id].addr.spec_key())
                && self.addrs[self.peers[id].addr.spec_key()] == id
    }

    /// The set is not over its limit, and the address of every peer leads to that peer.
    pub open spec fn in_bounds(self) -> bool {
        &&& self.peers.dom().finite()
        &&& self.peers.len() <= self.config.max_peers
        &&& self.findable()
    }

    /// Whether `event` can happen to the set, and a peer that it adds has an id that no other has.
    pub open spec fn allows(self, event: SetEvent<S>) -> bool {
        event matches SetEvent::Added { peer, .. } ==> self.peers.len() < self.config.max_peers
            && self.is_new(peer)
    }

    /// Whether each of `events` can happen after those before it, with ids that no other peer has.
    pub open spec fn allows_all(self, events: Seq<SetEvent<S>>) -> bool
        decreases events.len(),
    {
        events.len() > 0 ==> self.allows_all(events.drop_last()) && self.after_all(
            events.drop_last(),
        ).allows(events.last())
    }

    /// The set is not over its limit, and its peers and addresses match.
    pub open spec fn in_order(self) -> bool {
        &&& self.peers.dom().finite()
        &&& self.peers.len() <= self.config.max_peers
        &&& self.consistent()
    }
}

/// Whatever is done to a set that started without peers, and whatever ids are drawn for the peers
/// that are added, it never holds more peers than it may and never two with the same address, and
/// the address of every peer leads to that peer.
pub proof fn set_stays_in_bounds<S>(config: PeerSetConfig, events: Seq<SetEvent<S>>)
    requires
        crate::peers::SetView::<S>::empty(config).admits_all(events),
    ensures
        ({
            let after = crate::peers::SetView::<S>::empty(config).after_all(events);
            &&& after.config == config
            &&& after.peers.len() <= config.max_peers
            &&& after.findable()
            &&& forall|a: Seq<char>, b: Seq<char>| #[trigger]
                after.peers.contains_key(a) && #[trigger] after.peers.contains_key(b)
                    && after.peers[a].addr == after.peers[b].addr ==> a == b
        }),
{
    lemma_in_bounds(crate::peers::SetView::<S>::empty(config), events);
}

proof fn lemma_in_bounds<S>(set: crate::peers::SetView<S>, events: Seq<SetEvent<S>>)
    requires
        set.in_bounds(),
        set.admits_all(events),
    ensures
        set.after_all(events).in_bounds(),
        set.after_all(events).config == set.config,
    decreases events.len(),
{
    if events.len() > 0 {
        lemma_in_bounds(set, events.drop_last());
        lemma_step_in_bounds(set.after_all(events.drop_last()), events.last());
    }
}

proof fn lemma_step_in_bounds<S>(set: crate::peers::SetView<S>, event: SetEvent<S>)
    requires
        set.in_bounds(),
        set.admits(event),
    ensures
        set.after(event).in_bounds(),
        set.after(event).config == set.config,
{
    let after = set.after(event);
    match event {
        SetEvent::Added { peer, connection, task, now } => {
            crate::peers::peer_limit_is_kept(set, peer, connection, task, now);
            assert forall|id: Seq<char>| #[trigger]
                after.peers.contains_key(id) implies after.addrs.contains_key(
                after.peers[id].addr.spec_key(),
            ) && after.addrs[after.peers[id].addr.spec_key()] == id by {
                if id != peer.id {
                    assert(set.peers.contains_key(id));
                }
            }
        },
        SetEvent::Removed { id } => {
            lemma_removal_in_bounds(set, id);
        },
        SetEvent::RemovedByAddress { addr } => {
            let key = addr.spec_key();
            if set.addrs.contains_key(key) {
                let id = set.addrs[key];
                assert forall|other: Seq<char>| #[trigger]
                    after.peers.contains_key(other) implies after.addrs.contains_key(
                    after.peers[other].addr.spec_key(),
                ) && after.addrs[after.peers[other].addr.spec_key()] == other by {
                    assert(set.peers.contains_key(other));
                }
            }
        },
        SetEvent::Checked { id, connected, pool } => {
            assert(after.peers.dom() =~= set.peers.dom());
            assert forall|other: Seq<char>| #[trigger]
                after.peers.contains_key(other) implies after.addrs.contains_key(
                after.peers[other].addr.spec_key(),
            ) && after.addrs[after.peers[other].addr.spec_key()] == other by {
                assert(set.peers.contains_key(other));
            }
        },
        SetEvent::AllChecked { results } => {
            lemma_removals_in_bounds(set, crate::peers::unreachable(results));
        },
        SetEvent::PeriodicallyChecked { results } => {
            lemma_removals_in_bounds(set, crate::peers::unreachable(results));
        },
        SetEvent::Other { records, pool, manager, turn } => {
            assert(after.peers == set.peers && after.addrs == set.addrs);
            assert(after.findable());
        },
    }
}

proof fn lemma_removal_in_bounds<S>(set: crate::peers::SetView<S>, id: Seq<char>)
    requires
        set.in_bounds(),
    ensures
        set.removed(id).in_bounds(),
        set.dropped(id).in_bounds(),
        set.removed(id).config == set.config,
        set.dropped(id).config == set.config,
{
    let after = set.removed(id);
    assert forall|other: Seq<char>| #[trigger]
        after.peers.contains_key(other) implies after.addrs.contains_key(
        after.peers[other].addr.spec_key(),
    ) && after.addrs[after.peers[other].addr.spec_key()] == other by {
        assert(set.peers.contains_key(other));
    }
    let dropped = set.dropped(id);
    assert(dropped.peers == after.peers && dropped.addrs == after.addrs);
    assert(dropped.findable());
}

proof fn lemma_removals_in_bounds<S>(set: crate::peers::SetView<S>, ids: Seq<Seq<char>>)
    requires
        set.in_bounds(),
    ensures
        set.all_removed(ids).in_bounds(),
        set.all_dropped(ids).in_bounds(),
        set.all_removed(ids).config == set.config,
        set.all_dropped(ids).config == set.config,
    decreases ids.len(),
{
    if ids.len() > 0 {
        lemma_removals_in_bounds(set, ids.drop_last());
        lemma_removal_in_bounds(set.all_removed(ids.drop_last()), ids.last());
        lemma_removal_in_bounds(set.all_dropped(ids.drop_last()), ids.last());
    }
}

/// Where no id is drawn that a peer of the set already has, the set moreover knows no address that
/// none of its peers has: peers and addresses match, whatever is done to it.
pub proof fn set_stays_in_order<S>(config: PeerSetConfig, events: Seq<SetEvent<S>>)
    requires
        crate::peers::SetView::<S>::empty(config).allows_all(events),
    ensures
        ({
            let after = crate::peers::SetView::<S>::empty(config).after_all(events);
            &&& after.config == config
            &&& after.peers.len() <= config.max_peers
            &&& after.consistent()
            &&& forall|a: Seq<char>, b: Seq<char>| #[trigger]
                after.peers.contains_key(a) && #[trigger] after.peers.contains_key(b)
                    && after.peers[a].addr == after.peers[b].addr ==> a == b
        }),
{
    lemma_in_order(crate::peers::SetView::<S>::empty(config), events);
}

proof fn lemma_in_order<S>(set: crate::peers::SetView<S>, events: Seq<SetEvent<S>>)
    requires
        set.in_order(),
        set.allows_all(events),
    ensures
        set.after_all(events).in_order(),
        set.after_all(events).config == set.config,
    decreases events.len(),
{
    if events.len() > 0 {
        lemma_in_order(set, events.drop_last());
        lemma_step_in_order(set.after_all(events.drop_last()), events.last());
    }
}

proof fn lemma_step_in_order<S>(set: crate::peers::SetView<S>, event: SetEvent<S>)
    requires
        set.in_order(),
        set.allows(event),
    ensures
        set.after(event).in_order(),
        set.after(event).config == set.config,
{
    match event {
        SetEvent::Added { peer, connection, task, now } => {
            crate::peers::peers_and_addresses_match(
                set,
                set.config,
                peer,
                connection,
                task,
                now,
                peer.id,
                true,
            );
            crate::peers::peer_limit_is_kept(set, peer, connection, task, now);
        },
        SetEvent::Removed { id } => {
            lemma_removal_in_order(set, id);
        },
        SetEvent::RemovedByAddress { addr } => {
            if set.addrs.contains_key(addr.spec_key()) {
                lemma_removal_in_order(set, set.addrs[addr.spec_key()]);
                crate::peers::removing_by_address_is_removing_by_id(set, addr);
            }
        },
        SetEvent::Checked { id, connected, pool } => {
            lemma_check_in_order(set, id, connected, pool);
        },
        SetEvent::AllChecked { results } => {
            lemma_removals_in_order(set, crate::peers::unreachable(results));
        },
        SetEvent::PeriodicallyChecked { results } => {
            lemma_removals_in_order(set, crate::peers::unreachable(results));
        },
        SetEvent::Other { records, pool, manager, turn } => {
            let after = set.after(event);
            assert(after.peers == set.peers && after.addrs == set.addrs);
            assert(after.consistent());
        },
    }
}

proof fn lemma_check_in_order<S>(
    set: crate::peers::SetView<S>,
    id: Seq<char>,
    connected: bool,
    pool: crate::connection_pool::PoolView<S>,
)
    requires
        set.in_order(),
    ensures
        set.after(SetEvent::Checked { id, connected, pool }).in_order(),
{
    let checked = set.with_connected(id, connected);
    let after = set.after(SetEvent::Checked { id, connected, pool });
    crate::peers::lemma_checked_consistent(set, id, connected);
    assert(after.consistent()) by {
        assert(after.peers == checked.peers && after.addrs == checked.addrs);
    }
    assert(after.peers.dom() =~= set.peers.dom());
}

proof fn lemma_removal_in_order<S>(set: crate::peers::SetView<S>, id: Seq<char>)
    requires
        set.in_order(),
    ensures
        set.removed(id).in_order(),
        set.dropped(id).in_order(),
        set.removed(id).config == set.config,
        set.dropped(id).config == set.config,
{
    crate::peers::lemma_removed_consistent(set, id);
}

proof fn lemma_removals_in_order<S>(set: crate::peers::SetView<S>, ids: Seq<Seq<char>>)
    requires
        set.in_order(),
    ensures
        set.all_removed(ids).in_order(),
        set.all_dropped(ids).in_order(),
        set.all_removed(ids).config == set.config,
        set.all_dropped(ids).config == set.config,
    decreases ids.len(),
{
    if ids.len() > 0 {
        lemma_removals_in_order(set, ids.drop_last());
        lemma_removal_in_order(set.all_removed(ids.drop_last()), ids.last());
        lemma_removal_in_order(set.all_dropped(ids.drop_last()), ids.last());
    }
}

} // verus!
