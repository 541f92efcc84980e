//! A peer and what is known of it.

use vstd::prelude::*;

use crate::addr::SocketAddress;
use crate::connection_pool::{Checkout, ConnectionPool, PooledConnection};
use crate::error::{NetworkError, NetworkResult};
use crate::random::fresh_peer_id;
use crate::records::PeerRecords;
use crate::time::{elapsed, Nanos, UNIX_EPOCH};

verus! {

/// The round trip, in milliseconds, that a peer is taken to have before it was measured.
pub const UNKNOWN_PING_TIME: u32 = 9999;

/// The bits of the double-precision number one hundred.
pub const ONE_HUNDRED_BITS: u64 = 0x4059_0000_0000_0000;

/// How a peer has served its requests. Fractional quantities are kept as the bits of a
/// double-precision number.
#[derive(Debug, Clone, Copy, PartialEq, Eq, Structural)]
pub struct PeerStats {
    pub total_requests: u64,
    pub successful_requests: u64,
    pub failed_requests: u64,
    /// The smoothed response time in milliseconds, as bits.
    pub avg_response_time_ms_bits: u64,
    /// When the peer was last seen, on the wall clock.
    pub last_seen: Nanos,
    /// The share of time for which the peer was up, in percent, as bits.
    pub uptime_percentage_bits: u64,
}

impl Default for PeerStats {
    fn default() -> (stats: Self)
        ensures
            stats == PeerStats::spec_default(),
            stats.total_requests == 0,
            stats.successful_requests == 0,
            stats.failed_requests == 0,
            stats.avg_response_time_ms_bits == 0,
            stats.last_seen == 0,
            stats.uptime_percentage_bits == 0x4059_0000_0000_0000,
    {
        PeerStats {
            total_requests: 0,
            successful_requests: 0,
            failed_requests: 0,
            avg_response_time_ms_bits: 0,
            last_seen: UNIX_EPOCH,
            uptime_percentage_bits: ONE_HUNDRED_BITS,
        }
    }
}

impl PeerStats {
    /// The statistics of a peer that was asked nothing yet.
    pub open spec fn spec_default() -> PeerStats {
        PeerStats {
            total_requests: 0,
            successful_requests: 0,
            failed_requests: 0,
            avg_response_time_ms_bits: 0,
            last_seen: UNIX_EPOCH,
            uptime_percentage_bits: ONE_HUNDRED_BITS,
        }
    }

    /// Every request either succeeded or failed.
    pub open spec fn balanced(self) -> bool {
        self.total_requests == self.successful_requests + self.failed_requests
    }

    /// Whether another request with this outcome can be counted.
    pub open spec fn can_record(self, success: bool) -> bool {
        &&& self.total_requests < u64::MAX
        &&& success ==> self.successful_requests < u64::MAX
        &&& !success ==> self.failed_requests < u64::MAX
    }

    /// The statistics after one more request.
    pub open spec fn recorded(self, success: bool, avg_response_time_ms_bits: u64) -> PeerStats {
        PeerStats {
            total_requests: (self.total_requests + 1) as u64,
            successful_requests: if success {
                (self.successful_requests + 1) as u64
            } else {
                self.successful_requests
            },
            failed_requests: if success {
                self.failed_requests
            } else {
                (self.failed_requests + 1) as u64
            },
            avg_response_time_ms_bits,
            ..self
        }
    }

    /// Counts a request and takes over the response time smoothed with it.
    pub fn record_request(&mut self, success: bool, avg_response_time_ms_bits: u64)
        requires
            old(self).can_record(success),
        ensures
            *final(self) == old(self).recorded(success, avg_response_time_ms_bits),
    {
        self.total_requests = self.total_requests + 1;
        if success {
            self.successful_requests = self.successful_requests + 1;
        } else {
            self.failed_requests = self.failed_requests + 1;
        }
        self.avg_response_time_ms_bits = avg_response_time_ms_bits;
    }
}

/// Counting requests keeps the statistics balanced, and balanced statistics can count every
/// request up to the limit of the total.
pub proof fn recording_keeps_the_balance(
    stats: PeerStats,
    success: bool,
    avg_response_time_ms_bits: u64,
)
    requires
        stats.balanced(),
        stats.total_requests < u64::MAX,
    ensures
        stats.can_record(success),
        stats.recorded(success, avg_response_time_ms_bits).balanced(),
        PeerStats::spec_default().balanced(),
{
}

/// A peer that is about to be entered into the peer database, with the values to enter.
#[derive(Debug)]
pub struct NewPeer {
    pub id: String,
    pub addr: SocketAddress,
    pub nick: String,
    pub ping_time: u32,
    pub whitelisted: bool,
    pub last_responded: Nanos,
}

impl NewPeer {
    /// A peer with a random id of its own, about which nothing is known yet.
    pub fn new(addr: SocketAddress, nick: &str) -> (peer: Self)
        ensures
            crate::random::is_random_uuid(peer.id@),
            peer.addr == addr,
            peer.nick@ == nick@,
            peer.ping_time == UNKNOWN_PING_TIME,
            !peer.whitelisted,
            peer.last_responded == UNIX_EPOCH,
    {
        NewPeer {
            id: fresh_peer_id(),
            addr,
            nick: nick.to_owned(),
            ping_time: UNKNOWN_PING_TIME,
            whitelisted: false,
            last_responded: UNIX_EPOCH,
        }
    }
}

/// A peer of the network. A copy of it has its own flags and ping time; the nick, the statistics
/// and the time of the last response are in a record that all copies share.
#[derive(Debug)]
pub struct AsyncPeer {
    id: String,
    addr: SocketAddress,
    whitelisted: bool,
    ping_time: u32,
    connected: bool,
    created_at: Nanos,
    record: u64,
}

/// A peer, in mathematical terms.
#[verifier::ext_equal]
pub ghost struct PeerView {
    pub id: Seq<char>,
    pub addr: SocketAddress,
    pub whitelisted: bool,
    /// The last measured round trip in milliseconds.
    pub ping_time: u32,
    pub connected: bool,
    /// When the peer was made known, on the monotonic clock.
    pub created_at: Nanos,
    /// The key of the record that all copies share.
    pub record: u64,
}

impl PeerView {
    /// The peer with its connection state set.
    pub open spec fn with_connected(self, connected: bool) -> PeerView {
        PeerView { connected, ..self }
    }

    /// What the peer shares with its copies.
    pub open spec fn shared(
        self,
        records: crate::records::RecordsView,
    ) -> crate::records::RecordView {
        records.entries[self.record]
    }
}

impl View for AsyncPeer {
    type V = PeerView;

    closed spec fn view(&self) -> PeerView {
        PeerView {
            id: self.id@,
            addr: self.addr,
            whitelisted: self.whitelisted,
            ping_time: self.ping_time,
            connected: self.connected,
            created_at: self.created_at,
            record: self.record,
        }
    }
}

impl Clone for AsyncPeer {
    /// A copy that shares the record of the peer and has its own flags from now on.
    fn clone(&self) -> (copy: Self)
        ensures
            copy@ == self@,
    {
        AsyncPeer {
            id: self.id.clone(),
            addr: self.addr,
            whitelisted: self.whitelisted,
            ping_time: self.ping_time,
            connected: self.connected,
            created_at: self.created_at,
            record: self.record,
        }
    }
}

impl AsyncPeer {
    /// The peer that `draft` describes, not connected yet, with a record of its own. `entered` is
    /// how entering it into the peer database went. The address of a peer that was entered is to
    /// be taken off the database's blacklist.
    pub fn new(
        draft: NewPeer,
        entered: Result<(), String>,
        records: &mut PeerRecords,
        created_at: Nanos,
    ) -> (result: NetworkResult<Self>)
        requires
            old(records)@.wf(),
            old(records)@.has_room(),
        ensures
            final(records)@.wf(),
            match entered {
                Ok(_) => {
                    &&& result is Ok
                    &&& result->Ok_0@ == (PeerView {
                        id: draft.id@,
                        addr: draft.addr,
                        whitelisted: draft.whitelisted,
                        ping_time: draft.ping_time,
                        connected: false,
                        created_at,
                        record: old(records)@.next_key,
                    })
                    &&& final(records)@ == old(records)@.opened(
                        crate::records::RecordView {
                            nick: draft.nick@,
                            last_responded: draft.last_responded,
                            stats: PeerStats::spec_default(),
                        },
                    )
                },
                Err(cause) => {
                    &&& result == Err::<AsyncPeer, _>(NetworkError::Database(cause))
                    &&& final(records)@ == old(records)@
                },
            },
    {
        match entered {
            Ok(_) => {
                let record = records.open(draft.nick, draft.last_responded);
                Ok(
                    AsyncPeer {
                        id: draft.id,
                        addr: draft.addr,
                        whitelisted: draft.whitelisted,
                        ping_time: draft.ping_time,
                        connected: false,
                        created_at,
                        record,
                    },
                )
            },
            Err(cause) => Err(NetworkError::Database(cause)),
        }
    }

    pub fn get_id(&self) -> (id: &str)
        ensures
            id@ == self@.id,
    {
        self.id.as_str()
    }

    pub fn get_addr(&self) -> (addr: SocketAddress)
        ensures
            addr == self@.addr,
    {
        self.addr
    }

    /// The key of the record that all copies of the peer share.
    pub fn get_record(&self) -> (key: u64)
        ensures
            key == self@.record,
    {
        self.record
    }

    pub fn get_nick(&self, records: &PeerRecords) -> (nick: String)
        requires
            records@.holds(self@.record),
        ensures
            nick@ == self@.shared(records@).nick,
    {
        records.nick(self.record)
    }

    /// Sets the nick, for all copies of the peer.
    pub fn set_nick(&self, records: &mut PeerRecords, nick: String)
        requires
            old(records)@.holds(self@.record),
        ensures
            final(records)@ == old(records)@.with_nick(self@.record, nick@),
    {
        records.set_nick(self.record, nick);
    }

    pub fn get_ping_time(&self) -> (ping: u32)
        ensures
            ping == self@.ping_time,
    {
        self.ping_time
    }

    pub fn set_ping_time(&mut self, ping: u32)
        ensures
            final(self)@ == (PeerView { ping_time: ping, ..old(self)@ }),
    {
        self.ping_time = ping;
    }

    pub fn is_whitelisted(&self) -> (whitelisted: bool)
        ensures
            whitelisted == self@.whitelisted,
    {
        self.whitelisted
    }

    pub fn set_whitelisted(&mut self, whitelisted: bool)
        ensures
            final(self)@ == (PeerView { whitelisted, ..old(self)@ }),
    {
        self.whitelisted = whitelisted;
    }

    pub fn is_connected(&self) -> (connected: bool)
        ensures
            connected == self@.connected,
    {
        self.connected
    }

    pub fn set_connected(&mut self, connected: bool)
        ensures
            final(self)@ == old(self)@.with_connected(connected),
    {
        self.connected = connected;
    }

    pub fn get_last_responded(&self, records: &PeerRecords) -> (last_responded: Nanos)
        requires
            records@.holds(self@.record),
        ensures
            last_responded == self@.shared(records@).last_responded,
    {
        records.last_responded(self.record)
    }

    /// Notes, for all copies of the peer, that it answered when the wall clock said `wall_time`.
    pub fn update_last_responded(&self, records: &mut PeerRecords, wall_time: Nanos)
        requires
            old(records)@.holds(self@.record),
        ensures
            final(records)@ == old(records)@.with_last_responded(self@.record, wall_time),
    {
        records.set_last_responded(self.record, wall_time);
    }

    /// Starts to get a connection to this peer out of `pool`.
    pub fn get_connection<S>(&self, pool: &mut ConnectionPool<S>, permit: bool, now: Nanos) -> (checkout:
        NetworkResult<Checkout<S>>)
        requires
            old(pool)@.wf(),
        ensures
            final(pool)@.wf(),
            checkout is Err <==> !permit,
            match checkout {
                Err(error) => error is PoolExhausted && final(pool)@ == old(pool)@,
                Ok(Checkout::Reuse(connection)) => {
                    let pruned = old(pool)@.pruned(now);
                    exists|i: int| #[trigger]
                        crate::connection_pool::first_at(pruned.idle, self@.addr, i) && connection
                            == pruned.idle[i].used_at(now) && final(pool)@ == pruned.given_out(i)
                },
                Ok(Checkout::Connect { timeout }) => {
                    &&& crate::connection_pool::none_for(old(pool)@.pruned(now).idle, self@.addr)
                    &&& timeout == old(pool)@.config.connection_timeout
                    &&& final(pool)@ == old(pool)@.pruned(now)
                },
            },
    {
        pool.get_connection(permit, self.addr, now)
    }

    /// Gives a connection to this peer back to `pool`.
    pub fn return_connection<S>(
        &self,
        pool: &mut ConnectionPool<S>,
        connection: PooledConnection<S>,
        now: Nanos,
    )
        requires
            old(pool)@.wf(),
        ensures
            final(pool)@.wf(),
            final(pool)@ == old(pool)@.returned(connection, now),
    {
        pool.return_connection(connection, now);
    }

    /// Whether the peer can be reached: `connection` is what came of trying to get a connection
    /// to it, which goes back to `pool`. The peer remembers the answer.
    pub fn health_check<S>(
        &mut self,
        pool: &mut ConnectionPool<S>,
        connection: NetworkResult<PooledConnection<S>>,
        now: Nanos,
    ) -> (healthy: bool)
        requires
            old(pool)@.wf(),
        ensures
            final(pool)@.wf(),
            healthy == (connection is Ok),
            final(self)@ == old(self)@.with_connected(healthy),
            final(pool)@ == (match connection {
                Ok(connection) => old(pool)@.returned(connection, now),
                Err(_) => old(pool)@,
            }),
    {
        match connection {
            Ok(connection) => {
                self.return_connection(pool, connection, now);
                self.set_connected(true);
                true
            },
            Err(_) => {
                self.set_connected(false);
                false
            },
        }
    }

    pub fn get_stats(&self, records: &PeerRecords) -> (stats: PeerStats)
        requires
            records@.holds(self@.record),
        ensures
            stats == self@.shared(records@).stats,
    {
        records.stats(self.record)
    }

    /// Lets `updater` change the statistics, for all copies of the peer.
    pub fn update_stats<F: FnOnce(&mut PeerStats)>(&self, records: &mut PeerRecords, updater: F)
        requires
            old(records)@.holds(self@.record),
            forall|stats: &mut PeerStats|
                *stats == self@.shared(old(records)@).stats ==> updater.requires((stats,)),
        ensures
            exists|stats: &mut PeerStats|
                #![trigger updater.ensures((stats,), ())]
                updater.ensures((stats,), ()) && *stats == self@.shared(old(records)@).stats
                    && *final(stats) == self@.shared(final(records)@).stats,
            final(records)@ == old(records)@.with_stats(
                self@.record,
                self@.shared(final(records)@).stats,
            ),
    {
        let mut stats = records.stats(self.record);
        updater(&mut stats);
        records.set_stats(self.record, stats);
    }

    /// For how long the peer has been known at `now`.
    pub fn get_uptime(&self, now: Nanos) -> (uptime: Nanos)
        ensures
            uptime == crate::time::elapsed_spec(self@.created_at, now),
    {
        elapsed(self.created_at, now)
    }
}

/// Counting a request adds one to the total and one to the side that it belongs to, takes over the
/// smoothed response time and leaves the rest. A request can be counted exactly as long as these
/// two counters have room. A peer that was asked nothing has counted nothing.
pub proof fn recording_counts_one_request(
    stats: PeerStats,
    success: bool,
    avg_response_time_ms_bits: u64,
)
    ensures
        stats.can_record(success) <==> stats.total_requests < u64::MAX && (if success {
            stats.successful_requests < u64::MAX
        } else {
            stats.failed_requests < u64::MAX
        }),
        stats.can_record(success) ==> ({
            let after = stats.recorded(success, avg_response_time_ms_bits);
            &&& after.total_requests == stats.total_requests + 1
            &&& success ==> after.successful_requests == stats.successful_requests + 1
                && after.failed_requests == stats.failed_requests
            &&& !success ==> after.failed_requests == stats.failed_requests + 1
                && after.successful_requests == stats.successful_requests
            &&& after.avg_response_time_ms_bits == avg_response_time_ms_bits
            &&& after.last_seen == stats.last_seen
            &&& after.uptime_percentage_bits == stats.uptime_percentage_bits
        }),
        PeerStats::spec_default().total_requests == 0,
        PeerStats::spec_default().successful_requests == 0,
        PeerStats::spec_default().failed_requests == 0,
        PeerStats::spec_default().avg_response_time_ms_bits == 0,
        PeerStats::spec_default().last_seen == 0,
        PeerStats::spec_default().uptime_percentage_bits == 0x4059_0000_0000_0000,
{
}

/// Noting whether a peer is connected changes that and nothing else of it, and what it shares is
/// the record under its key.
pub proof fn connecting_changes_one_flag(
    peer: PeerView,
    connected: bool,
    records: crate::records::RecordsView,
)
    ensures
        peer.with_connected(connected).connected == connected,
        peer.with_connected(connected).id == peer.id,
        peer.with_connected(connected).addr == peer.addr,
        peer.with_connected(connected).whitelisted == peer.whitelisted,
        peer.with_connected(connected).ping_time == peer.ping_time,
        peer.with_connected(connected).created_at == peer.created_at,
        peer.with_connected(connected).record == peer.record,
        peer.shared(records) == records.entries[peer.record],
{
}

/// Every copy of a peer reads what any copy wrote of the nick, the statistics and the last
/// response; peers that are not copies of it do not. The flags and the ping time of a copy are its
/// own: whatever they are, it leads to the same record.
pub proof fn copies_share_their_record(
    records: crate::records::RecordsView,
    peer: PeerView,
    copy: PeerView,
    other: PeerView,
    nick: Seq<char>,
    last_responded: Nanos,
    stats: PeerStats,
)
    requires
        copy == (PeerView {
            connected: copy.connected,
            whitelisted: copy.whitelisted,
            ping_time: copy.ping_time,
            ..peer
        }),
        other.record != peer.record,
    ensures
        copy.shared(records) == peer.shared(records),
        peer.shared(records.with_nick(copy.record, nick)).nick == nick,
        peer.shared(records.with_last_responded(copy.record, last_responded)).last_responded
            == last_responded,
        peer.shared(records.with_stats(copy.record, stats)).stats == stats,
        other.shared(records.with_nick(copy.record, nick)) == other.shared(records),
        other.shared(records.with_last_responded(copy.record, last_responded)) == other.shared(
            records,
        ),
        other.shared(records.with_stats(copy.record, stats)) == other.shared(records),
{
}

} // verus!
