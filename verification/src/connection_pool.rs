//! A pool of idle connections that are kept for reuse.

use std::collections::VecDeque;

use vstd::prelude::*;

use crate::addr::SocketAddress;
use crate::error::{NetworkError, NetworkResult};
use crate::time::{elapsed, Nanos, NANOS_PER_SEC};

verus! {

/// How often the pool is swept for expired connections.
pub const CLEANUP_INTERVAL: Nanos = 30 * NANOS_PER_SEC;

/// The limits of a [`ConnectionPool`].
#[derive(Debug, Clone, Copy)]
pub struct PoolConfig {
    /// How many connections may be in the making at one time.
    pub max_connections_per_peer: usize,
    /// How long a connection attempt may take.
    pub connection_timeout: Nanos,
    /// How long a connection may lie unused before it is discarded.
    pub idle_timeout: Nanos,
    /// How many unused connections the pool keeps.
    pub max_idle_connections: usize,
}

impl PoolConfig {
    /// The limits of a pool that is not configured otherwise.
    pub open spec fn spec_default() -> PoolConfig {
        PoolConfig {
            max_connections_per_peer: 5,
            connection_timeout: (5 * NANOS_PER_SEC) as Nanos,
            idle_timeout: (60 * NANOS_PER_SEC) as Nanos,
            max_idle_connections: 10,
        }
    }

    /// Whether as many permits can be given out as the configuration asks for.
    pub open spec fn permits_fit(self) -> bool {
        self.max_connections_per_peer <= usize::MAX / 8
    }
}

impl Default for PoolConfig {
    fn default() -> (config: Self)
        ensures
            config == PoolConfig::spec_default(),
            config.max_connections_per_peer == 5,
            config.connection_timeout == 5_000_000_000,
            config.idle_timeout == 60_000_000_000,
            config.max_idle_connections == 10,
    {
        PoolConfig {
            max_connections_per_peer: 5,
            connection_timeout: 5 * NANOS_PER_SEC,
            idle_timeout: 60 * NANOS_PER_SEC,
            max_idle_connections: 10,
        }
    }
}

/// A connection with its history. `S` is the stream to the peer.
#[derive(Debug)]
pub struct PooledConnection<S> {
    pub stream: S,
    pub created_at: Nanos,
    pub last_used: Nanos,
    pub addr: SocketAddress,
}

impl<S> PooledConnection<S> {
    /// Whether the connection has lain unused for longer than `idle_timeout`.
    pub open spec fn expired(self, idle_timeout: Nanos, now: Nanos) -> bool {
        crate::time::elapsed_spec(self.last_used, now) > idle_timeout
    }

    /// The connection, used at `now`.
    pub open spec fn used_at(self, now: Nanos) -> Self {
        PooledConnection { last_used: now, ..self }
    }

    /// A connection to `addr` made at `now`.
    pub fn new(stream: S, addr: SocketAddress, now: Nanos) -> (connection: Self)
        ensures
            connection == (PooledConnection { stream, created_at: now, last_used: now, addr }),
    {
        PooledConnection { stream, created_at: now, last_used: now, addr }
    }

    /// Notes that the connection is in use at `now`.
    pub fn update_last_used(&mut self, now: Nanos)
        ensures
            *final(self) == old(self).used_at(now),
    {
        self.last_used = now;
    }

    /// Whether the connection has lain unused for longer than `idle_timeout`.
    pub fn is_expired(&self, idle_timeout: Nanos, now: Nanos) -> (expired: bool)
        ensures
            expired == self.expired(idle_timeout, now),
            expired <==> now - self.last_used > idle_timeout,
    {
        elapsed(self.last_used, now) > idle_timeout
    }
}

/// What a caller who wants a connection is to do.
#[derive(Debug)]
pub enum Checkout<S> {
    /// Use this connection, which the pool held.
    Reuse(PooledConnection<S>),
    /// Connect to the peer, and give up after `timeout`.
    Connect { timeout: Nanos },
}

/// How an attempt to connect ended.
#[derive(Debug)]
pub enum ConnectAttempt<S> {
    Connected(S),
    /// The system refused; holds its message.
    Failed(String),
    TimedOut,
}

/// Idle connections, oldest first, and a count of those that were given out.
#[derive(Debug)]
pub struct ConnectionPool<S> {
    config: PoolConfig,
    connections: VecDeque<PooledConnection<S>>,
    active_connections: usize,
}

/// A pool, in mathematical terms.
#[verifier::ext_equal]
pub ghost struct PoolView<S> {
    pub config: PoolConfig,
    /// The idle connections, oldest first.
    pub idle: Seq<PooledConnection<S>>,
    /// How many connections were given out and not returned, modulo the machine's word.
    pub active: usize,
}

/// The connections among `idle` that have not expired at `now`, in the same order.
pub open spec fn live<S>(
    idle: Seq<PooledConnection<S>>,
    idle_timeout: Nanos,
    now: Nanos,
) -> Seq<PooledConnection<S>> {
    idle.filter(|c: PooledConnection<S>| !c.expired(idle_timeout, now))
}

/// Whether `i` is where the first connection to `addr` stands.
pub open spec fn first_at<S>(
    idle: Seq<PooledConnection<S>>,
    addr: SocketAddress,
    i: int,
) -> bool {
    &&& 0 <= i < idle.len()
    &&& idle[i].addr == addr
    &&& forall|j: int| 0 <= j < i ==> (#[trigger] idle[j]).addr != addr
}

/// Whether no connection leads to `addr`.
pub open spec fn none_for<S>(idle: Seq<PooledConnection<S>>, addr: SocketAddress) -> bool {
    forall|j: int| 0 <= j < idle.len() ==> (#[trigger] idle[j]).addr != addr
}

impl<S> PoolView<S> {
    /// A pool that holds nothing and has given nothing out.
    pub open spec fn empty(config: PoolConfig) -> Self {
        PoolView { config, idle: Seq::empty(), active: 0 }
    }

    /// The pool keeps no more idle connections than its configuration allows.
    pub open spec fn wf(self) -> bool {
        self.idle.len() <= self.config.max_idle_connections
    }

    /// The pool without what has expired at `now`.
    pub open spec fn pruned(self, now: Nanos) -> Self {
        PoolView { idle: live(self.idle, self.config.idle_timeout, now), ..self }
    }

    /// The pool without its `i`-th connection, which was given out.
    pub open spec fn given_out(self, i: int) -> Self {
        PoolView { idle: self.idle.remove(i), active: self.active.wrapping_add(1), ..self }
    }

    /// The pool after a connection that it did not hold was given out.
    pub open spec fn one_more_active(self) -> Self {
        PoolView { active: self.active.wrapping_add(1), ..self }
    }

    /// The pool after `connection` came back at `now`. It is kept if it has not expired and
    /// there is room for it.
    pub open spec fn returned(self, connection: PooledConnection<S>, now: Nanos) -> Self {
        let keep = !connection.expired(self.config.idle_timeout, now) && self.idle.len()
            < self.config.max_idle_connections;
        PoolView {
            idle: if keep {
                self.idle.push(connection.used_at(now))
            } else {
                self.idle
            },
            active: self.active.wrapping_sub(1),
            ..self
        }
    }
}

impl<S> View for ConnectionPool<S> {
    type V = PoolView<S>;

    closed spec fn view(&self) -> PoolView<S> {
        PoolView {
            config: self.config,
            idle: self.connections@,
            active: self.active_connections,
        }
    }
}

impl<S> ConnectionPool<S> {
    /// An empty pool.
    pub fn new(config: PoolConfig) -> (pool: Self)
        requires
            config.permits_fit(),
        ensures
            pool@.wf(),
            pool@ == PoolView::<S>::empty(config),
    {
        ConnectionPool { config, connections: VecDeque::new(), active_connections: 0 }
    }

    /// Starts to get a connection to `addr`. `permit` says whether the caller was let in; a
    /// caller who was not gets none. The oldest idle connection to `addr` is reused, and what
    /// has expired is discarded on the way.
    pub fn get_connection(&mut self, permit: bool, addr: SocketAddress, now: Nanos) -> (checkout:
        NetworkResult<Checkout<S>>)
        requires
            old(self)@.wf(),
        ensures
            final(self)@.wf(),
            checkout is Err <==> !permit,
            match checkout {
                Err(error) => error is PoolExhausted && final(self)@ == old(self)@,
                Ok(Checkout::Reuse(connection)) => {
                    let pruned = old(self)@.pruned(now);
                    exists|i: int| #[trigger]
                        first_at(pruned.idle, addr, i) && connection == pruned.idle[i].used_at(now)
                            && final(self)@ == pruned.given_out(i)
                },
                Ok(Checkout::Connect { timeout }) => {
                    &&& none_for(old(self)@.pruned(now).idle, addr)
                    &&& timeout == old(self)@.config.connection_timeout
                    &&& final(self)@ == old(self)@.pruned(now)
                },
            },
            final(self)@.config == old(self)@.config,
            checkout matches Ok(Checkout::Reuse(connection)) ==> {
                &&& final(self)@.active == old(self)@.active.wrapping_add(1)
                &&& exists|i: int|
                    0 <= i < old(self)@.idle.len() && (#[trigger] old(self)@.idle[i]).addr == addr
                        && now - old(self)@.idle[i].last_used <= old(self)@.config.idle_timeout
                        && connection == (PooledConnection { last_used: now, ..old(self)@.idle[i] })
                        && forall|j: int|
                        0 <= j < i && (#[trigger] old(self)@.idle[j]).addr == addr ==> now
                            - old(self)@.idle[j].last_used > old(self)@.config.idle_timeout
            },
            checkout matches Ok(Checkout::Connect { .. }) ==> {
                &&& final(self)@.active == old(self)@.active
                &&& forall|i: int|
                    0 <= i < old(self)@.idle.len() && (#[trigger] old(self)@.idle[i]).addr == addr
                        ==> now - old(self)@.idle[i].last_used > old(self)@.config.idle_timeout
            },
            permit ==> forall|i: int|
                0 <= i < old(self)@.idle.len() && (#[trigger] old(self)@.idle[i]).addr != addr
                    && now - old(self)@.idle[i].last_used <= old(self)@.config.idle_timeout
                    ==> final(self)@.idle.contains(old(self)@.idle[i]),
            permit ==> forall|k: int|
                0 <= k < final(self)@.idle.len() ==> old(self)@.idle.contains(
                    #[trigger] final(self)@.idle[k],
                ) && now - final(self)@.idle[k].last_used <= old(self)@.config.idle_timeout,
    {
        if !permit {
            return Err(NetworkError::PoolExhausted);
        }
        proof {
            let from = pruning_keeps_exactly_what_is_live(self@, now);
            lemma_pruned_members(self@, now, from);
            lemma_reuse_raw(self@, addr, now);
        }
        match self.get_pooled_connection(addr, now) {
            Some(mut connection) => {
                connection.update_last_used(now);
                self.active_connections = self.active_connections.wrapping_add(1);
                Ok(Checkout::Reuse(connection))
            },
            None => Ok(Checkout::Connect { timeout: self.config.connection_timeout }),
        }
    }

    /// Discards what has expired and takes the oldest connection to `addr` out of the pool.
    fn get_pooled_connection(&mut self, addr: SocketAddress, now: Nanos) -> (found: Option<
        PooledConnection<S>,
    >)
        requires
            old(self)@.wf(),
        ensures
            final(self)@.wf(),
            final(self)@.config == old(self)@.config,
            final(self)@.active == old(self)@.active,
            match found {
                Some(connection) => {
                    let live = old(self)@.pruned(now).idle;
                    exists|i: int| #[trigger]
                        first_at(live, addr, i) && connection == live[i] && final(self)@.idle
                            == live.remove(i)
                },
                None => {
                    &&& none_for(old(self)@.pruned(now).idle, addr)
                    &&& final(self)@.idle == old(self)@.pruned(now).idle
                },
            },
    {
        let _ = self.cleanup_expired_connections(now);
        let ghost live = self@.idle;
        let mut i: usize = 0;
        while i < self.connections.len()
            invariant
                i <= self.connections@.len(),
                self.connections@ == live,
                self@.config == old(self)@.config,
                self@.active == old(self)@.active,
                self@.wf(),
                live == old(self)@.pruned(now).idle,
                forall|j: int| 0 <= j < i ==> (#[trigger] live[j]).addr != addr,
            decreases self.connections@.len() - i,
        {
            if self.connections[i].addr == addr {
                assert(first_at(live, addr, i as int));
                return self.connections.remove(i);
            }
            i += 1;
        }
        None
    }

    /// Finishes getting a connection to `addr` that had to be made: `attempt` is how it went.
    pub fn create_new_connection(
        &mut self,
        addr: SocketAddress,
        attempt: ConnectAttempt<S>,
        now: Nanos,
    ) -> (result: NetworkResult<PooledConnection<S>>)
        requires
            old(self)@.wf(),
        ensures
            final(self)@.wf(),
            match attempt {
                ConnectAttempt::Connected(stream) => {
                    &&& result == Ok::<_, NetworkError>(
                        PooledConnection { stream, created_at: now, last_used: now, addr },
                    )
                    &&& final(self)@ == old(self)@.one_more_active()
                },
                ConnectAttempt::Failed(cause) => {
                    &&& result == Err::<PooledConnection<S>, _>(NetworkError::Io(cause))
                    &&& final(self)@ == old(self)@
                },
                ConnectAttempt::TimedOut => {
                    &&& result == Err::<PooledConnection<S>, _>(NetworkError::Timeout)
                    &&& final(self)@ == old(self)@
                },
            },
    {
        match attempt {
            ConnectAttempt::Connected(stream) => {
                self.active_connections = self.active_connections.wrapping_add(1);
                Ok(PooledConnection::new(stream, addr, now))
            },
            ConnectAttempt::Failed(cause) => Err(NetworkError::Io(cause)),
            ConnectAttempt::TimedOut => Err(NetworkError::Timeout),
        }
    }

    /// Takes back a connection. One that has expired or finds no room is dropped.
    pub fn return_connection(&mut self, connection: PooledConnection<S>, now: Nanos)
        requires
            old(self)@.wf(),
        ensures
            final(self)@.wf(),
            final(self)@ == old(self)@.returned(connection, now),
            final(self)@.config == old(self)@.config,
            final(self)@.active == old(self)@.active.wrapping_sub(1),
            final(self)@.idle == if now - connection.last_used <= old(self)@.config.idle_timeout
                && old(self)@.idle.len() < old(self)@.config.max_idle_connections {
                old(self)@.idle.push(PooledConnection { last_used: now, ..connection })
            } else {
                old(self)@.idle
            },
    {
        let mut connection = connection;
        self.active_connections = self.active_connections.wrapping_sub(1);
        if !connection.is_expired(self.config.idle_timeout, now) {
            connection.update_last_used(now);
            if self.connections.len() < self.config.max_idle_connections {
                self.connections.push_back(connection);
            }
        }
    }

    /// Discards the connections that have expired at `now`, and says how many there were.
    pub fn cleanup_expired_connections(&mut self, now: Nanos) -> (removed: usize)
        requires
            old(self)@.wf(),
        ensures
            final(self)@.wf(),
            final(self)@ == old(self)@.pruned(now),
            removed == old(self)@.idle.len() - final(self)@.idle.len(),
    {
        let timeout = self.config.idle_timeout;
        let initial = self.connections.len();
        let ghost before = self.connections@;
        let ghost keep = |c: PooledConnection<S>| !c.expired(timeout, now);
        let mut kept: VecDeque<PooledConnection<S>> = VecDeque::new();
        let mut k: usize = 0;
        while k < initial
            invariant
                k <= initial == before.len(),
                self.connections@ == before.skip(k as int),
                kept@ == before.take(k as int).filter(keep),
                keep == (|c: PooledConnection<S>| !c.expired(timeout, now)),
                self@.config == old(self)@.config,
                self@.active == old(self)@.active,
            decreases initial - k,
        {
            reveal(Seq::filter);
            assert(before.take(k + 1).drop_last() =~= before.take(k as int));
            assert(before.skip(k as int)[0] == before[k as int]);
            assert(before.skip(k as int).subrange(1, before.len() - k) =~= before.skip(k + 1));
            match self.connections.pop_front() {
                Some(connection) => {
                    if !connection.is_expired(timeout, now) {
                        kept.push_back(connection);
                    }
                },
                None => {},
            }
            k += 1;
        }
        assert(before.take(k as int) =~= before);
        proof {
            before.lemma_filter_len(keep);
        }
        self.connections = kept;
        initial - self.connections.len()
    }

    /// How many connections are given out.
    pub fn get_active_connections(&self) -> (active: usize)
        ensures
            active == self@.active,
    {
        self.active_connections
    }

    /// How many connections lie idle.
    pub fn get_pooled_connections(&self) -> (idle: usize)
        ensures
            idle == self@.idle.len(),
    {
        self.connections.len()
    }

    /// The limits of the pool.
    pub fn get_config(&self) -> (config: &PoolConfig)
        ensures
            *config == self@.config,
    {
        &self.config
    }
}

/// At most one place is the first for an address, so a pool has no choice in what it reuses.
pub proof fn reuse_is_determined<S>(
    idle: Seq<PooledConnection<S>>,
    addr: SocketAddress,
    i: int,
    j: int,
)
    ensures
        first_at(idle, addr, i) && first_at(idle, addr, j) ==> i == j,
        first_at(idle, addr, i) ==> !none_for(idle, addr),
{
    if first_at(idle, addr, i) && first_at(idle, addr, j) {
        if i < j {
            assert(idle[i].addr != addr);
        } else if j < i {
            assert(idle[j].addr != addr);
        }
    }
}

/// Either no connection leads to `addr`, or one of them is the first.
proof fn lemma_some_first<S>(idle: Seq<PooledConnection<S>>, addr: SocketAddress, k: int)
    requires
        0 <= k < idle.len(),
        idle[k].addr == addr,
    ensures
        exists|i: int| first_at(idle, addr, i),
    decreases k,
{
    if exists|j: int| 0 <= j < k && (#[trigger] idle[j]).addr == addr {
        let j = choose|j: int| 0 <= j < k && (#[trigger] idle[j]).addr == addr;
        lemma_some_first(idle, addr, j);
    } else {
        assert(first_at(idle, addr, k));
    }
}

/// What a pool gives out for reuse was idle in it, leads to the address that was asked for and
/// has not expired.
pub proof fn reused_connections_are_live<S>(
    pool: PoolView<S>,
    addr: SocketAddress,
    now: Nanos,
    i: int,
)
    requires
        first_at(pool.pruned(now).idle, addr, i),
    ensures
        pool.idle.contains(pool.pruned(now).idle[i]),
        pool.pruned(now).idle[i].addr == addr,
        !pool.pruned(now).idle[i].expired(pool.config.idle_timeout, now),
        now - pool.pruned(now).idle[i].last_used <= pool.config.idle_timeout,
{
    let keep = |c: PooledConnection<S>| !c.expired(pool.config.idle_timeout, now);
    let found = pool.pruned(now).idle[i];
    pool.idle.lemma_filter_pred(keep, i);
    assert(pool.pruned(now).idle.contains(found));
    pool.idle.lemma_filter_contains_rev(keep, found);
}

/// A connection that comes back in time and finds room, to an address for which no other is
/// idle, is the one that the next caller for that address gets, as long as that caller comes
/// before it expires.
pub proof fn returned_connection_is_reused<S>(
    pool: PoolView<S>,
    connection: PooledConnection<S>,
    returned_at: Nanos,
    asked_at: Nanos,
)
    requires
        pool.wf(),
        pool.idle.len() < pool.config.max_idle_connections,
        !connection.expired(pool.config.idle_timeout, returned_at),
        !connection.used_at(returned_at).expired(pool.config.idle_timeout, asked_at),
        none_for(pool.idle, connection.addr),
    ensures
        ({
            let asked = pool.returned(connection, returned_at).pruned(asked_at);
            let last = asked.idle.len() - 1;
            &&& first_at(asked.idle, connection.addr, last)
            &&& asked.idle[last] == connection.used_at(returned_at)
            &&& asked.given_out(last).idle == pool.pruned(asked_at).idle
            &&& asked.given_out(last).active == pool.active
        }),
{
    reveal(Seq::filter);
    let timeout = pool.config.idle_timeout;
    let keep = |c: PooledConnection<S>| !c.expired(timeout, asked_at);
    let back = connection.used_at(returned_at);
    assert(pool.idle.push(back).drop_last() =~= pool.idle);
    let asked = pool.returned(connection, returned_at).pruned(asked_at);
    let rest = pool.pruned(asked_at).idle;
    assert(asked.idle =~= rest.push(back));
    let last = asked.idle.len() - 1;
    assert forall|j: int| 0 <= j < last implies (#[trigger] asked.idle[j]).addr
        != connection.addr by {
        let other = rest[j];
        assert(rest.contains(other));
        pool.idle.lemma_filter_contains_rev(keep, other);
        let at = choose|at: int| 0 <= at < pool.idle.len() && pool.idle[at] == other;
        assert(pool.idle[at].addr != connection.addr);
    }
    assert(asked.idle.remove(last) =~= rest);
    active_count_is_restored(pool, last, connection, returned_at);
}

/// Whenever an unexpired connection to an address is idle, a caller for that address reuses one.
pub proof fn live_connection_is_reused<S>(
    pool: PoolView<S>,
    connection: PooledConnection<S>,
    now: Nanos,
)
    requires
        pool.idle.contains(connection),
        !connection.expired(pool.config.idle_timeout, now),
    ensures
        exists|i: int| first_at(pool.pruned(now).idle, connection.addr, i),
{
    let keep = |c: PooledConnection<S>| !c.expired(pool.config.idle_timeout, now);
    let at = choose|at: int| 0 <= at < pool.idle.len() && pool.idle[at] == connection;
    pool.idle.lemma_filter_contains(keep, at);
    let left = pool.pruned(now).idle;
    let k = choose|k: int| 0 <= k < left.len() && left[k] == connection;
    lemma_some_first(left, connection.addr, k);
}

/// Giving a connection out and taking one back leaves the count of active connections as it was,
/// in either order, whether the pool held the connection or it had to be made.
pub proof fn active_count_is_restored<S>(
    pool: PoolView<S>,
    i: int,
    connection: PooledConnection<S>,
    now: Nanos,
)
    ensures
        pool.given_out(i).returned(connection, now).active == pool.active,
        pool.one_more_active().returned(connection, now).active == pool.active,
        pool.returned(connection, now).given_out(i).active == pool.active,
        pool.returned(connection, now).one_more_active().active == pool.active,
        pool.pruned(now).active == pool.active,
{
}

/// A connection that has expired stays expired: sweeping the pool earlier does not change what a
/// later sweep leaves.
pub proof fn sweeping_early_changes_nothing<S>(pool: PoolView<S>, earlier: Nanos, later: Nanos)
    requires
        earlier <= later,
    ensures
        pool.pruned(earlier).pruned(later) == pool.pruned(later),
{
    lemma_live_twice(pool.idle, pool.config.idle_timeout, earlier, later);
}

proof fn lemma_live_twice<S>(
    idle: Seq<PooledConnection<S>>,
    timeout: Nanos,
    earlier: Nanos,
    later: Nanos,
)
    requires
        earlier <= later,
    ensures
        live(live(idle, timeout, earlier), timeout, later) == live(idle, timeout, later),
    decreases idle.len(),
{
    reveal(Seq::filter);
    if idle.len() > 0 {
        lemma_live_twice(idle.drop_last(), timeout, earlier, later);
        let first = live(idle.drop_last(), timeout, earlier);
        assert(first.push(idle.last()).drop_last() =~= first);
    }
}

/// A connection has expired exactly if more time than the timeout lies between its last use and
/// now; nothing else of it counts.
pub proof fn expiry_is_age_beyond_the_timeout<S>(
    connection: PooledConnection<S>,
    idle_timeout: Nanos,
    now: Nanos,
)
    ensures
        connection.expired(idle_timeout, now) <==> now - connection.last_used > idle_timeout,
        connection.used_at(now).last_used == now,
        connection.used_at(now).stream == connection.stream,
        connection.used_at(now).created_at == connection.created_at,
        connection.used_at(now).addr == connection.addr,
{
}

/// Discarding what has expired keeps the connections that were last used no longer ago than the
/// configured timeout, all of them and no others, in their order. Returns the places at which they
/// stood.
pub proof fn pruning_keeps_exactly_what_is_live<S>(pool: PoolView<S>, now: Nanos) -> (from: Seq<
    int,
>)
    ensures
        pool.pruned(now).config == pool.config,
        pool.pruned(now).active == pool.active,
        from.len() == pool.pruned(now).idle.len(),
        forall|k: int|
            #![trigger from[k]]
            0 <= k < from.len() ==> 0 <= from[k] < pool.idle.len() && pool.pruned(now).idle[k]
                == pool.idle[from[k]],
        forall|k: int, l: int| 0 <= k < l < from.len() ==> #[trigger] from[k] < #[trigger] from[l],
        forall|i: int|
            0 <= i < pool.idle.len() ==> (from.contains(i) <==> now
                - (#[trigger] pool.idle[i]).last_used <= pool.config.idle_timeout),
{
    let keep = |c: PooledConnection<S>| !c.expired(pool.config.idle_timeout, now);
    crate::order::lemma_filter_places(pool.idle, keep)
}

/// What is left after pruning was there before and is live, and all that is live is left.
proof fn lemma_pruned_members<S>(pool: PoolView<S>, now: Nanos, from: Seq<int>)
    requires
        from.len() == pool.pruned(now).idle.len(),
        forall|k: int|
            #![trigger from[k]]
            0 <= k < from.len() ==> 0 <= from[k] < pool.idle.len() && pool.pruned(now).idle[k]
                == pool.idle[from[k]],
        forall|i: int|
            0 <= i < pool.idle.len() ==> (from.contains(i) <==> now
                - (#[trigger] pool.idle[i]).last_used <= pool.config.idle_timeout),
    ensures
        forall|k: int|
            0 <= k < pool.pruned(now).idle.len() ==> pool.idle.contains(
                #[trigger] pool.pruned(now).idle[k],
            ) && now - pool.pruned(now).idle[k].last_used <= pool.config.idle_timeout,
        forall|i: int|
            0 <= i < pool.idle.len() && now - (#[trigger] pool.idle[i]).last_used
                <= pool.config.idle_timeout ==> pool.pruned(now).idle.contains(pool.idle[i]),
{
    let left = pool.pruned(now).idle;
    assert forall|k: int| 0 <= k < left.len() implies pool.idle.contains(#[trigger] left[k]) && now
        - left[k].last_used <= pool.config.idle_timeout by {
        let i = from[k];
        assert(from.contains(i));
        assert(pool.idle[i] == left[k]);
    }
    assert forall|i: int|
        0 <= i < pool.idle.len() && now - (#[trigger] pool.idle[i]).last_used
            <= pool.config.idle_timeout implies left.contains(pool.idle[i]) by {
        let k = choose|k: int| 0 <= k < from.len() && from[k] == i;
        assert(left[k] == pool.idle[i]);
    }
}

/// What looking for a connection finds and leaves, over the idle connections before.
proof fn lemma_reuse_raw<S>(pool: PoolView<S>, addr: SocketAddress, now: Nanos)
    ensures
        forall|i: int| #[trigger]
            first_at(pool.pruned(now).idle, addr, i) ==> {
                let left = pool.pruned(now).idle;
                &&& exists|j: int|
                    0 <= j < pool.idle.len() && (#[trigger] pool.idle[j]).addr == addr && now
                        - pool.idle[j].last_used <= pool.config.idle_timeout && left[i]
                        == pool.idle[j] && forall|l: int|
                        0 <= l < j && (#[trigger] pool.idle[l]).addr == addr ==> now
                            - pool.idle[l].last_used > pool.config.idle_timeout
                &&& forall|j: int|
                    0 <= j < pool.idle.len() && (#[trigger] pool.idle[j]).addr != addr && now
                        - pool.idle[j].last_used <= pool.config.idle_timeout ==> left.remove(
                        i,
                    ).contains(pool.idle[j])
                &&& forall|k: int|
                    0 <= k < left.remove(i).len() ==> pool.idle.contains(
                        #[trigger] left.remove(i)[k],
                    ) && now - left.remove(i)[k].last_used <= pool.config.idle_timeout
            },
        none_for(pool.pruned(now).idle, addr) ==> forall|j: int|
            0 <= j < pool.idle.len() && (#[trigger] pool.idle[j]).addr == addr ==> now
                - pool.idle[j].last_used > pool.config.idle_timeout,
{
    let from = pruning_keeps_exactly_what_is_live(pool, now);
    lemma_pruned_members(pool, now, from);
    let left = pool.pruned(now).idle;
    assert forall|i: int| #[trigger] first_at(left, addr, i) implies {
        &&& exists|j: int|
            0 <= j < pool.idle.len() && (#[trigger] pool.idle[j]).addr == addr && now
                - pool.idle[j].last_used <= pool.config.idle_timeout && left[i] == pool.idle[j]
                && forall|l: int|
                0 <= l < j && (#[trigger] pool.idle[l]).addr == addr ==> now
                    - pool.idle[l].last_used > pool.config.idle_timeout
        &&& forall|j: int|
            0 <= j < pool.idle.len() && (#[trigger] pool.idle[j]).addr != addr && now
                - pool.idle[j].last_used <= pool.config.idle_timeout ==> left.remove(i).contains(
                pool.idle[j],
            )
        &&& forall|k: int|
            0 <= k < left.remove(i).len() ==> pool.idle.contains(#[trigger] left.remove(i)[k])
                && now - left.remove(i)[k].last_used <= pool.config.idle_timeout
    } by {
        let j = from[i];
        assert(from.contains(j));
        assert(pool.idle[j] == left[i]);
        assert forall|l: int| 0 <= l < j && (#[trigger] pool.idle[l]).addr == addr implies now
            - pool.idle[l].last_used > pool.config.idle_timeout by {
            if now - pool.idle[l].last_used <= pool.config.idle_timeout {
                assert(from.contains(l));
                let k = choose|k: int| 0 <= k < from.len() && from[k] == l;
                if i < k {
                    assert(from[i] < from[k]);
                }
                assert(left[k].addr != addr);
            }
        }
        assert forall|j: int|
            0 <= j < pool.idle.len() && (#[trigger] pool.idle[j]).addr != addr && now
                - pool.idle[j].last_used <= pool.config.idle_timeout implies left.remove(
            i,
        ).contains(pool.idle[j]) by {
            assert(left.contains(pool.idle[j]));
            let k = choose|k: int| 0 <= k < left.len() && left[k] == pool.idle[j];
            if k < i {
                assert(left.remove(i)[k] == pool.idle[j]);
            } else {
                assert(left.remove(i)[k - 1] == pool.idle[j]);
            }
        }
        assert forall|k: int| 0 <= k < left.remove(i).len() implies pool.idle.contains(
            #[trigger] left.remove(i)[k],
        ) && now - left.remove(i)[k].last_used <= pool.config.idle_timeout by {
            if k < i {
                assert(left.remove(i)[k] == left[k]);
            } else {
                assert(left.remove(i)[k] == left[k + 1]);
            }
        }
    }
    if none_for(left, addr) {
        assert forall|j: int|
            0 <= j < pool.idle.len() && (#[trigger] pool.idle[j]).addr == addr implies now
            - pool.idle[j].last_used > pool.config.idle_timeout by {
            if now - pool.idle[j].last_used <= pool.config.idle_timeout {
                assert(left.contains(pool.idle[j]));
                let k = choose|k: int| 0 <= k < left.len() && left[k] == pool.idle[j];
                assert(left[k].addr != addr);
            }
        }
    }
}

/// The place of the first connection to an address is one that holds a connection to it with none
/// before, and no place holds one exactly if every connection leads elsewhere.
pub proof fn first_is_the_earliest<S>(
    idle: Seq<PooledConnection<S>>,
    addr: SocketAddress,
    i: int,
)
    ensures
        first_at(idle, addr, i) <==> 0 <= i < idle.len() && idle[i].addr == addr && forall|j: int|
            0 <= j < i ==> (#[trigger] idle[j]).addr != addr,
        none_for(idle, addr) <==> forall|j: int|
            0 <= j < idle.len() ==> (#[trigger] idle[j]).addr != addr,
{
}

/// A connection that comes back is put behind the others, as last used now, exactly if it was last
/// used no longer ago than the configured timeout and there is room; otherwise the pool keeps what
/// it had. Either way one connection less is out.
pub proof fn returning_keeps_what_is_live_and_fits<S>(
    pool: PoolView<S>,
    connection: PooledConnection<S>,
    now: Nanos,
)
    ensures
        ({
            let after = pool.returned(connection, now);
            &&& after.config == pool.config
            &&& after.active == pool.active.wrapping_sub(1)
            &&& after.idle == if now - connection.last_used <= pool.config.idle_timeout
                && pool.idle.len() < pool.config.max_idle_connections {
                pool.idle.push(PooledConnection { last_used: now, ..connection })
            } else {
                pool.idle
            }
        }),
{
}

/// Giving a connection out takes it, and nothing else, out of the pool, and counts one more that is
/// out; a connection that was made is only counted. An empty pool holds nothing and counts none.
pub proof fn giving_out_takes_one<S>(pool: PoolView<S>, config: PoolConfig, i: int)
    ensures
        pool.given_out(i).idle == pool.idle.remove(i),
        pool.given_out(i).active == pool.active.wrapping_add(1),
        pool.given_out(i).config == pool.config,
        pool.one_more_active().idle == pool.idle,
        pool.one_more_active().active == pool.active.wrapping_add(1),
        pool.one_more_active().config == pool.config,
        pool.wf() <==> pool.idle.len() <= pool.config.max_idle_connections,
        PoolView::<S>::empty(config).idle.len() == 0,
        PoolView::<S>::empty(config).active == 0,
        PoolView::<S>::empty(config).config == config,
{
}

} // verus!
