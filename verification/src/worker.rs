//! The workers that serve the peers.
//!
//! Each peer has a worker, which takes the requests meant for it off a channel that all workers
//! listen to, sends them and reads the responses. A peer that fails too often in a row loses its
//! worker.

use std::collections::HashMap;

use dashmap::DashMap;
use vstd::prelude::*;

use crate::connection_pool::{ConnectionPool, PooledConnection};
use crate::error::{NetworkError, NetworkResult};
use crate::packet::QubicApiPacket;
use crate::peer::{AsyncPeer, PeerStats};
use crate::records::PeerRecords;
use crate::tables::{count_workers, list_workers, new_worker_table, put_worker, take_worker};
use crate::time::{Nanos, NANOS_PER_MILLI, NANOS_PER_SEC};

verus! {

broadcast use vstd::std_specs::hash::group_hash_axioms;

/// How long a worker waits for a request before it checks on its peer.
pub const REQUEST_WAIT: Nanos = 30 * NANOS_PER_SEC;

/// How many requests in a row may fail before a peer is given up.
pub const MAX_CONSECUTIVE_FAILURES: u32 = 5;

/// The pause after a failed request, before it is doubled for every failure in a row.
pub const BACKOFF_BASE_DURATION: Nanos = 100 * NANOS_PER_MILLI;

/// How often the pause is doubled at most.
pub const MAX_BACKOFF_DOUBLINGS: u32 = 10;

/// How often the requests that wait for a response are looked through.
pub const MATCHER_CLEANUP_INTERVAL: Nanos = 300 * NANOS_PER_SEC;

/// How many requests may wait for a response before they are forgotten.
pub const MATCHER_LIMIT: usize = 10_000;

/// The requests that were sent, by the number that their responses carry.
#[derive(Debug)]
pub struct RequestMatcher {
    requests: HashMap<u32, QubicApiPacket>,
}

impl View for RequestMatcher {
    type V = Map<u32, crate::packet::PacketView>;

    closed spec fn view(&self) -> Map<u32, crate::packet::PacketView> {
        self.requests@.map_values(|request: QubicApiPacket| request@)
    }
}

impl RequestMatcher {
    pub fn new() -> (matcher: Self)
        ensures
            matcher@ == Map::<u32, crate::packet::PacketView>::empty(),
    {
        let matcher = RequestMatcher { requests: HashMap::new() };
        assert(matcher@ =~= Map::<u32, crate::packet::PacketView>::empty());
        matcher
    }

    /// Remembers a request, in place of an older one with the same number.
    pub fn record(&mut self, request: &QubicApiPacket)
        ensures
            final(self)@ == old(self)@.insert(request.header.dejavu, request@),
    {
        self.requests.insert(request.header.dejavu, request.clone());
        assert(self@ =~= old(self)@.insert(request.header.dejavu, request@));
    }

    /// The request that a response with this number answers.
    pub fn find(&self, dejavu: u32) -> (request: Option<&QubicApiPacket>)
        ensures
            match request {
                Some(request) => self@.contains_key(dejavu) && request@ == self@[dejavu],
                None => !self@.contains_key(dejavu),
            },
    {
        self.requests.get(&dejavu)
    }

    /// Forgets all requests if there are too many, and says whether it did.
    pub fn cleanup(&mut self) -> (cleaned: bool)
        ensures
            cleaned == (old(self)@.len() > MATCHER_LIMIT),
            final(self)@ == if cleaned {
                Map::<u32, crate::packet::PacketView>::empty()
            } else {
                old(self)@
            },
    {
        assert(self@.dom() =~= self.requests@.dom());
        if self.requests.len() > MATCHER_LIMIT {
            self.requests.clear();
            assert(self@ =~= Map::<u32, crate::packet::PacketView>::empty());
            true
        } else {
            false
        }
    }
}

/// A running worker.
#[derive(Debug)]
pub struct WorkerTask {
    /// The peer that it serves.
    pub peer_id: String,
    /// The number of the task that runs it.
    pub task: u64,
}

/// A running worker, in mathematical terms.
pub ghost struct WorkerTaskView {
    pub peer_id: Seq<char>,
    pub task: u64,
}

impl View for WorkerTask {
    type V = WorkerTaskView;

    open spec fn view(&self) -> WorkerTaskView {
        WorkerTaskView { peer_id: self.peer_id@, task: self.task }
    }
}

/// A worker that may have been stopped, in mathematical terms.
pub open spec fn stopped_view(stopped: Option<WorkerTask>) -> Option<WorkerTaskView> {
    match stopped {
        Some(worker) => Some(worker@),
        None => None,
    }
}

/// The workers, by the peers that they serve.
pub struct AsyncWorkerManager {
    workers: DashMap<String, WorkerTask>,
    request_matcher: RequestMatcher,
}

/// The workers and what they sent, in mathematical terms.
#[verifier::ext_equal]
pub ghost struct ManagerView {
    pub workers: Map<Seq<char>, WorkerTaskView>,
    pub requests: Map<u32, crate::packet::PacketView>,
}

impl ManagerView {
    /// No workers, and nothing sent.
    pub open spec fn empty() -> Self {
        ManagerView { workers: Map::empty(), requests: Map::empty() }
    }

    /// There are finitely many workers, each listed under the peer that it serves.
    pub open spec fn wf(self) -> bool {
        &&& self.workers.dom().finite()
        &&& forall|id: Seq<char>| #[trigger]
            self.workers.contains_key(id) ==> self.workers[id].peer_id == id
    }

    /// The worker of `id`, if there is one.
    pub open spec fn worker_of(self, id: Seq<char>) -> Option<WorkerTaskView> {
        if self.workers.contains_key(id) {
            Some(self.workers[id])
        } else {
            None
        }
    }

    /// The manager once the worker of `id` is gone.
    pub open spec fn stopped(self, id: Seq<char>) -> Self {
        ManagerView { workers: self.workers.remove(id), ..self }
    }

    /// The manager once `task` runs the only worker of `id`.
    pub open spec fn started(self, id: Seq<char>, task: u64) -> Self {
        ManagerView {
            workers: self.workers.insert(id, WorkerTaskView { peer_id: id, task }),
            ..self
        }
    }
}

impl View for AsyncWorkerManager {
    type V = ManagerView;

    closed spec fn view(&self) -> ManagerView {
        ManagerView {
            workers: crate::tables::tasks_in(self.workers),
            requests: self.request_matcher@,
        }
    }
}

impl AsyncWorkerManager {
    /// A manager without workers.
    pub fn new() -> (manager: Self)
        ensures
            manager@.wf(),
            manager@ == ManagerView::empty(),
    {
        AsyncWorkerManager { workers: new_worker_table(), request_matcher: RequestMatcher::new() }
    }

    /// The requests that the workers sent.
    pub fn matcher(&mut self) -> (matcher: &mut RequestMatcher)
        ensures
            matcher@ == old(self)@.requests,
            final(self)@ == (ManagerView { requests: final(matcher)@, ..old(self)@ }),
    {
        &mut self.request_matcher
    }

    /// Notes that `task` runs the worker of a peer. Returns the worker that it replaces, whose
    /// task is to be aborted.
    pub fn start_worker(&mut self, peer_id: &str, task: u64) -> (replaced: Option<WorkerTask>)
        requires
            old(self)@.wf(),
        ensures
            final(self)@.wf(),
            final(self)@ == old(self)@.started(peer_id@, task),
            stopped_view(replaced) == old(self)@.worker_of(peer_id@),
            final(self)@.requests == old(self)@.requests,
            final(self)@.workers == old(self)@.workers.insert(
                peer_id@,
                WorkerTaskView { peer_id: peer_id@, task },
            ),
            replaced is Some <==> old(self)@.workers.contains_key(peer_id@),
            replaced matches Some(worker) ==> worker.peer_id@ == peer_id@ && worker.task
                == old(self)@.workers[peer_id@].task,
    {
        let replaced = self.stop_worker(peer_id);
        put_worker(
            &mut self.workers,
            peer_id.to_owned(),
            WorkerTask { peer_id: peer_id.to_owned(), task },
        );
        assert(self@.workers =~= old(self)@.started(peer_id@, task).workers);
        replaced
    }

    /// Strikes the worker of a peer off the list. Returns it; its task is to be aborted.
    pub fn stop_worker(&mut self, peer_id: &str) -> (stopped: Option<WorkerTask>)
        requires
            old(self)@.wf(),
        ensures
            final(self)@.wf(),
            final(self)@ == old(self)@.stopped(peer_id@),
            stopped_view(stopped) == old(self)@.worker_of(peer_id@),
            final(self)@.requests == old(self)@.requests,
            final(self)@.workers == old(self)@.workers.remove(peer_id@),
            stopped is Some <==> old(self)@.workers.contains_key(peer_id@),
            stopped matches Some(worker) ==> worker.peer_id@ == peer_id@ && worker.task
                == old(self)@.workers[peer_id@].task,
    {
        take_worker(&mut self.workers, peer_id)
    }

    /// Strikes a worker off the list that has come to its end by itself.
    pub fn worker_exited(&mut self, peer_id: &str)
        requires
            old(self)@.wf(),
        ensures
            final(self)@.wf(),
            final(self)@ == old(self)@.stopped(peer_id@),
            final(self)@.requests == old(self)@.requests,
            final(self)@.workers == old(self)@.workers.remove(peer_id@),
    {
        let _ = take_worker(&mut self.workers, peer_id);
    }

    /// How many workers there are.
    pub fn get_worker_count(&self) -> (count: usize)
        ensures
            count == self@.workers.len(),
    {
        count_workers(&self.workers)
    }

    /// The peers that have a worker, in no particular order.
    pub fn get_worker_ids(&self) -> (ids: Vec<String>)
        ensures
            lists_once(ids@, self@.workers.dom()),
    {
        list_workers(&self.workers)
    }

    /// Strikes all workers off the list. Returns them; their tasks are to be aborted.
    pub fn stop_all_workers(&mut self) -> (stopped: Vec<WorkerTask>)
        requires
            old(self)@.wf(),
        ensures
            final(self)@.wf(),
            final(self)@ == (ManagerView { workers: Map::empty(), ..old(self)@ }),
            forall|i: int|
                0 <= i < stopped@.len() ==> old(self)@.workers.contains_key(
                    (#[trigger] stopped@[i]).peer_id@,
                ) && stopped@[i]@ == old(self)@.workers[stopped@[i].peer_id@],
            forall|i: int, j: int|
                0 <= i < j < stopped@.len() ==> (#[trigger] stopped@[i]).peer_id@ != (
                #[trigger] stopped@[j]).peer_id@,
            forall|id: Seq<char>| #[trigger]
                old(self)@.workers.contains_key(id) ==> exists|i: int|
                    0 <= i < stopped@.len() && (#[trigger] stopped@[i]).peer_id@ == id,
    {
        let ids = self.get_worker_ids();
        let mut stopped: Vec<WorkerTask> = Vec::new();
        let mut k: usize = 0;
        while k < ids.len()
            invariant
                k <= ids@.len(),
                stopped@.len() == k,
                old(self)@.wf(),
                self@.wf(),
                self@.requests == old(self)@.requests,
                lists_once(ids@, old(self)@.workers.dom()),
                forall|i: int|
                    0 <= i < k ==> (#[trigger] stopped@[i]).peer_id@ == ids@[i]@ && stopped@[i]@
                        == old(self)@.workers[ids@[i]@],
                forall|id: Seq<char>| #[trigger]
                    self@.workers.contains_key(id) <==> old(self)@.workers.contains_key(id)
                        && !listed_before(ids@, k as int, id),
                forall|id: Seq<char>| #[trigger]
                    self@.workers.contains_key(id) ==> self@.workers[id] == old(self)@.workers[id],
            decreases ids@.len() - k,
        {
            let ghost before = self@;
            let ghost id = ids@[k as int]@;
            assert(!listed_before(ids@, k as int, id));
            assert(old(self)@.workers.dom().contains(id));
            assert(before.workers.contains_key(id));
            match self.stop_worker(ids[k].as_str()) {
                Some(worker) => {
                    stopped.push(worker);
                },
                None => {},
            }
            assert forall|other: Seq<char>| #[trigger]
                self@.workers.contains_key(other) <==> old(self)@.workers.contains_key(other)
                    && !listed_before(ids@, k + 1, other) by {
                assert(listed_before(ids@, k + 1, other) <==> listed_before(
                    ids@,
                    k as int,
                    other,
                ) || other == id) by {
                    if other == id {
                        assert(ids@[k as int]@ == other);
                    }
                }
            }
            k += 1;
        }
        assert forall|id: Seq<char>| !self@.workers.contains_key(id) by {
            if old(self)@.workers.contains_key(id) {
                assert(old(self)@.workers.dom().contains(id));
                let i = choose|i: int| 0 <= i < ids@.len() && (#[trigger] ids@[i])@ == id;
                assert(listed_before(ids@, k as int, id));
            }
        }
        assert(self@.workers =~= Map::empty());
        assert forall|id: Seq<char>| #[trigger]
            old(self)@.workers.contains_key(id) implies exists|i: int|
            0 <= i < stopped@.len() && (#[trigger] stopped@[i]).peer_id@ == id by {
            assert(old(self)@.workers.dom().contains(id));
            let i = choose|i: int| 0 <= i < ids@.len() && (#[trigger] ids@[i])@ == id;
            assert(stopped@[i].peer_id@ == id);
        }
        assert forall|i: int| 0 <= i < stopped@.len() implies old(
            self,
        )@.workers.contains_key((#[trigger] stopped@[i]).peer_id@) by {
            assert(old(self)@.workers.dom().contains(ids@[i]@));
        }
        stopped
    }

    /// Stops the worker of a peer, if there is one, and notes that `task` runs the new one.
    pub fn restart_worker(&mut self, peer_id: &str, task: u64) -> (replaced: Option<WorkerTask>)
        requires
            old(self)@.wf(),
        ensures
            final(self)@.wf(),
            final(self)@ == old(self)@.started(peer_id@, task),
            stopped_view(replaced) == old(self)@.worker_of(peer_id@),
    {
        let replaced = self.stop_worker(peer_id);
        let _ = self.start_worker(peer_id, task);
        assert(self@.workers =~= old(self)@.started(peer_id@, task).workers);
        replaced
    }
}

/// Whether `names` lists the members of `set`, each once.
pub open spec fn lists_once(names: Seq<String>, set: Set<Seq<char>>) -> bool {
    &&& forall|i: int| 0 <= i < names.len() ==> set.contains((#[trigger] names[i])@)
    &&& forall|i: int, j: int|
        0 <= i < j < names.len() ==> (#[trigger] names[i])@ != (#[trigger] names[j])@
    &&& forall|name: Seq<char>| #[trigger]
        set.contains(name) ==> exists|i: int|
            0 <= i < names.len() && (#[trigger] names[i])@ == name
}

/// Whether one of the first `n` names is `name`.
spec fn listed_before(names: Seq<String>, n: int, name: Seq<char>) -> bool {
    exists|i: int| 0 <= i < n && (#[trigger] names[i])@ == name
}

/// What a worker finds on the channel of requests.
#[derive(Debug)]
pub enum RequestEvent {
    Request(QubicApiPacket),
    /// Requests were missed.
    Lagged,
    /// There will be no more requests.
    Closed,
    /// No request came in time.
    TimedOut,
}

/// What a worker is to do next.
#[derive(Debug)]
pub enum WorkerAction {
    /// Wait for the next request.
    Receive,
    /// Send this request to the peer.
    Handle(QubicApiPacket),
    /// Check whether the peer can be reached.
    CheckHealth,
    /// Come to an end.
    Stop,
}

/// What follows on a request.
#[derive(Debug, Clone, Copy, PartialEq, Eq, Structural)]
pub struct Aftermath {
    /// How long to pause.
    pub backoff: Option<Nanos>,
    /// Whether, after the pause, the worker is to come to an end and the peer to be entered into
    /// the peer database as disconnected.
    pub disconnect: bool,
}

/// How an attempt to send a request ended.
#[derive(Debug)]
pub enum SendOutcome {
    Sent,
    /// The bytes could not be written; holds the system's message.
    WriteFailed(String),
    /// The bytes could not be flushed; holds the system's message.
    FlushFailed(String),
}

/// The result of sending a request.
pub fn send_data(outcome: SendOutcome) -> (result: NetworkResult<()>)
    ensures
        match outcome {
            SendOutcome::Sent => result == Ok::<_, NetworkError>(()),
            SendOutcome::WriteFailed(cause) | SendOutcome::FlushFailed(cause) => result == Err::<
                (),
                _,
            >(NetworkError::Io(cause)),
        },
{
    match outcome {
        SendOutcome::Sent => Ok(()),
        SendOutcome::WriteFailed(cause) => Err(NetworkError::Io(cause)),
        SendOutcome::FlushFailed(cause) => Err(NetworkError::Io(cause)),
    }
}

/// How the exchange of a request for a response went.
#[derive(Debug)]
pub enum Exchange<S> {
    /// There was no connection.
    NotConnected(NetworkError),
    /// The request could not be sent. Its connection is given up.
    NotSent(NetworkError),
    /// The request was sent; `response` is what came of reading the response.
    Answered { connection: PooledConnection<S>, response: NetworkResult<()> },
}

/// The pause after `failures` failed requests in a row.
pub open spec fn backoff_spec(failures: u32) -> int {
    BACKOFF_BASE_DURATION * vstd::arithmetic::power2::pow2(
        if failures < MAX_BACKOFF_DOUBLINGS {
            failures as nat
        } else {
            MAX_BACKOFF_DOUBLINGS as nat
        },
    )
}

/// The pause after `failures` failed requests in a row.
pub fn backoff(failures: u32) -> (pause: Nanos)
    ensures
        pause == backoff_spec(failures),
        pause == 100_000_000 * vstd::arithmetic::power2::pow2(
            if failures <= 10 {
                failures as nat
            } else {
                10
            },
        ),
{
    let doublings: u32 = if failures < MAX_BACKOFF_DOUBLINGS {
        failures
    } else {
        MAX_BACKOFF_DOUBLINGS
    };
    let mut factor: Nanos = 1;
    let mut k: u32 = 0;
    proof {
        vstd::arithmetic::power2::lemma2_to64();
    }
    while k < doublings
        invariant
            k <= doublings <= 10,
            factor == vstd::arithmetic::power2::pow2(k as nat),
            factor <= 1024,
            vstd::arithmetic::power2::pow2(10) == 1024,
        decreases doublings - k,
    {
        proof {
            vstd::arithmetic::power2::lemma_pow2_unfold((k + 1) as nat);
            if k + 1 < 10 {
                vstd::arithmetic::power2::lemma_pow2_strictly_increases((k + 1) as nat, 10);
            }
        }
        factor = factor * 2;
        k += 1;
    }
    BACKOFF_BASE_DURATION * factor
}

/// The worker of a peer.
#[derive(Debug)]
pub struct Worker {
    /// The peer, as the worker knows it.
    pub peer: AsyncPeer,
    /// How many requests in a row have failed.
    pub consecutive_failures: u32,
}

/// A worker, in mathematical terms.
#[verifier::ext_equal]
pub ghost struct WorkerView {
    pub peer: crate::peer::PeerView,
    pub failures: u32,
}

/// How many requests in a row have failed once another one has succeeded or failed.
pub open spec fn next_failures(failures: u32, success: bool) -> u32 {
    if success {
        0
    } else {
        (failures + 1) as u32
    }
}

impl WorkerView {
    /// A worker runs only as long as its peer has not failed too often.
    pub open spec fn wf(self) -> bool {
        self.failures < MAX_CONSECUTIVE_FAILURES
    }

    /// The worker after a request that succeeded or failed.
    pub open spec fn after_request(self, success: bool) -> Self {
        let failures = next_failures(self.failures, success);
        WorkerView {
            peer: crate::peer::PeerView {
                connected: self.peer.connected && failures < MAX_CONSECUTIVE_FAILURES,
                ..self.peer
            },
            failures,
        }
    }

    /// The worker after a run of requests, of each of which `outcomes` says whether it succeeded.
    pub open spec fn after_requests(self, outcomes: Seq<bool>) -> Self
        decreases outcomes.len(),
    {
        if outcomes.len() == 0 {
            self
        } else {
            self.after_requests(outcomes.drop_last()).after_request(outcomes.last())
        }
    }

    /// Whether the worker has not come to an end before the last of `outcomes`.
    pub open spec fn runs_until(self, outcomes: Seq<bool>) -> bool {
        forall|k: int|
            0 <= k < outcomes.len() ==> (#[trigger] self.after_requests(outcomes.take(k))).wf()
    }
}

impl View for Worker {
    type V = WorkerView;

    open spec fn view(&self) -> WorkerView {
        WorkerView { peer: self.peer@, failures: self.consecutive_failures }
    }
}

impl Worker {
    /// A worker for `peer`.
    pub fn new(peer: AsyncPeer) -> (worker: Self)
        ensures
            worker@ == (WorkerView { peer: peer@, failures: 0 }),
            worker@.wf(),
    {
        Worker { peer, consecutive_failures: 0 }
    }

    /// Decides what to do about what was found on the channel. A request that another peer is to
    /// serve is passed over; one that this peer is to serve is remembered first.
    pub fn recv_request(&self, matcher: &mut RequestMatcher, event: RequestEvent) -> (action:
        WorkerAction)
        ensures
            match event {
                RequestEvent::Request(request) => if request@.is_for(self@.peer.id) {
                    &&& action == WorkerAction::Handle(request)
                    &&& final(matcher)@ == old(matcher)@.insert(request.header.dejavu, request@)
                } else {
                    action is Receive && final(matcher)@ == old(matcher)@
                },
                RequestEvent::Lagged => action is Receive && final(matcher)@ == old(matcher)@,
                RequestEvent::Closed => action is Stop && final(matcher)@ == old(matcher)@,
                RequestEvent::TimedOut => action is CheckHealth && final(matcher)@ == old(matcher)@,
            },
            event matches RequestEvent::Request(request) ==> (action is Handle <==> (
            request.peer matches Some(target) ==> target@ == self@.peer.id)),
    {
        match event {
            RequestEvent::Request(request) => {
                if let Some(target) = &request.peer {
                    if !same_text(target.as_str(), self.peer.get_id()) {
                        return WorkerAction::Receive;
                    }
                }
                matcher.record(&request);
                WorkerAction::Handle(request)
            },
            RequestEvent::Lagged => WorkerAction::Receive,
            RequestEvent::Closed => WorkerAction::Stop,
            RequestEvent::TimedOut => WorkerAction::CheckHealth,
        }
    }

    /// Finishes a request. A connection on which a response was read goes back to the pool, and
    /// the peer is noted to have answered, whatever the response was.
    pub fn handle_request<S>(
        &self,
        pool: &mut ConnectionPool<S>,
        records: &mut PeerRecords,
        exchange: Exchange<S>,
        now: Nanos,
        wall_time: Nanos,
    ) -> (result: NetworkResult<()>)
        requires
            old(pool)@.wf(),
            old(records)@.holds(self@.peer.record),
        ensures
            final(pool)@.wf(),
            match exchange {
                Exchange::NotConnected(cause) | Exchange::NotSent(cause) => {
                    &&& result == Err::<(), _>(cause)
                    &&& final(pool)@ == old(pool)@
                    &&& final(records)@ == old(records)@
                },
                Exchange::Answered { connection, response } => {
                    &&& result == response
                    &&& final(pool)@ == old(pool)@.returned(connection, now)
                    &&& final(records)@ == old(records)@.with_last_responded(
                        self@.peer.record,
                        wall_time,
                    )
                },
            },
    {
        match exchange {
            Exchange::NotConnected(error) => Err(error),
            Exchange::NotSent(error) => Err(error),
            Exchange::Answered { connection, response } => {
                self.peer.return_connection(pool, connection, now);
                self.peer.update_last_responded(records, wall_time);
                response
            },
        }
    }

    /// Draws the consequences of a request that was handled: counts it, and pauses after a
    /// failure, the longer the more there were in a row. Too many end the worker.
    pub fn request_handled(
        &mut self,
        records: &mut PeerRecords,
        result: &NetworkResult<()>,
        avg_response_time_ms_bits: u64,
    ) -> (aftermath: Aftermath)
        requires
            old(self)@.wf(),
            old(records)@.holds(old(self)@.peer.record),
            old(self)@.peer.shared(old(records)@).stats.can_record(result is Ok),
        ensures
            final(self)@ == old(self)@.after_request(result is Ok),
            final(records)@ == old(records)@.recorded(
                old(self)@.peer.record,
                result is Ok,
                avg_response_time_ms_bits,
            ),
            aftermath.disconnect <==> !final(self)@.wf(),
            final(self)@.failures == if result is Ok {
                0
            } else {
                old(self)@.failures + 1
            },
            aftermath.disconnect <==> final(self)@.failures >= 5,
            final(self)@.peer == (crate::peer::PeerView {
                connected: old(self)@.peer.connected && !aftermath.disconnect,
                ..old(self)@.peer
            }),
            aftermath.backoff is Some <==> final(self)@.failures > 0,
            aftermath.backoff matches Some(pause) ==> pause == backoff_spec(
                final(self)@.failures,
            ),
    {
        let success: bool = match result {
            Ok(_) => true,
            Err(_) => false,
        };
        let updater = |stats: &mut PeerStats|
            requires
                old(stats).can_record(success),
            ensures
                *final(stats) == old(stats).recorded(success, avg_response_time_ms_bits)
        {
            stats.record_request(success, avg_response_time_ms_bits);
        };
        self.peer.update_stats(records, updater);
        if success {
            self.consecutive_failures = 0;
        } else {
            self.consecutive_failures = self.consecutive_failures + 1;
        }
        let pause: Option<Nanos> = if self.consecutive_failures > 0 {
            Some(backoff(self.consecutive_failures))
        } else {
            None
        };
        let disconnect = self.consecutive_failures >= MAX_CONSECUTIVE_FAILURES;
        if disconnect {
            self.peer.set_connected(false);
        }
        Aftermath { backoff: pause, disconnect }
    }

    /// Decides what to do once the peer was checked: `connection` is what came of trying to get
    /// a connection to it. A worker whose peer cannot be reached comes to an end.
    pub fn health_checked<S>(
        &mut self,
        pool: &mut ConnectionPool<S>,
        connection: NetworkResult<PooledConnection<S>>,
        now: Nanos,
    ) -> (action: WorkerAction)
        requires
            old(pool)@.wf(),
        ensures
            final(pool)@.wf(),
            action == if connection is Ok {
                WorkerAction::Receive
            } else {
                WorkerAction::Stop
            },
            final(self)@ == (WorkerView {
                peer: old(self)@.peer.with_connected(connection is Ok),
                ..old(self)@
            }),
            final(pool)@ == (match connection {
                Ok(connection) => old(pool)@.returned(connection, now),
                Err(_) => old(pool)@,
            }),
    {
        if self.peer.health_check(pool, connection, now) {
            WorkerAction::Receive
        } else {
            WorkerAction::Stop
        }
    }
}

/// How many of the last requests failed without a success between.
pub open spec fn failures_after(outcomes: Seq<bool>) -> int
    decreases outcomes.len(),
{
    if outcomes.len() == 0 || outcomes.last() {
        0
    } else {
        failures_after(outcomes.drop_last()) + 1
    }
}

/// A worker that starts afresh counts the failures since the last success: whatever its requests
/// came to, its count is right as long as it runs.
pub proof fn worker_counts_failures_in_a_row(worker: WorkerView, outcomes: Seq<bool>)
    requires
        worker.failures == 0,
        worker.runs_until(outcomes),
    ensures
        worker.after_requests(outcomes).failures == failures_after(outcomes),
    decreases outcomes.len(),
{
    if outcomes.len() > 0 {
        let before = outcomes.drop_last();
        assert(outcomes.take(outcomes.len() - 1) =~= before);
        assert(worker.after_requests(outcomes.take(outcomes.len() - 1)).wf());
        assert forall|k: int| 0 <= k < before.len() implies (#[trigger] worker.after_requests(
            before.take(k),
        )).wf() by {
            assert(before.take(k) =~= outcomes.take(k));
        }
        worker_counts_failures_in_a_row(worker, before);
    }
}

/// The count of failures in a row reaches `k` exactly if the last `k` requests all failed.
pub proof fn failures_in_a_row_are_the_last(outcomes: Seq<bool>, k: int)
    requires
        0 <= k,
    ensures
        failures_after(outcomes) >= k <==> k <= outcomes.len() && forall|i: int|
            outcomes.len() - k <= i < outcomes.len() ==> !(#[trigger] outcomes[i]),
    decreases outcomes.len(),
{
    if outcomes.len() > 0 && k > 0 {
        let before = outcomes.drop_last();
        failures_in_a_row_are_the_last(before, k - 1);
        assert(outcomes.last() == outcomes[outcomes.len() - 1]);
        if failures_after(outcomes) >= k {
            assert forall|i: int| outcomes.len() - k <= i < outcomes.len() implies !(
            #[trigger] outcomes[i]) by {
                if i < before.len() {
                    assert(!before[i]);
                }
            }
        }
        if k <= outcomes.len() && forall|i: int|
            outcomes.len() - k <= i < outcomes.len() ==> !(#[trigger] outcomes[i]) {
            assert forall|i: int| before.len() - (k - 1) <= i < before.len() implies !(
            #[trigger] before[i]) by {
                assert(!outcomes[i]);
            }
            assert(!outcomes[outcomes.len() - 1]);
        }
    }
    lemma_failures_bounded(outcomes);
}

proof fn lemma_failures_bounded(outcomes: Seq<bool>)
    ensures
        0 <= failures_after(outcomes) <= outcomes.len(),
    decreases outcomes.len(),
{
    if outcomes.len() > 0 {
        lemma_failures_bounded(outcomes.drop_last());
    }
}

/// A worker that starts afresh gives its peer up exactly when as many requests in a row have
/// failed as a peer is allowed, and leaves the peer disconnected.
pub proof fn peer_is_given_up_after_too_many_failures(
    worker: WorkerView,
    outcomes: Seq<bool>,
)
    requires
        worker.failures == 0,
        worker.runs_until(outcomes),
    ensures
        !worker.after_requests(outcomes).wf() <==> outcomes.len() >= MAX_CONSECUTIVE_FAILURES
            && forall|i: int|
            outcomes.len() - MAX_CONSECUTIVE_FAILURES <= i < outcomes.len() ==> !(
            #[trigger] outcomes[i]),
        !worker.after_requests(outcomes).wf() ==> !worker.after_requests(outcomes).peer.connected,
{
    worker_counts_failures_in_a_row(worker, outcomes);
    failures_in_a_row_are_the_last(outcomes, MAX_CONSECUTIVE_FAILURES as int);
}

/// Every further failure doubles the pause, up to the last doubling; from there on it stays.
pub proof fn backoff_doubles(failures: u32)
    requires
        failures < u32::MAX,
    ensures
        failures < MAX_BACKOFF_DOUBLINGS ==> backoff_spec((failures + 1) as u32) == 2
            * backoff_spec(failures),
        failures >= MAX_BACKOFF_DOUBLINGS ==> backoff_spec((failures + 1) as u32)
            == backoff_spec(failures),
        backoff_spec(failures) <= 1024 * BACKOFF_BASE_DURATION,
        backoff_spec(0) == BACKOFF_BASE_DURATION,
{
    vstd::arithmetic::power2::lemma2_to64();
    if failures < MAX_BACKOFF_DOUBLINGS {
        vstd::arithmetic::power2::lemma_pow2_unfold((failures + 1) as nat);
        vstd::arithmetic::power2::lemma_pow2_strictly_increases(failures as nat, 10);
    }
}

/// A request that is addressed to a peer is served by that peer's worker and by no other; one
/// that is not addressed is served by every worker.
pub proof fn addressed_requests_are_served_once(
    request: crate::packet::PacketView,
    id: Seq<char>,
    other: Seq<char>,
)
    ensures
        request.addressed_to(id).is_for(other) <==> other == id,
        request.peer is None ==> request.is_for(other),
{
}

/// A peer has at most one worker: starting one replaces the one that ran, stopping it leaves
/// none, and the workers of other peers are left alone.
pub proof fn one_worker_per_peer(manager: ManagerView, id: Seq<char>, task: u64, other: Seq<char>)
    ensures
        manager.started(id, task).worker_of(id) == Some(WorkerTaskView { peer_id: id, task }),
        manager.stopped(id).worker_of(id) is None,
        other != id ==> manager.started(id, task).worker_of(other) == manager.worker_of(other),
        other != id ==> manager.stopped(id).worker_of(other) == manager.worker_of(other),
        manager.started(id, task).stopped(id) == manager.stopped(id),
        manager.worker_of(id) is None ==> manager.stopped(id) == manager,
{
    assert(manager.started(id, task).stopped(id).workers =~= manager.stopped(id).workers);
    if manager.worker_of(id) is None {
        assert(manager.stopped(id).workers =~= manager.workers);
    }
}

/// What starting and stopping a worker does to the list of workers: the one of that peer is entered
/// with its task, or struck off; all others, and the requests that were sent, stay as they are.
pub proof fn workers_are_listed_by_peer(manager: ManagerView, id: Seq<char>, task: u64)
    ensures
        manager.started(id, task).workers == manager.workers.insert(
            id,
            WorkerTaskView { peer_id: id, task },
        ),
        manager.started(id, task).requests == manager.requests,
        manager.stopped(id).workers == manager.workers.remove(id),
        manager.stopped(id).requests == manager.requests,
        manager.workers.contains_key(id) ==> manager.worker_of(id) == Some(manager.workers[id]),
        !manager.workers.contains_key(id) ==> manager.worker_of(id) is None,
        manager.wf() <==> manager.workers.dom().finite() && forall|other: Seq<char>| #[trigger]
            manager.workers.contains_key(other) ==> manager.workers[other].peer_id == other,
        ManagerView::empty().workers == Map::<Seq<char>, WorkerTaskView>::empty(),
        ManagerView::empty().requests == Map::<u32, crate::packet::PacketView>::empty(),
{
}

/// The view of a worker that may have been stopped leaves nothing of it out.
pub proof fn stopped_views_are_complete(worker: WorkerTask)
    ensures
        stopped_view(None) is None,
        stopped_view(Some(worker)) == Some(
            WorkerTaskView { peer_id: worker.peer_id@, task: worker.task },
        ),
{
}

/// The view of a worker leaves nothing of it out.
pub proof fn worker_views_are_complete(worker: Worker)
    ensures
        worker@.peer == worker.peer@,
        worker@.failures == worker.consecutive_failures,
{
}

/// A success sets the count of failures back, a failure raises it by one. The peer of a worker is
/// left disconnected by the fifth failure in a row and unchanged by any other request.
pub proof fn requests_are_counted_one_by_one(worker: WorkerView, success: bool)
    requires
        worker.failures < 5,
    ensures
        worker.wf(),
        success ==> worker.after_request(success) == (WorkerView { failures: 0, ..worker }),
        !success ==> worker.after_request(success).failures == worker.failures + 1,
        !success && worker.failures < 4 ==> worker.after_request(success).peer == worker.peer,
        !success && worker.failures == 4 ==> worker.after_request(success).peer == (
        crate::peer::PeerView { connected: false, ..worker.peer }),
        worker.after_request(success).wf() <==> success || worker.failures < 4,
{
}

/// The pause is a tenth of a second, doubled for each failure in a row, ten times at most.
pub proof fn pauses_are_powers_of_two(failures: u32)
    ensures
        backoff_spec(failures) == 100_000_000 * vstd::arithmetic::power2::pow2(
            if failures <= 10 {
                failures as nat
            } else {
                10
            },
        ),
{
}

/// A list of the members of a set names each of them exactly once, and nothing else.
pub proof fn lists_name_each_member_once(
    names: Seq<String>,
    members: Set<Seq<char>>,
    name: Seq<char>,
    i: int,
    j: int,
)
    requires
        lists_once(names, members),
    ensures
        members.contains(name) <==> exists|k: int|
            0 <= k < names.len() && (#[trigger] names[k])@ == name,
        0 <= i < names.len() && 0 <= j < names.len() && names[i]@ == names[j]@ ==> i == j,
{
}

/// Whether two texts are the same.
pub(crate) fn same_text(a: &str, b: &str) -> (same: bool)
    ensures
        same == (a@ == b@),
{
    let a = a.to_owned();
    let b = b.to_owned();
    a == b
}

} // verus!
