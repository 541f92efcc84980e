//! What all copies of a peer share.
//!
//! A copy of a peer has flags of its own, but the nick of the peer, its statistics and the time of
//! its last response are held once, in a record that every copy leads to. What is written through
//! one copy is therefore read through every other.

use std::collections::HashMap;

use vstd::prelude::*;

use crate::peer::PeerStats;
use crate::time::Nanos;

verus! {

broadcast use vstd::std_specs::hash::group_hash_axioms;

/// What the copies of one peer share.
#[derive(Debug)]
struct SharedRecord {
    nick: String,
    last_responded: Nanos,
    stats: PeerStats,
}

/// The records of all peers, by their keys.
#[derive(Debug)]
pub struct PeerRecords {
    records: HashMap<u64, SharedRecord>,
    next_key: u64,
}

/// What the copies of one peer share, in mathematical terms.
#[verifier::ext_equal]
pub ghost struct RecordView {
    pub nick: Seq<char>,
    /// When the peer last answered, on the wall clock.
    pub last_responded: Nanos,
    pub stats: PeerStats,
}

/// Records, in mathematical terms.
#[verifier::ext_equal]
pub ghost struct RecordsView {
    pub entries: Map<u64, RecordView>,
    /// The key of the next record.
    pub next_key: u64,
}

impl RecordView {
    /// The record after one more request.
    pub open spec fn recorded(self, success: bool, avg_response_time_ms_bits: u64) -> Self {
        RecordView { stats: self.stats.recorded(success, avg_response_time_ms_bits), ..self }
    }
}

impl RecordsView {
    /// No records.
    pub open spec fn empty() -> Self {
        RecordsView { entries: Map::empty(), next_key: 0 }
    }

    /// No key is used again.
    pub open spec fn wf(self) -> bool {
        forall|key: u64| #[trigger] self.entries.contains_key(key) ==> key < self.next_key
    }

    /// Whether there is a record under `key`.
    pub open spec fn holds(self, key: u64) -> bool {
        self.entries.contains_key(key)
    }

    /// Whether a key is left for another record.
    pub open spec fn has_room(self) -> bool {
        self.next_key < u64::MAX
    }

    /// The records with a new one.
    pub open spec fn opened(self, record: RecordView) -> Self {
        RecordsView {
            entries: self.entries.insert(self.next_key, record),
            next_key: (self.next_key + 1) as u64,
        }
    }

    /// The records with the one under `key` replaced.
    pub open spec fn updated(self, key: u64, record: RecordView) -> Self {
        RecordsView { entries: self.entries.insert(key, record), ..self }
    }

    /// The records with another nick under `key`.
    pub open spec fn with_nick(self, key: u64, nick: Seq<char>) -> Self {
        self.updated(key, RecordView { nick, ..self.entries[key] })
    }

    /// The records with another time of the last response under `key`.
    pub open spec fn with_last_responded(self, key: u64, last_responded: Nanos) -> Self {
        self.updated(key, RecordView { last_responded, ..self.entries[key] })
    }

    /// The records with other statistics under `key`.
    pub open spec fn with_stats(self, key: u64, stats: PeerStats) -> Self {
        self.updated(key, RecordView { stats, ..self.entries[key] })
    }

    /// The records after one more request to the peer whose record is under `key`.
    pub open spec fn recorded(
        self,
        key: u64,
        success: bool,
        avg_response_time_ms_bits: u64,
    ) -> Self {
        self.updated(key, self.entries[key].recorded(success, avg_response_time_ms_bits))
    }

    /// The records after a run of requests to the peer whose record is under `key`. `requests`
    /// says of each whether it succeeded and what the smoothed response time was.
    pub open spec fn all_recorded(self, key: u64, requests: Seq<(bool, u64)>) -> Self
        decreases requests.len(),
    {
        if requests.len() == 0 {
            self
        } else {
            self.all_recorded(key, requests.drop_last()).recorded(
                key,
                requests.last().0,
                requests.last().1,
            )
        }
    }

    /// The records without the one under `key`.
    pub open spec fn released(self, key: u64) -> Self {
        RecordsView { entries: self.entries.remove(key), ..self }
    }
}

spec fn record_view(record: SharedRecord) -> RecordView {
    RecordView {
        nick: record.nick@,
        last_responded: record.last_responded,
        stats: record.stats,
    }
}

impl View for PeerRecords {
    type V = RecordsView;

    closed spec fn view(&self) -> RecordsView {
        RecordsView {
            entries: self.records@.map_values(|record: SharedRecord| record_view(record)),
            next_key: self.next_key,
        }
    }
}

impl PeerRecords {
    pub fn new() -> (records: Self)
        ensures
            records@ == RecordsView::empty(),
            records@.wf(),
    {
        let records = PeerRecords { records: HashMap::new(), next_key: 0 };
        assert(records@.entries =~= Map::empty());
        records
    }

    /// Whether a key is left for another record.
    pub fn has_room(&self) -> (room: bool)
        ensures
            room == self@.has_room(),
    {
        self.next_key < u64::MAX
    }

    /// Whether there is a record under `key`.
    pub fn holds(&self, key: u64) -> (held: bool)
        ensures
            held == self@.holds(key),
    {
        self.records.contains_key(&key)
    }

    /// Opens a record for a peer that was asked nothing yet, and returns its key.
    pub(crate) fn open(&mut self, nick: String, last_responded: Nanos) -> (key: u64)
        requires
            old(self)@.wf(),
            old(self)@.has_room(),
        ensures
            final(self)@.wf(),
            key == old(self)@.next_key,
            !old(self)@.holds(key),
            final(self)@ == old(self)@.opened(
                RecordView { nick: nick@, last_responded, stats: PeerStats::spec_default() },
            ),
    {
        let key = self.next_key;
        let record = SharedRecord { nick, last_responded, stats: PeerStats::default() };
        self.records.insert(key, record);
        self.next_key = key + 1;
        assert(self@.entries =~= old(self)@.entries.insert(key, record_view(record)));
        key
    }

    /// Forgets the record under `key`, once no copy of its peer is left.
    pub fn release(&mut self, key: u64)
        ensures
            final(self)@ == old(self)@.released(key),
            old(self)@.wf() ==> final(self)@.wf(),
    {
        self.records.remove(&key);
        assert(self@.entries =~= old(self)@.entries.remove(key));
    }

    pub(crate) fn nick(&self, key: u64) -> (nick: String)
        requires
            self@.holds(key),
        ensures
            nick@ == self@.entries[key].nick,
    {
        self.records.get(&key).unwrap().nick.clone()
    }

    pub(crate) fn last_responded(&self, key: u64) -> (last_responded: Nanos)
        requires
            self@.holds(key),
        ensures
            last_responded == self@.entries[key].last_responded,
    {
        self.records.get(&key).unwrap().last_responded
    }

    pub(crate) fn stats(&self, key: u64) -> (stats: PeerStats)
        requires
            self@.holds(key),
        ensures
            stats == self@.entries[key].stats,
    {
        self.records.get(&key).unwrap().stats
    }

    pub(crate) fn set_nick(&mut self, key: u64, nick: String)
        requires
            old(self)@.holds(key),
        ensures
            final(self)@ == old(self)@.with_nick(key, nick@),
    {
        if let Some(mut record) = self.records.remove(&key) {
            record.nick = nick;
            self.records.insert(key, record);
        }
        assert(self@.entries =~= old(self)@.with_nick(key, nick@).entries);
    }

    pub(crate) fn set_last_responded(&mut self, key: u64, last_responded: Nanos)
        requires
            old(self)@.holds(key),
        ensures
            final(self)@ == old(self)@.with_last_responded(key, last_responded),
    {
        if let Some(mut record) = self.records.remove(&key) {
            record.last_responded = last_responded;
            self.records.insert(key, record);
        }
        assert(self@.entries =~= old(self)@.with_last_responded(key, last_responded).entries);
    }

    pub(crate) fn set_stats(&mut self, key: u64, stats: PeerStats)
        requires
            old(self)@.holds(key),
        ensures
            final(self)@ == old(self)@.with_stats(key, stats),
    {
        if let Some(mut record) = self.records.remove(&key) {
            record.stats = stats;
            self.records.insert(key, record);
        }
        assert(self@.entries =~= old(self)@.with_stats(key, stats).entries);
    }
}

/// Writing to a record keeps every record in its place and leaves the others as they are, and
/// a new record is nobody else's.
pub proof fn records_are_kept_apart(
    records: RecordsView,
    key: u64,
    other: u64,
    record: RecordView,
)
    requires
        records.wf(),
        records.has_room(),
    ensures
        records.holds(key) ==> records.updated(key, record).wf(),
        records.opened(record).wf(),
        !records.holds(records.next_key),
        records.holds(other) ==> records.updated(key, record).holds(other),
        records.holds(other) ==> records.opened(record).holds(other),
        records.holds(other) ==> records.opened(record).entries[other] == records.entries[other],
        other != key ==> records.updated(key, record).entries[other] == records.entries[other],
        other != key ==> records.released(key).entries[other] == records.entries[other],
{
}

/// Writing one thing to a record leaves the rest of it, and every other record, as it was. Counting
/// a request writes the statistics alone. A new record lies under a key that was never used, and a
/// released one is gone.
pub proof fn writing_changes_one_thing(
    records: RecordsView,
    key: u64,
    nick: Seq<char>,
    last_responded: Nanos,
    stats: PeerStats,
    record: RecordView,
)
    ensures
        records.with_nick(key, nick).entries == records.entries.insert(
            key,
            RecordView {
                nick,
                last_responded: records.entries[key].last_responded,
                stats: records.entries[key].stats,
            },
        ),
        records.with_nick(key, nick).next_key == records.next_key,
        records.with_last_responded(key, last_responded).entries == records.entries.insert(
            key,
            RecordView {
                nick: records.entries[key].nick,
                last_responded,
                stats: records.entries[key].stats,
            },
        ),
        records.with_last_responded(key, last_responded).next_key == records.next_key,
        records.with_stats(key, stats).entries == records.entries.insert(
            key,
            RecordView {
                nick: records.entries[key].nick,
                last_responded: records.entries[key].last_responded,
                stats,
            },
        ),
        records.with_stats(key, stats).next_key == records.next_key,
        records.has_room() <==> records.next_key < u64::MAX,
        records.has_room() ==> records.opened(record).entries == records.entries.insert(
            records.next_key,
            record,
        ),
        records.has_room() ==> records.opened(record).next_key == records.next_key + 1,
        records.released(key).entries == records.entries.remove(key),
        records.released(key).next_key == records.next_key,
        records.holds(key) <==> records.entries.contains_key(key),
        records.wf() <==> forall|k: u64| #[trigger]
            records.entries.contains_key(k) ==> k < records.next_key,
        RecordsView::empty().entries == Map::<u64, RecordView>::empty(),
        RecordsView::empty().next_key == 0,
{
}

/// Counting a request to a peer adds one to its total and one to the side that the request belongs
/// to, takes over the smoothed response time, and changes nothing else of any record.
pub proof fn one_request_is_counted(
    records: RecordsView,
    key: u64,
    success: bool,
    avg_response_time_ms_bits: u64,
    other: u64,
)
    requires
        records.entries.contains_key(key),
        records.entries[key].stats.total_requests < u64::MAX,
        records.entries[key].stats.successful_requests < u64::MAX,
        records.entries[key].stats.failed_requests < u64::MAX,
    ensures
        ({
            let before = records.entries[key];
            let after = records.recorded(key, success, avg_response_time_ms_bits);
            &&& after.entries[key].nick == before.nick
            &&& after.entries[key].last_responded == before.last_responded
            &&& after.entries[key].stats.total_requests == before.stats.total_requests + 1
            &&& after.entries[key].stats.successful_requests == before.stats.successful_requests
                + if success {
                1int
            } else {
                0int
            }
            &&& after.entries[key].stats.failed_requests == before.stats.failed_requests
                + if success {
                0int
            } else {
                1int
            }
            &&& after.entries[key].stats.avg_response_time_ms_bits == avg_response_time_ms_bits
            &&& after.entries[key].stats.last_seen == before.stats.last_seen
            &&& after.entries[key].stats.uptime_percentage_bits
                == before.stats.uptime_percentage_bits
            &&& after.next_key == records.next_key
            &&& after.entries.dom() == records.entries.dom()
            &&& other != key ==> after.entries[other] == records.entries[other]
        }),
{
    assert(records.recorded(key, success, avg_response_time_ms_bits).entries.dom()
        =~= records.entries.dom());
}

/// How many of the requests succeeded.
pub open spec fn successes(requests: Seq<(bool, u64)>) -> int
    decreases requests.len(),
{
    if requests.len() == 0 {
        0
    } else {
        successes(requests.drop_last()) + if requests.last().0 {
            1int
        } else {
            0int
        }
    }
}

/// However long a run of requests to a peer is, and whichever of its workers served them, its
/// totals count every one of them: nothing is lost and nothing is counted twice. The records of
/// other peers stay as they are.
pub proof fn totals_count_every_request(
    records: RecordsView,
    key: u64,
    requests: Seq<(bool, u64)>,
    other: u64,
)
    requires
        records.holds(key),
        records.entries[key].stats.total_requests + requests.len() <= u64::MAX,
        records.entries[key].stats.successful_requests + successes(requests) <= u64::MAX,
        records.entries[key].stats.failed_requests + requests.len() - successes(requests)
            <= u64::MAX,
    ensures
        ({
            let before = records.entries[key];
            let after = records.all_recorded(key, requests).entries[key];
            &&& after.stats.total_requests == before.stats.total_requests + requests.len()
            &&& after.stats.successful_requests == before.stats.successful_requests + successes(
                requests,
            )
            &&& after.stats.failed_requests == before.stats.failed_requests + requests.len()
                - successes(requests)
            &&& requests.len() > 0 ==> after.stats.avg_response_time_ms_bits == requests.last().1
            &&& after.stats.last_seen == before.stats.last_seen
            &&& after.stats.uptime_percentage_bits == before.stats.uptime_percentage_bits
            &&& after.nick == before.nick
            &&& after.last_responded == before.last_responded
        }),
        records.all_recorded(key, requests).holds(key),
        other != key ==> records.all_recorded(key, requests).entries[other]
            == records.entries[other],
        0 <= successes(requests) <= requests.len(),
    decreases requests.len(),
{
    if requests.len() > 0 {
        lemma_successes_bounded(requests.drop_last());
        totals_count_every_request(records, key, requests.drop_last(), other);
    }
}

proof fn lemma_successes_bounded(requests: Seq<(bool, u64)>)
    ensures
        0 <= successes(requests) <= requests.len(),
    decreases requests.len(),
{
    if requests.len() > 0 {
        lemma_successes_bounded(requests.drop_last());
    }
}

} // verus!
