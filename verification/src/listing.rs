//! What is made of a list of peers, once a walk over the table has put them in some order.
//!
//! The order of the walk is the table's. Everything after it is exact: these functions take the
//! list as it came, and keep to its order.

use vstd::prelude::*;

use crate::peer::{AsyncPeer, PeerStats};
use crate::records::PeerRecords;
use crate::selection::{best_peers, select_candidate, Candidate, LoadBalancingStrategy};

verus! {

/// The entries of a list whose peers are connected, in the order of the list.
pub open spec fn connected_in(listed: Seq<(String, AsyncPeer)>) -> Seq<(String, AsyncPeer)> {
    listed.filter(|entry: (String, AsyncPeer)| entry.1@.connected)
}

/// Whether the connected peers of a list have records.
pub open spec fn has_records(
    listed: Seq<(String, AsyncPeer)>,
    records: crate::records::RecordsView,
) -> bool {
    forall|i: int|
        0 <= i < listed.len() && (#[trigger] listed[i]).1@.connected ==> records.holds(
            listed[i].1@.record,
        )
}

/// Whether `candidates` are the peers of `entries`, in the same order. Where scores count, each
/// has the rank that `rank` gives it.
pub open spec fn candidates_are<F: Fn(&AsyncPeer, PeerStats) -> Option<i64>>(
    entries: Seq<(String, AsyncPeer)>,
    strategy: LoadBalancingStrategy,
    records: crate::records::RecordsView,
    rank: F,
    candidates: Seq<Candidate>,
) -> bool {
    &&& candidates.len() == entries.len()
    &&& forall|i: int|
        0 <= i < entries.len() ==> (#[trigger] candidates[i]).id@ == entries[i].1@.id
            && if strategy is ScoreBased {
            rank.ensures(
                (&entries[i].1, entries[i].1@.shared(records).stats),
                candidates[i].rank,
            )
        } else {
            candidates[i].rank is None
        }
}

/// Whether `strategy` may choose `chosen` among the connected peers of a list, taken in its order,
/// when it is the turn number `turn`.
pub open spec fn may_select_among<F: Fn(&AsyncPeer, PeerStats) -> Option<i64>>(
    listed: Seq<(String, AsyncPeer)>,
    strategy: LoadBalancingStrategy,
    records: crate::records::RecordsView,
    rank: F,
    turn: u32,
    chosen: Option<Seq<char>>,
) -> bool {
    exists|candidates: Seq<Candidate>| #[trigger]
        candidates_are(connected_in(listed), strategy, records, rank, candidates)
            && crate::selection::may_choose(strategy, candidates, turn, chosen)
}

/// Whether `ranked` are the peers of `entries`, in the same order, each with the rank that `rank`
/// gives it.
pub open spec fn ranked_are<F: Fn(&AsyncPeer, PeerStats) -> i64>(
    entries: Seq<(String, AsyncPeer)>,
    records: crate::records::RecordsView,
    rank: F,
    ranked: Seq<(AsyncPeer, i64)>,
) -> bool {
    &&& ranked.len() == entries.len()
    &&& forall|i: int|
        0 <= i < entries.len() ==> (#[trigger] ranked[i]).0@ == entries[i].1@ && rank.ensures(
            (&entries[i].1, entries[i].1@.shared(records).stats),
            ranked[i].1,
        )
}

/// Whether `best` are the `count` connected peers of a list with the highest ranks, the best
/// first, those of equal rank in the order of the list.
pub open spec fn is_best_among<F: Fn(&AsyncPeer, PeerStats) -> i64>(
    listed: Seq<(String, AsyncPeer)>,
    records: crate::records::RecordsView,
    rank: F,
    count: usize,
    best: Seq<AsyncPeer>,
) -> bool {
    &&& best.len() == if count < connected_in(listed).len() {
        count as nat
    } else {
        connected_in(listed).len()
    }
    &&& exists|ranked: Seq<(AsyncPeer, i64)>, order: Seq<int>|
        #![trigger ranked_are(connected_in(listed), records, rank, ranked), order.len()]
        ranked_are(connected_in(listed), records, rank, ranked) && crate::selection::is_ranking(
            crate::selection::ranks_of(ranked),
            order,
        ) && forall|k: int| 0 <= k < best.len() ==> (#[trigger] best[k])@ == ranked[order[k]].0@
}

/// How many peers of a list are connected.
pub fn count_connected(listed: &Vec<(String, AsyncPeer)>) -> (count: usize)
    ensures
        count == connected_in(listed@).len(),
{
    let mut count: usize = 0;
    let mut k: usize = 0;
    proof {
        lemma_connected_none();
        assert(listed@.take(0) =~= Seq::empty());
    }
    while k < listed.len()
        invariant
            k <= listed@.len(),
            count == connected_in(listed@.take(k as int)).len(),
            count <= k,
        decreases listed@.len() - k,
    {
        proof {
            lemma_connected_step(listed@, k as int);
        }
        if listed[k].1.is_connected() {
            count += 1;
        }
        k += 1;
    }
    assert(listed@.take(k as int) =~= listed@);
    count
}

/// The connected peers of a list as candidates, in the order of the list.
pub fn rank_candidates<F: Fn(&AsyncPeer, PeerStats) -> Option<i64>>(
    listed: &Vec<(String, AsyncPeer)>,
    strategy: LoadBalancingStrategy,
    records: &PeerRecords,
    rank: F,
) -> (candidates: Vec<Candidate>)
    requires
        has_records(listed@, records@),
        forall|peer: &AsyncPeer, stats: PeerStats| rank.requires((peer, stats)),
    ensures
        candidates_are(connected_in(listed@), strategy, records@, rank, candidates@),
{
    let by_score: bool = match strategy {
        LoadBalancingStrategy::ScoreBased => true,
        _ => false,
    };
    let mut candidates: Vec<Candidate> = Vec::new();
    let mut k: usize = 0;
    proof {
        lemma_connected_none();
        assert(listed@.take(0) =~= Seq::empty());
    }
    while k < listed.len()
        invariant
            k <= listed@.len(),
            by_score == (strategy is ScoreBased),
            has_records(listed@, records@),
            forall|peer: &AsyncPeer, stats: PeerStats| rank.requires((peer, stats)),
            candidates_are(
                connected_in(listed@.take(k as int)),
                strategy,
                records@,
                rank,
                candidates@,
            ),
        decreases listed@.len() - k,
    {
        proof {
            lemma_connected_step(listed@, k as int);
        }
        let peer = &listed[k].1;
        if peer.is_connected() {
            let score: Option<i64> = if by_score {
                rank(peer, peer.get_stats(records))
            } else {
                None
            };
            candidates.push(Candidate { id: peer.get_id().to_owned(), rank: score });
        }
        k += 1;
    }
    assert(listed@.take(k as int) =~= listed@);
    candidates
}

/// Chooses one of the connected peers of a list, and counts the turn if one was taken.
pub fn select_among<F: Fn(&AsyncPeer, PeerStats) -> Option<i64>>(
    listed: &Vec<(String, AsyncPeer)>,
    strategy: LoadBalancingStrategy,
    records: &PeerRecords,
    rank: F,
    turn: &mut u32,
) -> (chosen: Option<String>)
    requires
        has_records(listed@, records@),
        forall|peer: &AsyncPeer, stats: PeerStats| rank.requires((peer, stats)),
    ensures
        may_select_among(
            listed@,
            strategy,
            records@,
            rank,
            *old(turn),
            crate::packet::name_view(chosen),
        ),
        *final(turn) == crate::selection::next_turn(
            strategy,
            connected_in(listed@).len(),
            *old(turn),
        ),
{
    let candidates = rank_candidates(listed, strategy, records, rank);
    select_candidate(strategy, candidates, turn)
}

/// The `count` connected peers of a list with the highest ranks, the best first.
pub fn best_among<F: Fn(&AsyncPeer, PeerStats) -> i64>(
    listed: &Vec<(String, AsyncPeer)>,
    records: &PeerRecords,
    rank: F,
    count: usize,
) -> (best: Vec<AsyncPeer>)
    requires
        has_records(listed@, records@),
        forall|peer: &AsyncPeer, stats: PeerStats| rank.requires((peer, stats)),
    ensures
        is_best_among(listed@, records@, rank, count, best@),
{
    let mut ranked: Vec<(AsyncPeer, i64)> = Vec::new();
    let mut k: usize = 0;
    proof {
        lemma_connected_none();
        assert(listed@.take(0) =~= Seq::empty());
    }
    while k < listed.len()
        invariant
            k <= listed@.len(),
            has_records(listed@, records@),
            forall|peer: &AsyncPeer, stats: PeerStats| rank.requires((peer, stats)),
            ranked_are(connected_in(listed@.take(k as int)), records@, rank, ranked@),
        decreases listed@.len() - k,
    {
        proof {
            lemma_connected_step(listed@, k as int);
        }
        let peer = &listed[k].1;
        if peer.is_connected() {
            let score: i64 = rank(peer, peer.get_stats(records));
            ranked.push((peer.clone(), score));
        }
        k += 1;
    }
    assert(listed@.take(k as int) =~= listed@);
    let ghost all = ranked@;
    let best = best_peers(ranked, count);
    proof {
        let order = choose|order: Seq<int>| #[trigger]
            crate::selection::is_ranking(crate::selection::ranks_of(all), order) && forall|k: int|
                0 <= k < best@.len() ==> (#[trigger] best@[k])@ == all[order[k]].0@;
        assert(ranked_are(connected_in(listed@), records@, rank, all));
        assert(order.len() == all.len());
    }
    best
}

proof fn lemma_connected_none()
    ensures
        connected_in(Seq::empty()).len() == 0,
{
    reveal(Seq::filter);
}

/// One more entry is one more connected peer at the end, or none.
proof fn lemma_connected_step(listed: Seq<(String, AsyncPeer)>, k: int)
    requires
        0 <= k < listed.len(),
    ensures
        connected_in(listed.take(k + 1)) == if listed[k].1@.connected {
            connected_in(listed.take(k)).push(listed[k])
        } else {
            connected_in(listed.take(k))
        },
{
    reveal(Seq::filter);
    assert(listed.take(k + 1).drop_last() =~= listed.take(k));
}

/// The connected entries of a list are entries of it whose peers are connected, all of them, and
/// none twice where none is listed twice.
pub(crate) proof fn lemma_connected_in(listed: Seq<(String, AsyncPeer)>)
    requires
        forall|i: int, j: int|
            0 <= i < j < listed.len() ==> (#[trigger] listed[i]).0@ != (#[trigger] listed[j]).0@,
    ensures
        forall|a: int|
            0 <= a < connected_in(listed).len() ==> (#[trigger] connected_in(
                listed,
            )[a]).1@.connected && listed.contains(connected_in(listed)[a]),
        forall|i: int|
            0 <= i < listed.len() && (#[trigger] listed[i]).1@.connected ==> connected_in(
                listed,
            ).contains(listed[i]),
        forall|a: int, b: int|
            0 <= a < b < connected_in(listed).len() ==> (#[trigger] connected_in(listed)[a]).0@
                != (#[trigger] connected_in(listed)[b]).0@,
    decreases listed.len(),
{
    let keep = |entry: (String, AsyncPeer)| entry.1@.connected;
    assert forall|a: int| 0 <= a < connected_in(listed).len() implies (#[trigger] connected_in(
        listed,
    )[a]).1@.connected && listed.contains(connected_in(listed)[a]) by {
        listed.lemma_filter_pred(keep, a);
        assert(connected_in(listed).contains(connected_in(listed)[a]));
        listed.lemma_filter_contains_rev(keep, connected_in(listed)[a]);
    }
    assert forall|i: int|
        0 <= i < listed.len() && (#[trigger] listed[i]).1@.connected implies connected_in(
        listed,
    ).contains(listed[i]) by {
        listed.lemma_filter_contains(keep, i);
    }
    if listed.len() > 0 {
        let k = listed.len() - 1;
        let before = listed.take(k);
        lemma_connected_step(listed, k);
        assert(listed.take(k + 1) =~= listed);
        assert forall|i: int, j: int| 0 <= i < j < before.len() implies (#[trigger] before[i]).0@
            != (#[trigger] before[j]).0@ by {
            assert(listed[i].0@ != listed[j].0@);
        }
        lemma_connected_in(before);
        assert forall|a: int, b: int| 0 <= a < b < connected_in(listed).len() implies (
        #[trigger] connected_in(listed)[a]).0@ != (#[trigger] connected_in(listed)[b]).0@ by {
            let earlier = connected_in(before);
            if b < earlier.len() {
                assert(earlier[a].0@ != earlier[b].0@);
            } else {
                assert(before.contains(earlier[a]));
                let i = choose|i: int| 0 <= i < before.len() && before[i] == earlier[a];
                assert(listed[i].0@ != listed[k].0@);
            }
        }
    } else {
        lemma_connected_none();
        assert(listed =~= Seq::empty());
    }
}

/// Taking turns over a list is decided by the list and the number of the turn alone.
pub proof fn round_robin_follows_the_list<F: Fn(&AsyncPeer, PeerStats) -> Option<i64>>(
    listed: Seq<(String, AsyncPeer)>,
    records: crate::records::RecordsView,
    rank: F,
    turn: u32,
    chosen: Option<Seq<char>>,
)
    requires
        connected_in(listed).len() > 0,
        forall|i: int| 0 <= i < listed.len() ==> (#[trigger] listed[i]).0@ == listed[i].1@.id,
    ensures
        may_select_among(
            listed,
            LoadBalancingStrategy::RoundRobin,
            records,
            rank,
            turn,
            chosen,
        ) <==> chosen == Some(
            connected_in(listed)[turn as int % connected_in(listed).len() as int].1@.id,
        ),
{
    let strategy = LoadBalancingStrategy::RoundRobin;
    let entries = connected_in(listed);
    let n = entries.len() as int;
    let at = turn as int % n;
    vstd::arithmetic::div_mod::lemma_mod_bound(turn as int, n);
    if may_select_among(listed, strategy, records, rank, turn, chosen) {
        let candidates = choose|candidates: Seq<Candidate>| #[trigger]
            candidates_are(entries, strategy, records, rank, candidates)
                && crate::selection::may_choose(strategy, candidates, turn, chosen);
        assert(candidates[at].id@ == entries[at].1@.id);
    }
    if chosen == Some(entries[at].1@.id) {
        let candidates = entries.map_values(
            |entry: (String, AsyncPeer)| Candidate { id: entry.0, rank: None },
        );
        assert forall|i: int| 0 <= i < entries.len() implies (#[trigger] candidates[i]).id@
            == entries[i].1@.id by {
            let keep = |entry: (String, AsyncPeer)| entry.1@.connected;
            assert(entries.contains(entries[i]));
            listed.lemma_filter_contains_rev(keep, entries[i]);
            let j = choose|j: int| 0 <= j < listed.len() && listed[j] == entries[i];
            assert(listed[j].0@ == listed[j].1@.id);
        }
        assert(candidates_are(entries, strategy, records, rank, candidates));
        assert(crate::selection::may_choose(strategy, candidates, turn, chosen));
    }
}

/// The connected entries of a list are those whose peers are connected, all of them and no others,
/// in the order of the list. Returns the places at which they stand.
pub proof fn connected_entries_keep_their_order(listed: Seq<(String, AsyncPeer)>) -> (from: Seq<
    int,
>)
    ensures
        from.len() == connected_in(listed).len(),
        forall|k: int|
            #![trigger from[k]]
            0 <= k < from.len() ==> 0 <= from[k] < listed.len() && connected_in(listed)[k]
                == listed[from[k]],
        forall|k: int, l: int| 0 <= k < l < from.len() ==> #[trigger] from[k] < #[trigger] from[l],
        forall|i: int|
            0 <= i < listed.len() ==> (from.contains(i) <==> (#[trigger] listed[i]).1@.connected),
{
    crate::order::lemma_filter_places(
        listed,
        |entry: (String, AsyncPeer)| entry.1@.connected,
    )
}

/// Whatever is chosen from a list is chosen among candidates that are its connected entries, one
/// for one and in their order, each under the id of its peer and, where scores count, with the
/// rank that its peer and that peer's statistics are given. Returns those candidates.
pub proof fn choices_rest_on_the_list<F: Fn(&AsyncPeer, PeerStats) -> Option<i64>>(
    listed: Seq<(String, AsyncPeer)>,
    strategy: LoadBalancingStrategy,
    records: crate::records::RecordsView,
    rank: F,
    turn: u32,
    chosen: Option<Seq<char>>,
) -> (candidates: Seq<Candidate>)
    requires
        may_select_among(listed, strategy, records, rank, turn, chosen),
    ensures
        crate::selection::may_choose(strategy, candidates, turn, chosen),
        candidates.len() == connected_in(listed).len(),
        forall|i: int|
            0 <= i < candidates.len() ==> (#[trigger] candidates[i]).id@ == connected_in(
                listed,
            )[i].1@.id,
        strategy is ScoreBased ==> forall|i: int|
            0 <= i < candidates.len() ==> rank.ensures(
                (
                    &connected_in(listed)[i].1,
                    records.entries[connected_in(listed)[i].1@.record].stats,
                ),
                (#[trigger] candidates[i]).rank,
            ),
{
    choose|candidates: Seq<Candidate>| #[trigger]
        candidates_are(connected_in(listed), strategy, records, rank, candidates)
            && crate::selection::may_choose(strategy, candidates, turn, chosen)
}

/// The best of a list are as many as were asked for, or all that are connected; each is one of the
/// connected entries, none is listed twice, none that is left out has a higher rank than one that
/// is listed, and the ranks never go up. Returns the ranks of the connected entries and the places
/// of the best among them.
pub proof fn best_of_a_list_are_the_best<F: Fn(&AsyncPeer, PeerStats) -> i64>(
    listed: Seq<(String, AsyncPeer)>,
    records: crate::records::RecordsView,
    rank: F,
    count: usize,
    best: Seq<AsyncPeer>,
) -> (found: (Seq<i64>, Seq<int>))
    requires
        is_best_among(listed, records, rank, count, best),
    ensures
        best.len() <= count,
        best.len() <= connected_in(listed).len(),
        best.len() == count || best.len() == connected_in(listed).len(),
        found.0.len() == connected_in(listed).len(),
        found.1.len() == best.len(),
        forall|i: int|
            0 <= i < found.0.len() ==> rank.ensures(
                (
                    &connected_in(listed)[i].1,
                    records.entries[connected_in(listed)[i].1@.record].stats,
                ),
                #[trigger] found.0[i],
            ),
        forall|k: int|
            #![trigger found.1[k]]
            0 <= k < best.len() ==> 0 <= found.1[k] < connected_in(listed).len() && best[k]@
                == connected_in(listed)[found.1[k]].1@,
        forall|k: int, l: int|
            0 <= k < l < best.len() ==> #[trigger] found.1[k] != #[trigger] found.1[l]
                && found.0[found.1[k]] >= found.0[found.1[l]],
        forall|k: int, i: int|
            0 <= k < best.len() && 0 <= i < found.0.len() && !found.1.contains(i)
                ==> found.0[#[trigger] found.1[k]] >= #[trigger] found.0[i],
{
    let entries = connected_in(listed);
    let (ranked, order) = choose|ranked: Seq<(AsyncPeer, i64)>, order: Seq<int>|
        #![trigger ranked_are(connected_in(listed), records, rank, ranked), order.len()]
        ranked_are(connected_in(listed), records, rank, ranked) && crate::selection::is_ranking(
            crate::selection::ranks_of(ranked),
            order,
        ) && forall|k: int| 0 <= k < best.len() ==> (#[trigger] best[k])@ == ranked[order[k]].0@;
    let ranks = crate::selection::ranks_of(ranked);
    let places = order.take(best.len() as int);
    assert forall|i: int| 0 <= i < ranks.len() implies rank.ensures(
        (&entries[i].1, records.entries[entries[i].1@.record].stats),
        #[trigger] ranks[i],
    ) by {
        assert(ranks[i] == ranked[i].1);
    }
    assert forall|k: int| #![trigger places[k]] 0 <= k < best.len() implies 0 <= places[k]
        < entries.len() && best[k]@ == entries[places[k]].1@ by {
        crate::selection::rankings_go_down(ranked, order, k, k, 0);
        assert(best[k]@ == ranked[order[k]].0@);
        assert(ranked[order[k]].0@ == entries[order[k]].1@);
    }
    assert forall|k: int, l: int| 0 <= k < l < best.len() implies #[trigger] places[k]
        != #[trigger] places[l] && ranks[places[k]] >= ranks[places[l]] by {
        crate::selection::rankings_go_down(ranked, order, k, l, 0);
        crate::selection::rankings_go_down(ranked, order, l, l, 0);
    }
    assert forall|k: int, i: int|
        0 <= k < best.len() && 0 <= i < ranks.len() && !places.contains(i) implies
        ranks[#[trigger] places[k]] >= #[trigger] ranks[i] by {
        crate::selection::rankings_go_down(ranked, order, k, k, i);
        let at = choose|at: int| 0 <= at < order.len() && order[at] == i;
        if at < best.len() {
            assert(places[at] == i);
        }
        crate::selection::rankings_go_down(ranked, order, k, at, i);
    }
    (ranks, places)
}

} // verus!
