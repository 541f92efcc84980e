//! Choosing the peer that serves a request.

use vstd::prelude::*;

use crate::peer::AsyncPeer;
use crate::random::choose_candidate;

verus! {

/// How the peer that serves a request is chosen among those that are connected.
#[derive(Debug, Clone, Copy, PartialEq, Eq, Structural)]
pub enum LoadBalancingStrategy {
    /// One after the other.
    RoundRobin,
    /// Any.
    Random,
    /// Any: connections are not counted by peer.
    LeastConnections,
    /// The one with the highest score, if that is above zero.
    ScoreBased,
}

/// A connected peer that may be chosen.
#[derive(Debug)]
pub struct Candidate {
    pub id: String,
    /// The peer's score as an integer that orders as the score does, with zero for a score of
    /// zero; absent for a score that is not a number.
    pub rank: Option<i64>,
}

/// Whether a candidate has a score above zero.
pub open spec fn eligible(candidate: Candidate) -> bool {
    candidate.rank matches Some(rank) && rank > 0
}

/// Whether `i` is where the candidate with the highest score stands, the first one if there are
/// several, and that score is above zero.
pub open spec fn best_at(candidates: Seq<Candidate>, i: int) -> bool {
    &&& 0 <= i < candidates.len()
    &&& eligible(candidates[i])
    &&& forall|j: int|
        0 <= j < candidates.len() && (#[trigger] candidates[j]).rank is Some
            ==> candidates[j].rank->0 <= candidates[i].rank->0
    &&& forall|j: int|
        0 <= j < i && (#[trigger] candidates[j]).rank is Some ==> candidates[j].rank->0
            < candidates[i].rank->0
}

/// Whether `strategy` may choose `chosen` among `candidates` when it is the turn number `turn`.
/// Only the strategies that draw at random leave a choice.
pub open spec fn may_choose(
    strategy: LoadBalancingStrategy,
    candidates: Seq<Candidate>,
    turn: u32,
    chosen: Option<Seq<char>>,
) -> bool {
    if candidates.len() == 0 {
        chosen is None
    } else {
        match strategy {
            LoadBalancingStrategy::RoundRobin => chosen == Some(
                candidates[turn as int % candidates.len() as int].id@,
            ),
            LoadBalancingStrategy::Random | LoadBalancingStrategy::LeastConnections => {
                exists|i: int|
                    0 <= i < candidates.len() && chosen == Some((#[trigger] candidates[i]).id@)
            },
            LoadBalancingStrategy::ScoreBased => match chosen {
                Some(id) => exists|i: int| #[trigger]
                    best_at(candidates, i) && id == candidates[i].id@,
                None => forall|j: int|
                    0 <= j < candidates.len() ==> !eligible(#[trigger] candidates[j]),
            },
        }
    }
}

/// The number of the next turn. Turns are counted only where they are taken.
pub open spec fn next_turn(strategy: LoadBalancingStrategy, candidates: nat, turn: u32) -> u32 {
    if strategy is RoundRobin && candidates > 0 {
        turn.wrapping_add(1)
    } else {
        turn
    }
}

/// Chooses one of `candidates`, and counts the turn if one was taken.
pub fn select_candidate(
    strategy: LoadBalancingStrategy,
    candidates: Vec<Candidate>,
    turn: &mut u32,
) -> (chosen: Option<String>)
    ensures
        may_choose(strategy, candidates@, *old(turn), crate::packet::name_view(chosen)),
        *final(turn) == next_turn(strategy, candidates@.len(), *old(turn)),
{
    if candidates.len() == 0 {
        return None;
    }
    match strategy {
        LoadBalancingStrategy::RoundRobin => {
            let index: usize = *turn as usize % candidates.len();
            *turn = turn.wrapping_add(1);
            Some(candidates[index].id.clone())
        },
        LoadBalancingStrategy::Random | LoadBalancingStrategy::LeastConnections => {
            match choose_candidate(candidates) {
                Some(candidate) => Some(candidate.id),
                None => None,
            }
        },
        LoadBalancingStrategy::ScoreBased => select_best(&candidates),
    }
}

/// The id of the candidate with the highest score, if that is above zero.
pub fn select_best(candidates: &Vec<Candidate>) -> (best: Option<String>)
    ensures
        match best {
            Some(id) => exists|i: int| #[trigger]
                best_at(candidates@, i) && id@ == candidates@[i].id@,
            None => forall|j: int|
                0 <= j < candidates@.len() ==> !eligible(#[trigger] candidates@[j]),
        },
{
    let mut best: Option<usize> = None;
    let mut best_rank: i64 = 0;
    let mut i: usize = 0;
    while i < candidates.len()
        invariant
            i <= candidates@.len(),
            match best {
                Some(at) => at < i && best_at(candidates@.take(i as int), at as int) && best_rank
                    == candidates@[at as int].rank->0,
                None => best_rank == 0 && forall|j: int|
                    0 <= j < i ==> !eligible(#[trigger] candidates@[j]),
            },
        decreases candidates@.len() - i,
    {
        let ghost seen = candidates@.take(i as int);
        let ghost more = candidates@.take(i + 1);
        let ghost earlier = best;
        let better: bool = match candidates[i].rank {
            Some(rank) => rank > best_rank,
            None => false,
        };
        assert(forall|j: int| 0 <= j < i ==> #[trigger] more[j] == seen[j] && more[j]
            == candidates@[j]);
        assert(more[i as int] == candidates@[i as int]);
        if better {
            if let Some(rank) = candidates[i].rank {
                best_rank = rank;
                best = Some(i);
            }
            assert(forall|j: int|
                0 <= j < i && (#[trigger] more[j]).rank is Some ==> earlier is None ==> !eligible(
                    candidates@[j],
                ));
            assert(best_at(more, i as int));
        } else if let Some(at) = best {
            assert(more[at as int] == seen[at as int]);
            assert(best_at(more, at as int));
        }
        i += 1;
    }
    assert(candidates@.take(i as int) =~= candidates@);
    match best {
        Some(at) => Some(candidates[at].id.clone()),
        None => None,
    }
}

/// Whether the peer at `i` is to be listed before the one at `j`: it has the higher rank, or the
/// same rank and comes first.
pub open spec fn ahead(ranks: Seq<i64>, i: int, j: int) -> bool {
    ranks[i] > ranks[j] || (ranks[i] == ranks[j] && i < j)
}

/// Whether `order` lists all places of `ranks`, from the best to the worst.
pub open spec fn is_ranking(ranks: Seq<i64>, order: Seq<int>) -> bool {
    &&& order.len() == ranks.len()
    &&& forall|a: int| 0 <= a < order.len() ==> 0 <= #[trigger] order[a] < ranks.len()
    &&& forall|a: int, b: int|
        0 <= a < b < order.len() ==> ahead(ranks, #[trigger] order[a], #[trigger] order[b])
}

/// The ranks of peers that are listed with them.
pub open spec fn ranks_of(ranked: Seq<(AsyncPeer, i64)>) -> Seq<i64> {
    ranked.map_values(|entry: (AsyncPeer, i64)| entry.1)
}

/// The `count` peers with the highest ranks, the best first; peers of equal rank stay in their
/// order.
pub fn best_peers(ranked: Vec<(AsyncPeer, i64)>, count: usize) -> (best: Vec<AsyncPeer>)
    ensures
        best@.len() == if count < ranked@.len() {
            count as nat
        } else {
            ranked@.len()
        },
        exists|order: Seq<int>| #[trigger]
            is_ranking(ranks_of(ranked@), order) && forall|k: int|
                0 <= k < best@.len() ==> (#[trigger] best@[k])@ == ranked@[order[k]].0@,
{
    let ghost all = ranked@;
    let ghost ranks = ranks_of(all);
    let mut rest = ranked;
    let mut sorted: Vec<(AsyncPeer, i64)> = Vec::new();
    let ghost mut order: Seq<int> = Seq::empty();
    while rest.len() > 0
        invariant
            rest@.len() + order.len() == all.len(),
            rest@ == all.take(rest@.len() as int),
            sorted@.len() == order.len(),
            ranks == ranks_of(all),
            forall|a: int|
                #![trigger order[a]]
                0 <= a < order.len() ==> rest@.len() <= order[a] < all.len() && sorted@[a]
                    == all[order[a]],
            forall|a: int, b: int|
                0 <= a < b < order.len() ==> ahead(ranks, #[trigger] order[a], #[trigger] order[b]),
        decreases rest@.len(),
    {
        let ghost at = rest@.len() - 1;
        if let Some(entry) = rest.pop() {
            assert(entry == all[at]);
            assert(rest@ =~= all.take(at));
            let mut p: usize = 0;
            while p < sorted.len() && sorted[p].1 > entry.1
                invariant
                    p <= sorted@.len(),
                    forall|a: int| 0 <= a < p ==> (#[trigger] sorted@[a]).1 > entry.1,
                decreases sorted@.len() - p,
            {
                p += 1;
            }
            let ghost before = order;
            let ghost listed = sorted@;
            sorted.insert(p, entry);
            proof {
                order = before.insert(p as int, at);
                assert forall|a: int| #![trigger order[a]] 0 <= a < order.len() implies at
                    <= order[a] < all.len() && sorted@[a] == all[order[a]] by {
                    if a < p {
                        assert(order[a] == before[a]);
                    } else if a > p {
                        assert(order[a] == before[a - 1]);
                        assert(sorted@[a] == listed[a - 1]);
                    }
                }
                assert forall|a: int, b: int| 0 <= a < b < order.len() implies ahead(
                    ranks,
                    #[trigger] order[a],
                    #[trigger] order[b],
                ) by {
                    let x = if a < p { before[a] } else { before[a - 1] };
                    let y = if b < p { before[b] } else { before[b - 1] };
                    if a < p && b == p {
                        assert(listed[a].1 > entry.1);
                        assert(listed[a] == all[before[a]]);
                    } else if a == p {
                        assert(listed[p as int] == all[before[p as int]]);
                        assert(ranks[before[p as int]] <= entry.1);
                        if b - 1 > p {
                            assert(ahead(ranks, before[p as int], before[b - 1]));
                        }
                        assert(before[b - 1] >= at);
                    } else {
                        assert(ahead(ranks, x, y));
                    }
                }
            }
        }
    }
    assert(is_ranking(ranks, order));
    let mut best: Vec<AsyncPeer> = Vec::new();
    let mut k: usize = 0;
    while k < sorted.len() && k < count
        invariant
            k <= sorted@.len() == all.len(),
            k <= count,
            best@.len() == k,
            order.len() == all.len(),
            forall|a: int| 0 <= a < order.len() ==> sorted@[a] == all[#[trigger] order[a]],
            forall|a: int| 0 <= a < k ==> (#[trigger] best@[a])@ == all[order[a]].0@,
        decreases sorted@.len() - k,
    {
        assert(sorted@[k as int] == all[order[k as int]]);
        best.push(sorted[k].0.clone());
        k += 1;
    }
    best
}

/// The number of the turn after `k` turns were taken, each with as many `candidates`.
pub open spec fn turn_after(candidates: nat, turn: u32, k: nat) -> u32
    decreases k,
{
    if k == 0 {
        turn
    } else {
        next_turn(
            LoadBalancingStrategy::RoundRobin,
            candidates,
            turn_after(candidates, turn, (k - 1) as nat),
        )
    }
}

/// As long as the count of turns does not start over, as many turns in a row as there are
/// candidates give each of them exactly one turn, and the turn after those repeats the first.
pub proof fn round_robin_is_fair(candidates: Seq<Candidate>, turn: u32, i: int)
    requires
        0 <= i < candidates.len(),
        turn + candidates.len() <= u32::MAX + 1,
        forall|a: int, b: int|
            0 <= a < b < candidates.len() ==> (#[trigger] candidates[a]).id@ != (
            #[trigger] candidates[b]).id@,
    ensures
        exists|k: nat|
            k < candidates.len() && #[trigger] may_choose(
                LoadBalancingStrategy::RoundRobin,
                candidates,
                turn_after(candidates.len(), turn, k),
                Some(candidates[i].id@),
            ),
        forall|k: nat, l: nat|
            k < candidates.len() && l < candidates.len() && #[trigger] may_choose(
                LoadBalancingStrategy::RoundRobin,
                candidates,
                turn_after(candidates.len(), turn, k),
                Some(candidates[i].id@),
            ) && #[trigger] may_choose(
                LoadBalancingStrategy::RoundRobin,
                candidates,
                turn_after(candidates.len(), turn, l),
                Some(candidates[i].id@),
            ) ==> k == l,
        turn + candidates.len() <= u32::MAX ==> forall|chosen: Option<Seq<char>>|
            may_choose(LoadBalancingStrategy::RoundRobin, candidates, turn, chosen)
                <==> #[trigger] may_choose(
                LoadBalancingStrategy::RoundRobin,
                candidates,
                turn_after(candidates.len(), turn, candidates.len()),
                chosen,
            ),
{
    let n = candidates.len();
    let m = n as int;
    lemma_one_turn_each(n, turn, i);
    let k = choose|k: int| 0 <= k < n && #[trigger] ((turn + k) % m) == i;
    lemma_turn_after(n, turn, k as nat);
    assert(may_choose(
        LoadBalancingStrategy::RoundRobin,
        candidates,
        turn_after(n, turn, k as nat),
        Some(candidates[i].id@),
    ));
    assert forall|k: nat|
        k < n && #[trigger] may_choose(
            LoadBalancingStrategy::RoundRobin,
            candidates,
            turn_after(n, turn, k),
            Some(candidates[i].id@),
        ) implies (turn + k) % m == i by {
        lemma_turn_after(n, turn, k);
        let at = (turn + k) % m;
        assert(0 <= at < n) by {
            vstd::arithmetic::div_mod::lemma_mod_bound(turn + k, m);
        }
        assert(candidates[at].id@ == candidates[i].id@);
    }
    if turn + n <= u32::MAX {
        lemma_turn_after(n, turn, n);
        vstd::arithmetic::div_mod::lemma_mod_add_multiples_vanish(turn as int, m);
    }
}

pub(crate) proof fn lemma_turn_after(n: nat, turn: u32, k: nat)
    requires
        n > 0,
        turn + k <= u32::MAX,
    ensures
        turn_after(n, turn, k) == turn + k,
    decreases k,
{
    if k > 0 {
        lemma_turn_after(n, turn, (k - 1) as nat);
    }
}

/// Among `n` numbers in a row, exactly one leaves the remainder `i` when divided by `n`.
pub(crate) proof fn lemma_one_turn_each(n: nat, turn: u32, i: int)
    requires
        0 <= i < n,
    ensures
        exists|k: int| 0 <= k < n && #[trigger] ((turn + k) % n as int) == i,
        forall|k: int, l: int|
            0 <= k < n && 0 <= l < n && #[trigger] ((turn + k) % n as int) == i
                && #[trigger] ((turn + l) % n as int) == i ==> k == l,
{
    let m = n as int;
    let r = turn as int % m;
    let q = turn as int / m;
    vstd::arithmetic::div_mod::lemma_fundamental_div_mod(turn as int, m);
    let k = if i >= r {
        i - r
    } else {
        i - r + m
    };
    if i >= r {
        assert(turn + k == m * q + i);
        vstd::arithmetic::div_mod::lemma_mod_multiples_vanish(q, i, m);
        assert(m * q + i == q * m + i) by (nonlinear_arith);
    } else {
        assert(turn + k == m * (q + 1) + i) by (nonlinear_arith)
            requires
                turn == m * q + r,
                k == i - r + m,
        ;
        vstd::arithmetic::div_mod::lemma_mod_multiples_vanish(q + 1, i, m);
    }
    vstd::arithmetic::div_mod::lemma_small_mod(i as nat, n);
    assert((turn + k) % m == i);
    assert forall|k: int, l: int|
        0 <= k < n && 0 <= l < n && #[trigger] ((turn + k) % m) == i && #[trigger] ((turn + l) % m)
            == i implies k == l by {
        let x = turn + k;
        let y = turn + l;
        vstd::arithmetic::div_mod::lemma_fundamental_div_mod(x, m);
        vstd::arithmetic::div_mod::lemma_fundamental_div_mod(y, m);
        let a = x / m;
        let b = y / m;
        assert(x - y == m * (a - b)) by (nonlinear_arith)
            requires
                x == m * a + i,
                y == m * b + i,
        ;
        assert(a == b) by (nonlinear_arith)
            requires
                x - y == m * (a - b),
                -m < x - y < m,
                m > 0,
        ;
        assert(m * (a - b) == 0) by (nonlinear_arith)
            requires
                a == b,
        ;
    }
}

/// Where the scores choose a peer, it is the one that heads the list of the best.
pub proof fn best_peer_heads_the_ranking(candidates: Seq<Candidate>, i: int, order: Seq<int>)
    requires
        best_at(candidates, i),
        forall|j: int| 0 <= j < candidates.len() ==> (#[trigger] candidates[j]).rank is Some,
        is_ranking(candidates.map_values(|c: Candidate| c.rank->0), order),
    ensures
        order[0] == i,
{
    let ranks = candidates.map_values(|c: Candidate| c.rank->0);
    let first = order[0];
    assert(0 <= first < candidates.len());
    assert(candidates[first].rank is Some);
    assert(ranks[first] <= ranks[i]);
    lemma_ranking_lists(ranks, order, i);
    let at = choose|at: int| 0 <= at < order.len() && order[at] == i;
    if at > 0 {
        assert(ahead(ranks, order[0], order[at]));
    }
}

/// A ranking leaves no place out.
proof fn lemma_ranking_lists(ranks: Seq<i64>, order: Seq<int>, i: int)
    requires
        is_ranking(ranks, order),
        0 <= i < ranks.len(),
    ensures
        exists|at: int| 0 <= at < order.len() && order[at] == i,
{
    let n = ranks.len();
    assert(order.no_duplicates()) by {
        assert forall|a: int, b: int|
            0 <= a < order.len() && 0 <= b < order.len() && a != b implies order[a]
            != order[b] by {
            if a < b {
                assert(ahead(ranks, order[a], order[b]));
            } else {
                assert(ahead(ranks, order[b], order[a]));
            }
        }
    }
    let listed = order.to_set();
    order.unique_seq_to_set();
    let all = vstd::set_lib::set_int_range(0, n as int);
    vstd::set_lib::lemma_int_range(0, n as int);
    assert(listed.subset_of(all)) by {
        assert forall|x: int| listed.contains(x) implies all.contains(x) by {
            let a = choose|a: int| 0 <= a < order.len() && order[a] == x;
        }
    }
    vstd::set_lib::lemma_subset_equality(listed, all);
    assert(listed.contains(i));
}

/// What each strategy chooses: nobody among nobody; by turns the candidate whose place is the
/// number of the turn, counted round; at random any candidate; by score the one with the highest
/// score above zero, the first of several, and nobody only where no score is above zero.
pub proof fn strategies_choose_as_they_should(
    candidates: Seq<Candidate>,
    turn: u32,
    chosen: Option<Seq<char>>,
)
    ensures
        forall|strategy: LoadBalancingStrategy|
            candidates.len() == 0 && #[trigger] may_choose(strategy, candidates, turn, chosen)
                ==> chosen is None,
        candidates.len() > 0 && may_choose(
            LoadBalancingStrategy::RoundRobin,
            candidates,
            turn,
            chosen,
        ) ==> chosen == Some(candidates[turn as int % candidates.len() as int].id@),
        candidates.len() > 0 && (may_choose(
            LoadBalancingStrategy::Random,
            candidates,
            turn,
            chosen,
        ) || may_choose(LoadBalancingStrategy::LeastConnections, candidates, turn, chosen))
            ==> exists|i: int|
            0 <= i < candidates.len() && chosen == Some((#[trigger] candidates[i]).id@),
        candidates.len() > 0 && may_choose(
            LoadBalancingStrategy::ScoreBased,
            candidates,
            turn,
            chosen,
        ) ==> match chosen {
            Some(id) => exists|i: int|
                0 <= i < candidates.len() && (#[trigger] candidates[i]).id@ == id
                    && candidates[i].rank is Some && candidates[i].rank->0 > 0 && forall|j: int|
                    0 <= j < candidates.len() && (#[trigger] candidates[j]).rank is Some
                        ==> candidates[j].rank->0 < candidates[i].rank->0 || (
                    candidates[j].rank->0 == candidates[i].rank->0 && i <= j),
            None => forall|j: int|
                0 <= j < candidates.len() && (#[trigger] candidates[j]).rank is Some
                    ==> candidates[j].rank->0 <= 0,
        },
{
    if candidates.len() > 0 && may_choose(
        LoadBalancingStrategy::ScoreBased,
        candidates,
        turn,
        chosen,
    ) {
        if chosen is Some {
            let i = choose|i: int| #[trigger]
                best_at(candidates, i) && chosen->0 == candidates[i].id@;
            assert(candidates[i].id@ == chosen->0);
        } else {
            assert forall|j: int|
                0 <= j < candidates.len() && (#[trigger] candidates[j]).rank is Some implies
                candidates[j].rank->0 <= 0 by {
                assert(!eligible(candidates[j]));
            }
        }
    }
}

/// A turn is counted exactly where turns are taken and somebody can take it.
pub proof fn turns_are_counted_where_they_are_taken(
    strategy: LoadBalancingStrategy,
    candidates: nat,
    turn: u32,
)
    ensures
        strategy is RoundRobin && candidates > 0 && turn < u32::MAX ==> next_turn(
            strategy,
            candidates,
            turn,
        ) == turn + 1,
        strategy is RoundRobin && candidates > 0 && turn == u32::MAX ==> next_turn(
            strategy,
            candidates,
            turn,
        ) == 0,
        !(strategy is RoundRobin) || candidates == 0 ==> next_turn(strategy, candidates, turn)
            == turn,
{
}

/// A ranking lists every place once; ranks never go up along it, and places of equal rank come in
/// their order.
pub proof fn rankings_go_down(
    ranked: Seq<(AsyncPeer, i64)>,
    order: Seq<int>,
    a: int,
    b: int,
    i: int,
)
    requires
        is_ranking(ranks_of(ranked), order),
    ensures
        order.len() == ranked.len(),
        0 <= a < order.len() ==> 0 <= order[a] < ranked.len(),
        0 <= a < b < order.len() ==> order[a] != order[b],
        0 <= a < b < order.len() ==> ranked[order[a]].1 >= ranked[order[b]].1,
        0 <= a < b < order.len() && ranked[order[a]].1 == ranked[order[b]].1 ==> order[a]
            < order[b],
        0 <= i < ranked.len() ==> exists|at: int| 0 <= at < order.len() && order[at] == i,
{
    let ranks = ranks_of(ranked);
    if 0 <= a < b < order.len() {
        assert(ahead(ranks, order[a], order[b]));
        assert(ranks[order[a]] == ranked[order[a]].1);
        assert(ranks[order[b]] == ranked[order[b]].1);
    }
    if 0 <= i < ranked.len() {
        lemma_ranking_lists(ranks, order, i);
    }
}

} // verus!
