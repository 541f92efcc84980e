use rubic_network::addr::SocketAddress;
use rubic_network::listing::{best_among, count_connected, rank_candidates, select_among};
use rubic_network::peer::{AsyncPeer, NewPeer, PeerStats};
use rubic_network::records::PeerRecords;
use rubic_network::selection::{
    best_peers, select_best, select_candidate, Candidate, LoadBalancingStrategy,
};

fn candidates(ranks: &[Option<i64>]) -> Vec<Candidate> {
    ranks
        .iter()
        .enumerate()
        .map(|(i, rank)| Candidate { id: format!("peer-{}", i), rank: *rank })
        .collect()
}

fn ranked(ranks: &[i64]) -> Vec<(AsyncPeer, i64)> {
    let mut records = PeerRecords::new();
    ranks
        .iter()
        .enumerate()
        .map(|(i, rank)| {
            let addr = SocketAddress::V4 { ip: i as u32, port: 1 };
            let draft = NewPeer::new(addr, "");
            let peer = AsyncPeer::new(draft, Ok(()), &mut records, 0).unwrap();
            (peer, *rank)
        })
        .collect()
}

fn places(peers: &[AsyncPeer]) -> Vec<u64> {
    peers.iter().map(|p| p.get_record()).collect()
}

#[test]
fn nobody_is_chosen_among_none() {
    for strategy in [
        LoadBalancingStrategy::RoundRobin,
        LoadBalancingStrategy::Random,
        LoadBalancingStrategy::LeastConnections,
        LoadBalancingStrategy::ScoreBased,
    ] {
        let mut turn = 3;
        assert_eq!(select_candidate(strategy, Vec::new(), &mut turn), None);
        assert_eq!(turn, 3);
    }
}

#[test]
fn everyone_has_a_turn() {
    let mut turn = 5;
    let mut chosen = Vec::new();
    for _ in 0..6 {
        let list = candidates(&[None, None, None]);
        chosen.push(select_candidate(LoadBalancingStrategy::RoundRobin, list, &mut turn).unwrap());
    }
    assert_eq!(chosen, vec!["peer-2", "peer-0", "peer-1", "peer-2", "peer-0", "peer-1"]);
    assert_eq!(turn, 11);
}

#[test]
fn turns_start_over() {
    let mut turn = u32::MAX;
    let strategy = LoadBalancingStrategy::RoundRobin;
    let last = select_candidate(strategy, candidates(&[None, None, None]), &mut turn);
    assert_eq!(last.unwrap(), "peer-0");
    assert_eq!(turn, 0);
    let first = select_candidate(strategy, candidates(&[None, None, None]), &mut turn);
    assert_eq!(first.unwrap(), "peer-0");
}

#[test]
fn chance_chooses_a_candidate() {
    let mut seen = vec![false; 3];
    for strategy in [LoadBalancingStrategy::Random, LoadBalancingStrategy::LeastConnections] {
        for _ in 0..200 {
            let mut turn = 0;
            let id = select_candidate(strategy, candidates(&[None, None, None]), &mut turn).unwrap();
            let at = ["peer-0", "peer-1", "peer-2"].iter().position(|c| *c == id).unwrap();
            seen[at] = true;
            assert_eq!(turn, 0);
        }
    }
    assert_eq!(seen, vec![true; 3]);
}

#[test]
fn highest_score_is_chosen() {
    let list = candidates(&[Some(3), None, Some(8), Some(8), Some(-2)]);
    assert_eq!(select_best(&list).unwrap(), "peer-2");
    let mut turn = 0;
    let chosen = select_candidate(LoadBalancingStrategy::ScoreBased, list, &mut turn);
    assert_eq!(chosen.unwrap(), "peer-2");
    assert_eq!(turn, 0);
}

#[test]
fn scores_of_zero_and_less_are_not_chosen() {
    assert_eq!(select_best(&candidates(&[Some(0), Some(-1), None])), None);
    assert_eq!(select_best(&candidates(&[Some(0), Some(1)])).unwrap(), "peer-1");
}

#[test]
fn best_peers_come_first() {
    let best = best_peers(ranked(&[5, 9, -1, 9, 7]), 10);
    assert_eq!(places(&best), vec![1, 3, 4, 0, 2]);
    let best = best_peers(ranked(&[5, 9, -1, 9, 7]), 3);
    assert_eq!(places(&best), vec![1, 3, 4]);
    assert!(best_peers(ranked(&[1, 2]), 0).is_empty());
    assert!(best_peers(Vec::new(), 4).is_empty());
}

#[test]
fn chosen_peer_heads_the_best() {
    let ranks = [4, 6, 6, 1];
    let best = best_peers(ranked(&ranks), 1);
    let some: Vec<Option<i64>> = ranks.iter().map(|r| Some(*r)).collect();
    let chosen = select_best(&candidates(&some)).unwrap();
    assert_eq!(format!("peer-{}", best[0].get_record()), chosen);
}

fn listing(records: &mut PeerRecords, connected: &[bool]) -> Vec<(String, AsyncPeer)> {
    connected
        .iter()
        .enumerate()
        .map(|(i, connected)| {
            let addr = SocketAddress::V4 { ip: i as u32, port: 1 };
            let mut peer = AsyncPeer::new(NewPeer::new(addr, ""), Ok(()), records, 0).unwrap();
            peer.set_connected(*connected);
            (peer.get_id().to_string(), peer)
        })
        .collect()
}

fn by_record(peer: &AsyncPeer, _stats: PeerStats) -> Option<i64> {
    Some(peer.get_record() as i64)
}

#[test]
fn candidates_keep_the_order_of_the_list() {
    let mut records = PeerRecords::new();
    let listed = listing(&mut records, &[true, false, true, true]);
    assert_eq!(count_connected(&listed), 3);
    let strategy = LoadBalancingStrategy::ScoreBased;
    let ranked = rank_candidates(&listed, strategy, &records, by_record);
    let ids: Vec<&String> = ranked.iter().map(|c| &c.id).collect();
    assert_eq!(ids, vec![&listed[0].0, &listed[2].0, &listed[3].0]);
    let ranks: Vec<Option<i64>> = ranked.iter().map(|c| c.rank).collect();
    assert_eq!(ranks, vec![Some(0), Some(2), Some(3)]);
    let strategy = LoadBalancingStrategy::RoundRobin;
    let unranked = rank_candidates(&listed, strategy, &records, by_record);
    assert!(unranked.iter().all(|c| c.rank.is_none()));
}

#[test]
fn turns_go_through_the_list_and_repeat() {
    let mut records = PeerRecords::new();
    let listed = listing(&mut records, &[true, true, false, true]);
    let mut turn = 3;
    let mut chosen = Vec::new();
    for _ in 0..4 {
        let strategy = LoadBalancingStrategy::RoundRobin;
        chosen.push(select_among(&listed, strategy, &records, by_record, &mut turn).unwrap());
    }
    let expected: Vec<String> = [0, 1, 3, 0].iter().map(|i: &usize| listed[*i].0.clone()).collect();
    assert_eq!(chosen, expected);
    assert_eq!(turn, 7);
}

#[test]
fn best_of_a_list() {
    let mut records = PeerRecords::new();
    let listed = listing(&mut records, &[true, true, true, false]);
    let by_rank = |peer: &AsyncPeer, stats| by_record(peer, stats).unwrap();
    assert_eq!(places(&best_among(&listed, &records, by_rank, 2)), vec![2, 1]);
    assert_eq!(places(&best_among(&listed, &records, |_, _| 7, 9)), vec![0, 1, 2]);
}
