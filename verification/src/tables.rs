//! The tables of the peer set and of the worker manager: concurrent hash maps that this crate
//! always holds exclusively when it changes them.

use dashmap::DashMap;
use vstd::prelude::*;

use crate::addr::AddressKey;
use crate::peer::AsyncPeer;
use crate::worker::WorkerTask;

verus! {

/// `dashmap::DashMap`, a hash map split into shards that are locked one by one. A value of it is
/// opaque; what it holds is given by the names below.
#[verifier::external_type_specification]
#[verifier::external_body]
#[verifier::reject_recursive_types(K)]
#[verifier::reject_recursive_types(V)]
#[verifier::reject_recursive_types(S)]
pub struct ExDashMap<K, V, S>(dashmap::DashMap<K, V, S>);

/// The peers in a table, by their ids.
pub uninterp spec fn peers_in(table: DashMap<String, AsyncPeer>) -> Map<
    Seq<char>,
    crate::peer::PeerView,
>;

/// The ids in a table, by address.
pub uninterp spec fn ids_in(table: DashMap<AddressKey, String>) -> Map<AddressKey, Seq<char>>;

/// The numbers of the tasks in a table, by the ids of the peers that they serve.
pub uninterp spec fn tasks_in(table: DashMap<String, WorkerTask>) -> Map<
    Seq<char>,
    crate::worker::WorkerTaskView,
>;

/// Calls `DashMap::new`, which makes a map without entries.
#[verifier::external_body]
pub(crate) fn new_peer_table() -> (table: DashMap<String, AsyncPeer>)
    ensures
        peers_in(table) == (Map::<Seq<char>, crate::peer::PeerView>::empty()),
{
    DashMap::new()
}

/// Calls `DashMap::len`, which adds up the entries of all shards.
#[verifier::external_body]
pub(crate) fn count_peers(table: &DashMap<String, AsyncPeer>) -> (count: usize)
    ensures
        count == peers_in(*table).len(),
{
    table.len()
}

/// Calls `DashMap::get`, which finds the entry of a key, and copies its value.
#[verifier::external_body]
pub(crate) fn find_peer(table: &DashMap<String, AsyncPeer>, id: &str) -> (found: Option<AsyncPeer>)
    ensures
        match found {
            Some(peer) => peers_in(*table).contains_key(id@) && peer@ == peers_in(*table)[id@],
            None => !peers_in(*table).contains_key(id@),
        },
{
    table.get(id).map(|entry| entry.value().clone())
}

/// Calls `DashMap::insert`, which enters a value under a key and discards the one that was there.
#[verifier::external_body]
pub(crate) fn put_peer(table: &mut DashMap<String, AsyncPeer>, id: String, peer: AsyncPeer)
    ensures
        peers_in(*final(table)) == peers_in(*old(table)).insert(id@, peer@),
{
    table.insert(id, peer);
}

/// Calls `DashMap::remove`, which takes the entry of a key out of the map.
#[verifier::external_body]
pub(crate) fn take_peer(table: &mut DashMap<String, AsyncPeer>, id: &str) -> (taken: Option<
    AsyncPeer,
>)
    ensures
        peers_in(*final(table)) == peers_in(*old(table)).remove(id@),
        match taken {
            Some(peer) => peers_in(*old(table)).contains_key(id@) && peer@ == peers_in(
                *old(table),
            )[id@],
            None => !peers_in(*old(table)).contains_key(id@),
        },
{
    table.remove(id).map(|entry| entry.1)
}

/// Calls `DashMap::iter`, which walks over every entry once, and copies the values. In which
/// order it comes to them is left open.
#[verifier::external_body]
pub(crate) fn list_peers(table: &DashMap<String, AsyncPeer>) -> (peers: Vec<(String, AsyncPeer)>)
    ensures
        forall|i: int|
            0 <= i < peers@.len() ==> peers_in(*table).contains_key(#[trigger] peers@[i].0@)
                && peers@[i].1@ == peers_in(*table)[peers@[i].0@],
        forall|i: int, j: int|
            0 <= i < j < peers@.len() ==> (#[trigger] peers@[i]).0@ != (#[trigger] peers@[j]).0@,
        forall|id: Seq<char>| #[trigger]
            peers_in(*table).contains_key(id) ==> exists|i: int|
                0 <= i < peers@.len() && (#[trigger] peers@[i]).0@ == id,
{
    table.iter().map(|entry| (entry.key().clone(), entry.value().clone())).collect()
}

/// Calls `DashMap::new`, which makes a map without entries.
#[verifier::external_body]
pub(crate) fn new_address_table() -> (table: DashMap<AddressKey, String>)
    ensures
        ids_in(table) == (Map::<AddressKey, Seq<char>>::empty()),
{
    DashMap::new()
}

/// Calls `DashMap::contains_key`, which says whether a key has an entry.
#[verifier::external_body]
pub(crate) fn knows_address(table: &DashMap<AddressKey, String>, key: AddressKey) -> (known: bool)
    ensures
        known == ids_in(*table).contains_key(key),
{
    table.contains_key(&key)
}

/// Calls `DashMap::insert`, which enters a value under a key and discards the one that was there.
#[verifier::external_body]
pub(crate) fn put_address(table: &mut DashMap<AddressKey, String>, key: AddressKey, id: String)
    ensures
        ids_in(*final(table)) == ids_in(*old(table)).insert(key, id@),
{
    table.insert(key, id);
}

/// Calls `DashMap::remove`, which takes the entry of a key out of the map.
#[verifier::external_body]
pub(crate) fn take_address(table: &mut DashMap<AddressKey, String>, key: AddressKey) -> (taken:
    Option<String>)
    ensures
        ids_in(*final(table)) == ids_in(*old(table)).remove(key),
        match taken {
            Some(id) => ids_in(*old(table)).contains_key(key) && id@ == ids_in(*old(table))[key],
            None => !ids_in(*old(table)).contains_key(key),
        },
{
    table.remove(&key).map(|entry| entry.1)
}

/// Calls `DashMap::new`, which makes a map without entries.
#[verifier::external_body]
pub(crate) fn new_worker_table() -> (table: DashMap<String, WorkerTask>)
    ensures
        tasks_in(table) == (Map::<Seq<char>, crate::worker::WorkerTaskView>::empty()),
{
    DashMap::new()
}

/// Calls `DashMap::len`, which adds up the entries of all shards.
#[verifier::external_body]
pub(crate) fn count_workers(table: &DashMap<String, WorkerTask>) -> (count: usize)
    ensures
        count == tasks_in(*table).len(),
{
    table.len()
}

/// Calls `DashMap::insert`, which enters a value under a key and discards the one that was there.
#[verifier::external_body]
pub(crate) fn put_worker(table: &mut DashMap<String, WorkerTask>, id: String, worker: WorkerTask)
    ensures
        tasks_in(*final(table)) == tasks_in(*old(table)).insert(id@, worker@),
{
    table.insert(id, worker);
}

/// Calls `DashMap::remove`, which takes the entry of a key out of the map.
#[verifier::external_body]
pub(crate) fn take_worker(table: &mut DashMap<String, WorkerTask>, id: &str) -> (taken: Option<
    WorkerTask,
>)
    ensures
        tasks_in(*final(table)) == tasks_in(*old(table)).remove(id@),
        match taken {
            Some(worker) => tasks_in(*old(table)).contains_key(id@) && worker@ == tasks_in(
                *old(table),
            )[id@],
            None => !tasks_in(*old(table)).contains_key(id@),
        },
{
    table.remove(id).map(|entry| entry.1)
}

/// Calls `DashMap::iter`, which walks over every entry once, and copies the keys. In which order
/// it comes to them is left open.
#[verifier::external_body]
pub(crate) fn list_workers(table: &DashMap<String, WorkerTask>) -> (ids: Vec<String>)
    ensures
        forall|i: int|
            0 <= i < ids@.len() ==> tasks_in(*table).contains_key(#[trigger] ids@[i]@),
        forall|i: int, j: int|
            0 <= i < j < ids@.len() ==> (#[trigger] ids@[i])@ != (#[trigger] ids@[j])@,
        forall|id: Seq<char>| #[trigger]
            tasks_in(*table).contains_key(id) ==> exists|i: int|
                0 <= i < ids@.len() && (#[trigger] ids@[i])@ == id,
{
    table.iter().map(|entry| entry.key().clone()).collect()
}

} // verus!
