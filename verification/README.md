# rubic_network

Peer management for a node of a peer-to-peer network, verified with Verus: a pool of idle
connections, the set of known peers, the workers that serve them, and the reading of responses.

- `src/` is the library. It holds the decisions of the network layer and performs none of its
  I/O: each function takes what came back from a socket, a clock or the peer database, and returns
  what is to be done next. Its contracts are stated over views (`PoolView`, `SetView`,
  `WorkerView`, ...), and its public proof functions state what holds across calls.
  What the copies of a peer share is held once, in `src/records.rs`.
- `tests/` runs the library on concrete values.
- `app/` owns the sockets, clocks, channels and tasks, and carries out what the library
  returns. It also computes the scores of peers and their smoothed response times, which are
  fractional, and hands them in.

What the library believes without proof is in `src/tables.rs` (`dashmap`) and `src/random.rs`
(`uuid` and `rand`).
