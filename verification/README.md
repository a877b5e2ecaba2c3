# no-sql-store

A distributed, in-memory key-value store whose decisions are verified with Verus.

Managers know who is in the cluster and where the 4,096 partitions are, workers hold the
records, and a client that knows the topology talks to the workers directly. The library holds
everything that is decided or computed on the way; it does no I/O of its own.

| Part | What it decides |
| --- | --- |
| `runtime_store`, `partition_store`, `mutation` | what a worker holds: last write wins, tombstones, expiration, ordered pages, the feed of changes |
| `worker::partitions` | the transfer of partitions between workers, batch by batch |
| `worker::cluster_state` | which snapshots of the cluster a worker takes over |
| `manager::heartbeat` | signs of life, and when a leader is given up |
| `client::keys`, `client::topology` | which 64-bit key stands for an application key, and who holds it |
| `client::operations`, `client::retry` | whom to ask, how often, and what the answers amount to |
| `client::managers`, `client::pending` | finding managers, keeping in touch, matching answers to requests |

Public proof functions named `law_…` state what holds across calls: that writes converge in any
order, that a client reads its own writes, that a completed transfer has delivered every value,
that a stale snapshot changes nothing, and so on.

The wrappers around `crossbeam_skiplist`, `dashmap`, `blake3` and the system clock carry
contracts that are trusted rather than proved. Each says in its comment what it claims.

`app/` holds the asynchronous client and the worker process around the library. It expects the
remote procedure stubs and the worker's message tasks as implementations of its traits.
