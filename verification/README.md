# mempool_listener

The verified core of a service that listens to the Ethereum devp2p network,
deduplicates gossiped mempool transactions in memory, and hands each new
transaction on to a Redis queue, with Prometheus metrics along the way.

- `src/dedup.rs`: the bounded, time-limited cache of transaction hashes
  (size limit and time-to-live), with its laws: a repeated hash is a
  duplicate, the cache stays within its size, and with a monotone clock only
  fresh hashes remain after a new one arrives.
- `src/metrics.rs`: the pipeline counters and the duplicate ratio.
- `src/processor.rs`: what the processor does with each decoded transaction
  and with the outcome of each Redis call.
- `src/network.rs`: the table of connected peers (a `DashMap`) and the action
  owed for each peer and transaction event.
- `app/`: the program around it: configuration, the reth network, Redis, the
  Prometheus registry and its HTTP endpoint.
