# hicache_replay

A verified model of the hierarchical KV cache of SGLang engines for replay of
request traces, written in Verus.

- `worker_l2` is the host tier of one worker rank: complete pages and their
  trailing state have separate budgets and least-recently-used replacement, and
  pages that the device holds are not evicted.
- `shared_l3` is the tier that all workers share, bounded in bytes. A page is
  evicted with all its parts.
- `hicache` ties the tiers together: device events move pages down, prefetches
  bring a selected prefix up, and the traffic is counted in tokens.
- `sequence` chains block hashes into prefix hashes.
- `ideal_l1` bounds the time to the first token with unbounded reuse of earlier
  requests; `timestamp` orders arrivals.
- `router_shared` settles what the router is told of a replay.
- `stop_split` splits chat chunks that end a choice and still carry payload for
  it; `chat_stream` holds the chunk types.

The `*_model` modules hold the mathematical models, and the `*_laws` modules what
is proved of them beyond the contracts of the single functions. `app/` holds
what stands around the library: serialized reports, streams, predicted times
and construction of the router's parts.
