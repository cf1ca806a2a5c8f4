# pbft

A Byzantine fault tolerant key-value store replicated with the pBFT protocol
(Castro and Liskov, OSDI '99), with the protocol's decisions verified in Verus.

## Layout

- `src/` is the verified library.
  - `consensus.rs`: the consensus engine. `Consensus::handle` takes one command
    and returns the actions the runtime performs; each handler states exactly
    how the replica's state changes and which actions come out.
  - `state.rs`: a replica's state, its acceptance tests, and how committed
    requests are applied to the store.
  - `message_bank.rs`, `view_changer.rs`: the message log and the requests a
    replica waits on.
  - `messages.rs`: protocol messages and their models.
  - `node.rs`: the network layer's decisions (recording peer keys, dropping
    messages of unknown peers).
  - `client.rs`: the client's vote counting.
  - `laws.rs`: properties that span several operations.
  - `runs.rs`: properties of whole runs of the engine (sequence numbers of
    pre-prepares within a view, requests applied in order).
  - `store_order.rs`: the key order in which a store is listed for its digest.
  - `crypto.rs`: the trusted calls into `sha2`, `ed25519-dalek`, `serde` and
    `serde_json`.
  - `vec_map.rs`: the ordered map that holds the replica's collections.
- `app/` runs replicas and the client over TCP with tokio:

```
pbft n addr_1 ... addr_n i [b]          # replica i; b makes it equivocate
pbft client n addr_1 ... addr_n resp_addr
```

Clients issue writes (`set x 42`) and reads (`get x`); a request counts as
committed once more than `f` replicas report it applied with the same response
value.
