# hermes_replication

The Hermes replication protocol as a verified library: a node's member
table, its versioned copies of keys, how it answers other nodes' messages, and
the decisions of its reads and writes, each with a contract proved by Verus.

- `src/types.rs`: node identities, member records, messages and errors, with
  their mathematical views.
- `src/ids.rs`: fresh random identities and their UUID text.
- `src/version.rs`: versions made of the issuing node's identity and a counter.
- `src/membership.rs`: the member table, kept in order of identity; the
  replicas and the coordinator of a key.
- `src/store.rs`: the local copies and the pending invalidations.
- `src/protocol.rs`: the cluster node; message handling; write rounds and read
  rounds, which a transport drives step by step.
- `src/laws.rs`: properties that span several operations.
- `app/`: the TCP transport (rkyv-encoded messages over tokio) and a shared
  node whose async reads and writes run the rounds over the network.
