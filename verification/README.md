# peerland

A peer-to-peer messaging node. Nodes connect over TCP, stamp their
messages with Lamport clocks, store every message they see once, and pass
broadcasts on, either to every peer (reliably) or to a few peers picked at
random (gossip).

## Layout

- `src/` is the verified library (Verus):
  - `lamport.rs`: Lamport clocks and the proof that the timestamps a clock
    issues never go backwards;
  - `node.rs`: the bookkeeping of a node (seen messages, stored payloads,
    connections, clock) and the decision of where each message goes;
  - `peers.rs`: peer addresses and the table of connections;
  - `proto.rs`: messages as plain values, UUIDs and timestamps;
  - `frame.rs`: the length-prefixed framing of messages on a connection;
  - `discovery.rs`, `time.rs`, `message.rs`, `task.rs`.
- `app/` is ordinary Rust around it: sockets and connections (tokio), the
  protobuf and MessagePack encodings, the machine's clock, and the tasks
  that read, write and retry.
- `tests/` exercises the library, including in-memory simulations of
  several nodes.
