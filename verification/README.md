# Κρέατιλας

Kreatilas (Κρέατιλας) is networking software inspired by Ian Clarke's Freenet. It allows the
distribution of files, addressed by their BLAKE3 hashes, while maintaining deniability and making
censorship more difficult. Its rules are written in Verus, and proved.

- `src/` is the library. It performs no I/O.
  - `proto` is the protocol, a state machine. `proto::model` says what each event does, and
    `proto::state` does it; `proto::laws` states what follows for every node.
  - `net` decides what a running node does with its connections, timers and its store:
    `net::actor` turns what happens into actions, `net::frame` lays out messages on a connection,
    `net::reclaim` makes room for downloads. `net::laws` states what holds of a running node.
  - `cli` reads and colours the commands of a node's user.
- `tests/` runs the library on examples.
- `app/` is the node: sockets, tasks, timers, the blob store, and the terminal, on top of Iroh.

Numbers that count hops are bounded by what 64 bits hold. Events that would make one run over are
told by `State::in_range` and must not be handled.

Available commands are `get <hash>`, `put <file_path>`, `list`, and `peer <node_id>`, where the
node is given by the ticket that it prints when it starts.
