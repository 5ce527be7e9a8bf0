# almeta_p2p

A peer-to-peer overlay node, verified with Verus. Peers negotiate links with
offers, answers and ICE candidates, greet each other over direct packets that
carry an MD5 checksum of their canonical text, and route packets with a
distance-vector table. A route is replaced only by a better one; when a
peer's distance grows on the link it is routed through, a route trace is
started, and a peer whose trace comes back through this node is forgotten
and announced lost, as are the peers routed through a link that closes. Perigee records
when each neighbor delivers packets, so that the host can choose which
neighbors to keep.

The node never performs I/O: every entry point takes an event and appends the
work to do to `command_queue`, which the host drains (`Node::poll`).

## Layout

- `src/` — the verified library.
  - `node.rs`: the node as a state machine. Every entry point is specified by
    a spec function over `NodeView` (`receive_direct`, `receive_packet`,
    `link_closed`, `tick`, ...).
  - `direct_packet.rs`, `packet.rs`, `ice.rs`, `text.rs`, `digest.rs`: packets,
    their canonical text forms and checksums.
  - `peer_map.rs`: the insertion-ordered map from peers that holds the
    neighbors and the routing table.
  - `perigee.rs`: delivery records, garbage collection and samples.
  - `laws.rs`: properties that span several operations.
- `tests/` — tests of the library on concrete values.
- `app/` — a host program: JSON forms of the library's types (serde),
  floating-point scoring of neighbors, random draws of peers, and a small
  simulated network.
