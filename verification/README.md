# cbf_node

Peer address management for a BIP157 node, written in Verus.

The node crawls the Bitcoin network for peers and keeps a store of them: some that serve compact
block filters, and some that do not.

- `src/` is the verified library. It decides: which hosts to look up, which peer to visit next,
  which of the reported peers to keep, and when to stop. The manager, the fetcher and the workers
  are state machines. Each call takes what happened and gives back what to do next, and its
  contract says both exactly.
- `app/` runs these state machines with threads, channels, name lookups and the system clock. It
  leaves the connection to a peer to an implementation of the trait `Peer`.
- `tests/` runs the library on concrete values.

The library calls the `bitcoin` crate for two things: to tell whether service flags include
compact filters (`serves_filters` in `src/store.rs`), and to turn an announced address into a
socket address (`wire_socket_addr` in `src/net.rs`). What these two state is believed, not proved.
The errors of std and of the `bitcoin` crate, and readings of the system clock, are carried along
without looking inside.

The properties of the library as a whole are the proof functions whose names begin with `law_`.
