# bevy_spicy_networking_tokio_quinn

A QUIC transport for networked games, with its decisions written and verified in Verus.

- `src/` is the library. The loops of the transport (accepting, connecting, receiving, sending)
  are state machines: each says what is to be done next and is told what came of it. Every module
  states in its contracts what the machine does on each event, and in its laws what holds of whole
  runs: packets are delivered in order, a peer that exceeds the maximum packet size is
  disconnected, no connection is lost while it is being set up, and every socket comes from a
  connection of its own that was listened for.
- `app/` performs the actions with `quinn`, `tokio` and `futures`, and encodes packets with
  `bincode`.
- `tests/` runs the library.
