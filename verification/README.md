# mockwork

An asynchronous network simulator: nodes joined by duplex lines, each node
running a layered protocol stack (physical, first and second layer, and the
node's own layer) through which commands go down and events come up.

- `src/` is the verified library. It holds the pipe that carries the items of
  a layer through its protocol entities, the entities (line pings, channel
  monitor, chunk sender, expired streams cleaner, address map resolver, peer
  channel monitor), the conversions between the layers' items, the stacks of
  a line's end and of a node, the decisions of a node's agent and frontend,
  the weaving of a network, the transmission scheduler, the address map, the
  text of an address, and the picture of a network that a user interface
  draws.
- `app/` is the runtime around it: the asynchronous loops of the nodes and of
  the scheduler, the channels that carry items between them, the streams a
  node's users read and write, the noise of the lines, and the entry points
  that build and drive a random network.
- `tests/` runs the library on concrete values.
