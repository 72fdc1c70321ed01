# peer2peer

A small peer-to-peer node, split in two:

- `src/` is the verified library: transaction and block encodings and the
  block hash (SHA3-256 through `sha3`), the length-prefixed wire framing,
  the table of open connections, and the decisions a peer takes in its
  handshakes, while bootstrapping into the network, and on each message.
- `app/` is the program around it: TCP sockets, threads, locks, the
  postcard/serde encoding of messages, and the command loop.
