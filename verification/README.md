# chatproto

A chat protocol with its wire format and two servers, verified with Verus.

- `src/messages.rs`: the messages that clients and servers exchange.
- `src/netproto/`: the wire format. `wire` says which bytes a message is written
  as and `parse` what bytes mean; `encode` and `decode` are the code; `roundtrip`
  proves that what is written can be read back, and `front` that reading does not
  depend on the bytes behind a message.
- `src/solutions/`: the servers. `registry` holds what they share: registered
  clients, their mailboxes and the numbers of their requests; `relay` holds the
  clients of other servers and the texts that wait for them. The files that end
  in `_laws` state what holds over any number of operations.
- `app/`: the protocol over streams, and the servers behind asynchronous locks.

A hash map is keyed by the number of an identifier. The size of a mailbox is a
parameter of the servers, and so is the function that verifies a proof of work.

What is trusted stands in `netproto/encode.rs`, `netproto/decode.rs` and
`solutions/registry.rs`: the calls of `byteorder`, of `uuid` and of
`String::from_utf8_lossy`.
