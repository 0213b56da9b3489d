# ice_rs

A client library for the ZeroC Ice protocol, verified with Verus, and a generator of
Rust sources from slice definitions.

## Layout

- `src/encoding.rs`: the wire format (sizes, strings, sequences, dictionaries,
  fixed-width integers, identities, encapsulations, headers, requests, replies), each
  codec specified by a byte-level function and a decoding outcome.
- `src/roundtrip.rs`: the laws that every value reads back from its encoding, and what
  a peer reads back from the frames this library writes.
- `src/protocol.rs`, `src/dict.rs`: the protocol's data types and the string
  dictionary used for request contexts.
- `src/transport.rs`, `src/proxy.rs`, `src/iceobject.rs`, `src/communicator.rs`: the
  decisions of a client (framing requests, reading messages, numbering requests,
  decoding the answers of the standard operations).
- `src/slice/`: slice definitions (types, enumerations, structures, exceptions,
  operations, interfaces, modules), reading them from a parse tree, and the Rust source
  generated for them.
- `app/`: the TCP transport, proxies connected over it, and writing generated sources
  to disk.
- `tests/`: tests of the codecs, the protocol and the slice layer.
