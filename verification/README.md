# nbt_rust

A reader and writer for Minecraft's Named Binary Tag (NBT) format in its three
layouts (big-endian, little-endian, and the network layout with varints),
written in Verus: each reader is proved to return exactly what a specification
of the byte format says, each writer to append exactly the encoding of its
value, and the two are proved to undo each other for every well-formed value
within the read limits.

Layout:

- `src/` is the verified library.
  - `tag.rs`, `config.rs`, `limits.rs`, `error.rs`: the value model, read
    limits and errors.
  - `encoding.rs`, `endian.rs`, `codec.rs`: numbers, varints, zigzag and
    length prefixes; `endian.rs` calls `byteorder` behind trusted wrappers.
  - `payload_spec.rs`, `payload.rs`: the specification and the code of payload
    reading and writing.
  - `root.rs`, `headless.rs`, `protocol_adapter.rs`, `codec_bridge.rs`: named
    roots, optional file headers, headless values and the protocol adapter.
  - `laws.rs`: the read-back-what-was-written laws.
  - `mcstructure.rs`: index arithmetic and semantic validation of
    `.mcstructure` files.
  - `experiments.rs`: the experiments compound of level data, held in an
    `indexmap::IndexMap` behind trusted wrappers.
  - `serde_api.rs`: conversion between tags and the serde data model.
- `tests/`: tests of the library.
- `app/`: the serde-facing API (typed values, `serde_value`, `thiserror`) and
  the constants that the verified code cannot hold.
