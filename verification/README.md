# incrementalmerkletree

Coordinates in incremental Merkle trees, verified with Verus.

- `src/bits.rs`: the binary arithmetic that the contracts are written in
  (digit counts, set bits, trailing ones, shifts) and the lemmas that tie
  machine shifts and masks to it.
- `src/level.rs`, `src/position.rs`, `src/address.rs`: levels, leaf positions
  and node addresses, each with a view (`@`) that the contracts speak of, and
  the laws that relate parents, siblings, children, ancestors and position
  ranges.
- `src/context.rs`: the context of an address at another level, returned as an
  `either::Either`.
- `src/retention.rs`: retention metadata of leaves.
- `src/hashable.rs`: the trait for values stored in a tree, with the empty roots.
- `app/`: serde forms of `Position`, `Level` and `Address`.
