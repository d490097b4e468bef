# mbongo

The core of an Mbongo Chain node as a verified library: the chain data
model and its canonical (SCALE) byte encoding, hashing and signatures,
a storage model with an in-memory backend, and the schema decisions and
on-disk key layout of the persistent one, the pending-transaction pool, the
consensus rules that validate and apply blocks, admission of submitted
transactions, and block production.

- `src/` is verified with Verus. Each public function states its result
  over the model in `storage::StoreView`, `rules::block_outcome`,
  `admission::admission` and the pool view; on a storage backend that can
  fail, it does not say which engine error comes back. The properties that span functions are proof functions in
  `laws.rs`, `block_laws.rs`, `pool_laws.rs`, `layout.rs`, `codec.rs` and
  `hexadecimal.rs`.
- `tests/` runs the library on concrete values.
- `app/` is the service around it: locking, text and JSON answers,
  logging, gossip and timed production.
