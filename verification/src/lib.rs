//! Core of an Mbongo Chain node: the chain data model, its canonical byte
//! encoding, a key-value storage model, the pending-transaction pool, and
//! the consensus rules that validate and apply blocks.

pub mod primitives;
pub mod model;
pub mod codec;
pub mod crypto;
pub mod table;
pub mod storage;
pub mod schema;
pub mod mempool;
pub mod rules;
pub mod admission;
pub mod backend;
pub mod hexadecimal;
pub mod scan;
pub mod laws;
pub mod block_laws;
pub mod pool_laws;
pub mod layout;
