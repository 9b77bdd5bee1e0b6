//! An append-only cryptographic accumulator machine.
//!
//! Writers append opaque payloads ("leaves") to an accumulator; readers obtain,
//! at a chosen ledger height, the number of leaves, the peaks of the Merkle
//! Mountain Range over them, the single root that bags those peaks, and the
//! bytes of any leaf.
//!
//! The modules, leaves first:
//!
//! * [`error`]: the failures that the machine reports.
//! * [`hash`]: the hash engine, which turns payloads and pairs of commitments
//!   into commitments.
//! * [`shape`]: the arithmetic that ties a leaf count to its mountains.
//! * [`mmr`]: the Merkle Mountain Range itself.
//! * [`access`]: the write policy of an accumulator.
//! * [`snapshot`]: the store of per-height snapshots behind historical reads.
//! * [`machine`]: one accumulator, made of the four above.
//! * [`registry`]: the arena of accumulators and the ledger clock.
//! * [`command`]: requests against a registry, and their results.

pub mod error;
pub mod hash;
pub mod shape;
pub mod mmr;
pub mod access;
pub mod snapshot;
pub mod machine;
pub mod registry;
pub mod command;
