//! Versioned key-value storage for a smart-contract execution engine.
//!
//! Every write is tagged with the block number at which it was issued.
//! A per-key version index, ordered by block number, points into one
//! shared content store that holds the payloads.
//!
//! - `keys` derives the byte identifiers: the name of a key's index and
//!   the identifier of a version, whose block number is encoded in
//!   eight bytes, least significant first.
//! - `model` is the store as mathematics, and `laws` states what holds
//!   of it.
//! - `db` is the interface of three operations; `memory` implements it
//!   in memory, on top of `index` and `content`.
//! - `plan` and `engine` hold what every implementation shares: the
//!   steps of a write and the decisions of a read.
//! - `remote` phrases the same requests as commands for a Redis server.

pub mod assoc;
pub mod content;
pub mod db;
pub mod engine;
pub mod index;
pub mod keys;
pub mod laws;
pub mod memory;
pub mod model;
pub mod order;
pub mod plan;
pub mod remote;
