//! A minimal blockchain-style module handler: a persisted 64-bit counter,
//! incremented through a key-value store abstraction.
//!
//! The counter lives at a fixed one-byte key and is stored as eight
//! big-endian bytes.  `codec` holds the byte encoding, `store` an in-memory
//! key-value store with a map view, and `handler` the increment operation
//! itself together with its state-machine model.

pub mod codec;
pub mod handler;
pub mod store;
