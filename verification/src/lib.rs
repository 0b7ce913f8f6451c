//! A generic, pluggable Feistel-network cipher construction: a reusable
//! engine for building block ciphers from an arbitrary round function and
//! an arbitrary key-expansion strategy.
//!
//! The engine's defining guarantee is algebraic invertibility: applying the
//! round transformation forward and then backward with the same round keys
//! (backward pass keyed in reverse order) restores the original state, no
//! matter what the round function computes. This is a teaching/reference
//! construction, not a hardened cryptographic library.

pub mod blocks;
pub mod cipher;
pub mod keys;
pub mod round_function;

pub use blocks::Block128;
pub use blocks::Block256;
