//! The round-function abstraction: the per-round transformation
//! `F(half_block, round_key) -> half_block` that the Feistel engine is
//! parameterized over, and one illustrative (non-secure) instance.

use vstd::prelude::*;
use crate::blocks::Block;
use crate::blocks::Block128;
use crate::blocks::wrapping_add_bytes;

verus! {

/// A Feistel round function `F: B x K -> B`, where `B` is the half-block
/// width and `K` the round-key width.
///
/// The only obligation is totality and determinism: `f` must agree with the
/// pure specification `f_spec` on every input. The engine never requires `F`
/// to be invertible or injective; Feistel invertibility holds regardless.
pub trait RoundFunction<B: Block, K: Block> {
    /// What `f` computes, as a pure function on the blocks' byte strings.
    spec fn f_spec(input: Seq<u8>, round_key: Seq<u8>) -> Seq<u8>;

    fn f(input: B, round_key: K) -> (r: B)
        ensures
            r.bytes_spec() == Self::f_spec(input.bytes_spec(), round_key.bytes_spec()),
    ;
}

/// An illustrative round function: bytewise addition modulo 256 of the
/// round key into the half-block. Not cryptographically sound; it exists
/// to exercise the engine.
pub struct NaiveWrappingAdd;

impl RoundFunction<Block128, Block128> for NaiveWrappingAdd {
    open spec fn f_spec(input: Seq<u8>, round_key: Seq<u8>) -> Seq<u8> {
        wrapping_add_bytes(input, round_key)
    }

    fn f(input: Block128, round_key: Block128) -> Block128 {
        input.wrapping_add(&round_key)
    }
}

} // verus!
