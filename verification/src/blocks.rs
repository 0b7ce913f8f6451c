//! Fixed-width byte-array block containers: the 128-bit half-block, the
//! 256-bit double-block, and the split/merge operations between them.

use vstd::prelude::*;

verus! {

/// Bytewise XOR of two byte strings; the length is taken from the first.
pub open spec fn xor_bytes(a: Seq<u8>, b: Seq<u8>) -> Seq<u8> {
    Seq::new(a.len(), |i: int| a[i] ^ b[i])
}

/// Bytewise addition modulo 256 of two byte strings; the length is taken
/// from the first.
pub open spec fn wrapping_add_bytes(a: Seq<u8>, b: Seq<u8>) -> Seq<u8> {
    Seq::new(a.len(), |i: int| ((a[i] + b[i]) % 256) as u8)
}

/// The 16 bytes of a 128-bit value in big-endian order.
pub open spec fn be_bytes16(k: u128) -> Seq<u8> {
    Seq::new(16, |i: int| (k >> ((8 * (15 - i)) as u128)) as u8)
}

/// Types usable as cipher blocks: a block is, abstractly, its byte string.
pub trait Block {
    spec fn bytes_spec(&self) -> Seq<u8>;
}

/// Types that can be combined by bitwise XOR, yielding an `N`.
pub trait Xorable<N>: Sized {
    spec fn xor_spec(self, rhs: Self) -> N;

    fn xor(self, rhs: Self) -> (r: N)
        ensures
            r == self.xor_spec(rhs),
    ;
}

impl Xorable<u16> for u16 {
    open spec fn xor_spec(self, rhs: u16) -> u16 {
        self ^ rhs
    }

    fn xor(self, rhs: u16) -> u16 {
        self ^ rhs
    }
}

impl Xorable<u32> for u32 {
    open spec fn xor_spec(self, rhs: u32) -> u32 {
        self ^ rhs
    }

    fn xor(self, rhs: u32) -> u32 {
        self ^ rhs
    }
}

impl Xorable<u64> for u64 {
    open spec fn xor_spec(self, rhs: u64) -> u64 {
        self ^ rhs
    }

    fn xor(self, rhs: u64) -> u64 {
        self ^ rhs
    }
}

impl Xorable<u128> for u128 {
    open spec fn xor_spec(self, rhs: u128) -> u128 {
        self ^ rhs
    }

    fn xor(self, rhs: u128) -> u128 {
        self ^ rhs
    }
}

/// A 128-bit half-block: 16 bytes, immutable value type.
#[derive(Clone, Copy)]
pub struct Block128 {
    pub data: [u8; 16],
}

impl View for Block128 {
    type V = Seq<u8>;

    open spec fn view(&self) -> Seq<u8> {
        self.data@
    }
}

impl Block for Block128 {
    open spec fn bytes_spec(&self) -> Seq<u8> {
        self.data@
    }
}

impl Block128 {
    /// Bytewise XOR with another half-block.
    pub fn bitxor(self, rhs: Block128) -> (r: Block128)
        ensures
            r@ == xor_bytes(self@, rhs@),
    {
        let mut result: [u8; 16] = [0u8; 16];
        for i in 0..16
            invariant
                result@.len() == 16,
                forall|j: int| 0 <= j < i ==> result@[j] == self@[j] ^ rhs@[j],
        {
            result[i] = self.data[i] ^ rhs.data[i];
        }
        proof {
            assert(result@ =~= xor_bytes(self@, rhs@));
        }
        Block128 { data: result }
    }

    /// The half-block holding a 128-bit value in big-endian byte order:
    /// the first byte carries the most significant bits.
    pub fn from_be_u128(k: u128) -> (b: Block128)
        ensures
            b@ == be_bytes16(k),
    {
        let mut data: [u8; 16] = [0u8; 16];
        for i in 0..16
            invariant
                data@.len() == 16,
                forall|j: int| 0 <= j < i ==> data@[j] == be_bytes16(k)[j],
        {
            let shift: u128 = 8 * (15 - i as u128);
            #[verifier::truncate]
            let byte: u8 = (k >> shift) as u8;
            data[i] = byte;
        }
        proof {
            assert(data@ =~= be_bytes16(k));
        }
        Block128 { data }
    }

    /// Bytewise addition modulo 256 with another half-block.
    pub fn wrapping_add(&self, other: &Block128) -> (r: Block128)
        ensures
            r@ == wrapping_add_bytes(self@, other@),
    {
        let mut result: [u8; 16] = [0u8; 16];
        for i in 0..16
            invariant
                result@.len() == 16,
                forall|j: int| 0 <= j < i ==> result@[j] == ((self@[j] + other@[j]) % 256) as u8,
        {
            let sum: u16 = self.data[i] as u16 + other.data[i] as u16;
            result[i] = (sum % 256) as u8;
        }
        proof {
            assert(result@ =~= wrapping_add_bytes(self@, other@));
        }
        Block128 { data: result }
    }
}

/// A 256-bit double-block: 32 bytes, split into two 128-bit halves.
pub struct Block256 {
    pub data: [u8; 32],
}

impl View for Block256 {
    type V = Seq<u8>;

    open spec fn view(&self) -> Seq<u8> {
        self.data@
    }
}

impl Block for Block256 {
    open spec fn bytes_spec(&self) -> Seq<u8> {
        self.data@
    }
}

/// The left half of a 32-byte string: its first 16 bytes.
pub open spec fn left_half(s: Seq<u8>) -> Seq<u8> {
    s.subrange(0, 16)
}

/// The right half of a 32-byte string: its last 16 bytes.
pub open spec fn right_half(s: Seq<u8>) -> Seq<u8> {
    s.subrange(16, 32)
}

/// Concatenation of two 16-byte halves into one 32-byte string.
pub open spec fn merge_bytes(l: Seq<u8>, r: Seq<u8>) -> Seq<u8> {
    l + r
}

impl From<[u8; 32]> for Block256 {
    fn from(value: [u8; 32]) -> (b: Block256) {
        Block256 { data: value }
    }
}

impl vstd::std_specs::convert::FromSpecImpl<[u8; 32]> for Block256 {
    open spec fn obeys_from_spec() -> bool {
        true
    }

    open spec fn from_spec(value: [u8; 32]) -> Block256 {
        Block256 { data: value }
    }
}

impl Block256 {
    pub fn new(data: [u8; 32]) -> (b: Block256)
        ensures
            b@ == data@,
    {
        Block256 { data }
    }

    /// Splits the double-block into its left and right half-blocks:
    /// the left half holds the first 16 bytes, the right half the rest.
    pub fn split(&self) -> (halves: (Block128, Block128))
        ensures
            halves.0@ == left_half(self@),
            halves.1@ == right_half(self@),
    {
        let mut left: [u8; 16] = [0u8; 16];
        let mut right: [u8; 16] = [0u8; 16];
        for i in 0..16
            invariant
                left@.len() == 16,
                right@.len() == 16,
                forall|j: int| 0 <= j < i ==> left@[j] == self@[j],
                forall|j: int| 0 <= j < i ==> right@[j] == self@[j + 16],
        {
            left[i] = self.data[i];
            right[i] = self.data[i + 16];
        }
        proof {
            assert(left@ =~= left_half(self@));
            assert(right@ =~= right_half(self@));
        }
        (Block128 { data: left }, Block128 { data: right })
    }

    /// Merges a left and a right half-block back into a double-block;
    /// the exact inverse of `split`.
    pub fn merge(left: &Block128, right: &Block128) -> (b: Block256)
        ensures
            b@ == merge_bytes(left@, right@),
    {
        let mut data: [u8; 32] = [0u8; 32];
        for i in 0..16
            invariant
                data@.len() == 32,
                forall|j: int| 0 <= j < i ==> data@[j] == left@[j],
                forall|j: int| 0 <= j < i ==> data@[j + 16] == right@[j],
        {
            data[i] = left.data[i];
            data[i + 16] = right.data[i];
        }
        proof {
            assert(data@ =~= merge_bytes(left@, right@));
        }
        Block256 { data }
    }
}

/// Merging the two halves of a 32-byte string gives the string back.
pub proof fn lemma_merge_of_split(s: Seq<u8>)
    requires
        s.len() == 32,
    ensures
        merge_bytes(left_half(s), right_half(s)) == s,
{
    assert(merge_bytes(left_half(s), right_half(s)) =~= s);
}

/// Splitting the merge of two 16-byte halves gives the halves back.
pub proof fn lemma_split_of_merge(l: Seq<u8>, r: Seq<u8>)
    requires
        l.len() == 16,
        r.len() == 16,
    ensures
        left_half(merge_bytes(l, r)) == l,
        right_half(merge_bytes(l, r)) == r,
{
    assert(left_half(merge_bytes(l, r)) =~= l);
    assert(right_half(merge_bytes(l, r)) =~= r);
}

} // verus!
