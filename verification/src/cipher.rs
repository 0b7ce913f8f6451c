//! The Feistel engine: the cipher state holding the current half-block
//! pair, the round transformation in both directions, and the round loops
//! in the two driving modes (one shared key, or one key per round from a
//! scheduler).

use vstd::prelude::*;
use crate::blocks::Block128;
use crate::blocks::Block256;
use crate::blocks::left_half;
use crate::blocks::merge_bytes;
use crate::blocks::right_half;
use crate::blocks::xor_bytes;
use crate::keys::KeyScheduler;
use crate::keys::can_run;
use crate::keys::lemma_can_run_step;
use crate::keys::lemma_run_schedule_len;
use crate::keys::lemma_run_schedule_snoc;
use crate::keys::run_schedule;
use crate::keys::run_state;
use crate::round_function::RoundFunction;

verus! {

/// One forward Feistel round on a state `(L, R)` with round key `k`:
/// the new left half is `R XOR F(L, k)`, the new right half is the old
/// left half.
pub open spec fn enc_round<F: RoundFunction<Block128, Block128>>(
    s: (Seq<u8>, Seq<u8>),
    k: Seq<u8>,
) -> (Seq<u8>, Seq<u8>) {
    (xor_bytes(s.1, F::f_spec(s.0, k)), s.0)
}

/// One backward Feistel round, the structural inverse of `enc_round`
/// under the same key: the new right half is `L XOR F(R, k)`, the new
/// left half is the old right half.
pub open spec fn dec_round<F: RoundFunction<Block128, Block128>>(
    s: (Seq<u8>, Seq<u8>),
    k: Seq<u8>,
) -> (Seq<u8>, Seq<u8>) {
    (s.1, xor_bytes(s.0, F::f_spec(s.1, k)))
}

/// Forward rounds applied in order: `keys[0]` first.
pub open spec fn encrypt_rounds<F: RoundFunction<Block128, Block128>>(
    s: (Seq<u8>, Seq<u8>),
    keys: Seq<Seq<u8>>,
) -> (Seq<u8>, Seq<u8>)
    decreases keys.len(),
{
    if keys.len() == 0 {
        s
    } else {
        encrypt_rounds::<F>(enc_round::<F>(s, keys[0]), keys.drop_first())
    }
}

/// Backward rounds applied in order: `keys[0]` first.
pub open spec fn decrypt_rounds<F: RoundFunction<Block128, Block128>>(
    s: (Seq<u8>, Seq<u8>),
    keys: Seq<Seq<u8>>,
) -> (Seq<u8>, Seq<u8>)
    decreases keys.len(),
{
    if keys.len() == 0 {
        s
    } else {
        decrypt_rounds::<F>(dec_round::<F>(s, keys[0]), keys.drop_first())
    }
}

/// The key sequence of static-key mode: the same key at every round.
pub open spec fn constant_keys(k: Seq<u8>, n: nat) -> Seq<Seq<u8>> {
    Seq::new(n, |i: int| k)
}

/// Appending a key to the schedule appends one forward round.
pub proof fn lemma_encrypt_snoc<F: RoundFunction<Block128, Block128>>(
    s: (Seq<u8>, Seq<u8>),
    keys: Seq<Seq<u8>>,
    k: Seq<u8>,
)
    ensures
        encrypt_rounds::<F>(s, keys.push(k)) == enc_round::<F>(encrypt_rounds::<F>(s, keys), k),
    decreases keys.len(),
{
    if keys.len() == 0 {
        reveal_with_fuel(encrypt_rounds, 2);
        assert(keys.push(k)[0] == k);
        assert(keys.push(k).drop_first() =~= Seq::<Seq<u8>>::empty());
    } else {
        assert(keys.push(k)[0] == keys[0]);
        assert(keys.push(k).drop_first() =~= keys.drop_first().push(k));
        lemma_encrypt_snoc::<F>(enc_round::<F>(s, keys[0]), keys.drop_first(), k);
    }
}

/// Appending a key to the schedule appends one backward round.
pub proof fn lemma_decrypt_snoc<F: RoundFunction<Block128, Block128>>(
    s: (Seq<u8>, Seq<u8>),
    keys: Seq<Seq<u8>>,
    k: Seq<u8>,
)
    ensures
        decrypt_rounds::<F>(s, keys.push(k)) == dec_round::<F>(decrypt_rounds::<F>(s, keys), k),
    decreases keys.len(),
{
    if keys.len() == 0 {
        reveal_with_fuel(decrypt_rounds, 2);
        assert(keys.push(k)[0] == k);
        assert(keys.push(k).drop_first() =~= Seq::<Seq<u8>>::empty());
    } else {
        assert(keys.push(k)[0] == keys[0]);
        assert(keys.push(k).drop_first() =~= keys.drop_first().push(k));
        lemma_decrypt_snoc::<F>(dec_round::<F>(s, keys[0]), keys.drop_first(), k);
    }
}

/// One backward round undoes one forward round under the same key,
/// whatever the round function computes.
pub proof fn lemma_round_inverse<F: RoundFunction<Block128, Block128>>(
    s: (Seq<u8>, Seq<u8>),
    k: Seq<u8>,
)
    ensures
        dec_round::<F>(enc_round::<F>(s, k), k) == s,
{
    let f = F::f_spec(s.0, k);
    assert(xor_bytes(xor_bytes(s.1, f), f) =~= s.1) by {
        assert forall|i: int| 0 <= i < s.1.len() implies xor_bytes(xor_bytes(s.1, f), f)[i]
            == s.1[i] by {
            let a = s.1[i];
            let b = f[i];
            assert((a ^ b) ^ b == a) by (bit_vector);
        }
    };
    assert(dec_round::<F>(enc_round::<F>(s, k), k) == s);
}

/// The defining Feistel invariant: backward rounds keyed with the
/// reversed key sequence undo the forward rounds, for every round
/// function, state and key sequence.
pub proof fn lemma_decrypt_reversed_inverts<F: RoundFunction<Block128, Block128>>(
    s: (Seq<u8>, Seq<u8>),
    keys: Seq<Seq<u8>>,
)
    ensures
        decrypt_rounds::<F>(encrypt_rounds::<F>(s, keys), keys.reverse()) == s,
    decreases keys.len(),
{
    if keys.len() == 0 {
        assert(keys.reverse() =~= keys);
    } else {
        let k0 = keys[0];
        let rest = keys.drop_first();
        let s1 = enc_round::<F>(s, k0);
        lemma_decrypt_reversed_inverts::<F>(s1, rest);
        assert(keys.reverse() =~= rest.reverse().push(k0));
        lemma_decrypt_snoc::<F>(encrypt_rounds::<F>(s1, rest), rest.reverse(), k0);
        lemma_round_inverse::<F>(s, k0);
    }
}

/// Round-trip on a half-block pair with a key sequence read forward both
/// ways. Decryption consumes its keys first to last, so this holds
/// exactly when the sequence reads the same in both directions; a
/// constant (static-key) schedule is the common case.
pub proof fn lemma_round_trip_palindrome<F: RoundFunction<Block128, Block128>>(
    s: (Seq<u8>, Seq<u8>),
    keys: Seq<Seq<u8>>,
)
    requires
        keys == keys.reverse(),
    ensures
        decrypt_rounds::<F>(encrypt_rounds::<F>(s, keys), keys) == s,
{
    lemma_decrypt_reversed_inverts::<F>(s, keys);
}

/// Round-trip on a double-block: split, encrypt, decrypt with the same
/// (palindromic) key sequence, merge — the original block comes back.
pub proof fn lemma_double_block_round_trip<F: RoundFunction<Block128, Block128>>(
    b: Seq<u8>,
    keys: Seq<Seq<u8>>,
)
    requires
        b.len() == 32,
        keys == keys.reverse(),
    ensures
        ({
            let s = (left_half(b), right_half(b));
            let d = decrypt_rounds::<F>(encrypt_rounds::<F>(s, keys), keys);
            merge_bytes(d.0, d.1) == b
        }),
{
    lemma_round_trip_palindrome::<F>((left_half(b), right_half(b)), keys);
    crate::blocks::lemma_merge_of_split(b);
}

/// Static-key round-trip: encrypting and then decrypting with one shared
/// key for the same number of rounds restores the state, for any key,
/// any round count and any round function.
pub proof fn lemma_static_round_trip<F: RoundFunction<Block128, Block128>>(
    s: (Seq<u8>, Seq<u8>),
    k: Seq<u8>,
    n: nat,
)
    ensures
        decrypt_rounds::<F>(encrypt_rounds::<F>(s, constant_keys(k, n)), constant_keys(k, n)) == s,
{
    assert(constant_keys(k, n).reverse() =~= constant_keys(k, n));
    lemma_decrypt_reversed_inverts::<F>(s, constant_keys(k, n));
}

/// Zero rounds change nothing, in either direction.
pub proof fn lemma_zero_rounds<F: RoundFunction<Block128, Block128>>(s: (Seq<u8>, Seq<u8>))
    ensures
        encrypt_rounds::<F>(s, Seq::empty()) == s,
        decrypt_rounds::<F>(s, Seq::empty()) == s,
{
}

/// The byte strings of the round keys that a scheduler in state `s`
/// yields over `n` calls, each 128-bit key read big-endian.
pub open spec fn schedule_key_bytes<S: KeyScheduler<u128>>(s: S, n: nat) -> Seq<Seq<u8>> {
    Seq::new(n, |i: int| crate::blocks::be_bytes16(run_schedule(s, n)[i]))
}

/// The cipher state of the 256-bit Feistel instance: the current
/// half-block pair `(L, R)` and the key the state was constructed with.
/// One value drives one encryption or decryption session.
pub struct CipherState256 {
    pub l_i: Block128,
    pub r_i: Block128,
    pub k_i: Block128,
}

impl CipherState256 {
    /// The current pair as the spec model the round lemmas speak of.
    pub open spec fn halves_spec(&self) -> (Seq<u8>, Seq<u8>) {
        (self.l_i@, self.r_i@)
    }

    /// A fresh state: the double-block split into its two halves, plus
    /// the construction key.
    pub fn new(data: Block256, key: Block128) -> (s: CipherState256)
        ensures
            s.l_i@ == left_half(data@),
            s.r_i@ == right_half(data@),
            s.k_i == key,
    {
        let (l_i, r_i) = data.split();
        CipherState256 { l_i, r_i, k_i: key }
    }

    /// Replaces the current half-block pair.
    pub fn update_state(&mut self, left: Block128, right: Block128)
        ensures
            final(self).l_i == left,
            final(self).r_i == right,
            final(self).k_i == old(self).k_i,
    {
        self.l_i = left;
        self.r_i = right;
    }

    /// The current half-block pair, left then right.
    pub fn halves(&self) -> (h: (Block128, Block128))
        ensures
            h.0 == self.l_i,
            h.1 == self.r_i,
    {
        (self.l_i, self.r_i)
    }

    /// The current pair merged back into one double-block.
    pub fn merged(&self) -> (b: Block256)
        ensures
            b@ == merge_bytes(self.l_i@, self.r_i@),
    {
        Block256::merge(&self.l_i, &self.r_i)
    }

    /// `r` forward rounds, the same key at every round.
    pub fn encrypt_with<F: RoundFunction<Block128, Block128>>(&mut self, key: Block128, r: usize)
        ensures
            final(self).halves_spec() == encrypt_rounds::<F>(
                old(self).halves_spec(),
                constant_keys(key@, r as nat),
            ),
            final(self).k_i == old(self).k_i,
    {
        let ghost init = self.halves_spec();
        let mut left = self.l_i;
        let mut right = self.r_i;

        for idx in 0..r
            invariant
                (left@, right@) == encrypt_rounds::<F>(init, constant_keys(key@, idx as nat)),
        {
            let temp = left;
            left = right.bitxor(F::f(left, key));
            right = temp;
            proof {
                lemma_encrypt_snoc::<F>(init, constant_keys(key@, idx as nat), key@);
                assert(constant_keys(key@, (idx + 1) as nat) =~= constant_keys(
                    key@,
                    idx as nat,
                ).push(key@));
            }
        }

        self.update_state(left, right);
    }

    /// `r` backward rounds, the same key at every round: the exact
    /// inverse of `encrypt_with` under the same key and round count.
    pub fn decrypt_with<F: RoundFunction<Block128, Block128>>(&mut self, key: Block128, r: usize)
        ensures
            final(self).halves_spec() == decrypt_rounds::<F>(
                old(self).halves_spec(),
                constant_keys(key@, r as nat),
            ),
            final(self).k_i == old(self).k_i,
    {
        let ghost init = self.halves_spec();
        let mut left = self.l_i;
        let mut right = self.r_i;

        for idx in 0..r
            invariant
                (left@, right@) == decrypt_rounds::<F>(init, constant_keys(key@, idx as nat)),
        {
            let temp = right;
            right = left.bitxor(F::f(right, key));
            left = temp;
            proof {
                lemma_decrypt_snoc::<F>(init, constant_keys(key@, idx as nat), key@);
                assert(constant_keys(key@, (idx + 1) as nat) =~= constant_keys(
                    key@,
                    idx as nat,
                ).push(key@));
            }
        }

        self.update_state(left, right);
    }

    /// `r` forward rounds, one key per round from the scheduler, consumed
    /// in call order.
    pub fn encrypt_with_schedule<
        F: RoundFunction<Block128, Block128>,
        S: KeyScheduler<u128>,
    >(&mut self, scheduler: &mut S, r: usize)
        requires
            can_run(*old(scheduler), r as nat),
        ensures
            final(self).halves_spec() == encrypt_rounds::<F>(
                old(self).halves_spec(),
                schedule_key_bytes(*old(scheduler), r as nat),
            ),
            final(self).k_i == old(self).k_i,
            *final(scheduler) == run_state(*old(scheduler), r as nat),
    {
        let ghost init = self.halves_spec();
        let ghost sched0 = *scheduler;
        let mut left = self.l_i;
        let mut right = self.r_i;

        for idx in 0..r
            invariant
                can_run(sched0, r as nat),
                *scheduler == run_state(sched0, idx as nat),
                (left@, right@) == encrypt_rounds::<F>(
                    init,
                    schedule_key_bytes(sched0, idx as nat),
                ),
        {
            proof {
                lemma_can_run_step(sched0, r as nat, idx as nat);
            }
            let key_word = scheduler.naive_next_key();
            let round_key = Block128::from_be_u128(key_word);
            let temp = left;
            left = right.bitxor(F::f(left, round_key));
            right = temp;
            proof {
                lemma_run_schedule_snoc(sched0, idx as nat);
                lemma_schedule_key_bytes_snoc(sched0, idx as nat);
                lemma_encrypt_snoc::<F>(
                    init,
                    schedule_key_bytes(sched0, idx as nat),
                    crate::blocks::be_bytes16(key_word),
                );
            }
        }

        self.update_state(left, right);
    }

    /// `r` backward rounds, one key per round from the scheduler,
    /// consumed in call order. To undo a scheduled encryption the caller
    /// re-derives the same key sequence by re-seeding an identical
    /// scheduler; the sequence must read the same in both directions
    /// (see `lemma_round_trip_palindrome`), since this pass, too,
    /// consumes it first to last.
    pub fn decrypt_with_schedule<
        F: RoundFunction<Block128, Block128>,
        S: KeyScheduler<u128>,
    >(&mut self, scheduler: &mut S, r: usize)
        requires
            can_run(*old(scheduler), r as nat),
        ensures
            final(self).halves_spec() == decrypt_rounds::<F>(
                old(self).halves_spec(),
                schedule_key_bytes(*old(scheduler), r as nat),
            ),
            final(self).k_i == old(self).k_i,
            *final(scheduler) == run_state(*old(scheduler), r as nat),
    {
        let ghost init = self.halves_spec();
        let ghost sched0 = *scheduler;
        let mut left = self.l_i;
        let mut right = self.r_i;

        for idx in 0..r
            invariant
                can_run(sched0, r as nat),
                *scheduler == run_state(sched0, idx as nat),
                (left@, right@) == decrypt_rounds::<F>(
                    init,
                    schedule_key_bytes(sched0, idx as nat),
                ),
        {
            proof {
                lemma_can_run_step(sched0, r as nat, idx as nat);
            }
            let key_word = scheduler.naive_next_key();
            let round_key = Block128::from_be_u128(key_word);
            let temp = right;
            right = left.bitxor(F::f(right, round_key));
            left = temp;
            proof {
                lemma_run_schedule_snoc(sched0, idx as nat);
                lemma_schedule_key_bytes_snoc(sched0, idx as nat);
                lemma_decrypt_snoc::<F>(
                    init,
                    schedule_key_bytes(sched0, idx as nat),
                    crate::blocks::be_bytes16(key_word),
                );
            }
        }

        self.update_state(left, right);
    }
}

/// One more scheduler call appends one key's bytes to the scheduled key
/// sequence.
pub proof fn lemma_schedule_key_bytes_snoc<S: KeyScheduler<u128>>(s: S, n: nat)
    ensures
        schedule_key_bytes(s, n + 1) == schedule_key_bytes(s, n).push(
            crate::blocks::be_bytes16(run_state(s, n).spec_key()),
        ),
{
    lemma_run_schedule_snoc(s, n);
    lemma_run_schedule_len(s, n);
    lemma_run_schedule_len(s, n + 1);
    assert(schedule_key_bytes(s, n + 1) =~= schedule_key_bytes(s, n).push(
        crate::blocks::be_bytes16(run_state(s, n).spec_key()),
    ));
}

} // verus!
