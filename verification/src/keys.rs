//! Key scheduling: the scheduler abstraction that produces one round key
//! per round from a master key, a reference rotating-key instance, and
//! master-key generation from the operating system's entropy source.

use vstd::prelude::*;
use rand::RngCore;

verus! {

/// A key-expansion strategy: from a master key, a stream of round keys,
/// one per `naive_next_key` call, in the order the cipher consumes them.
///
/// A scheduler is consumed in lockstep with the round loop; it does not
/// buffer or replay previously issued keys.
pub trait KeyScheduler<K>: Sized {
    /// The state a fresh scheduler starts in.
    spec fn spec_init(master_key: K) -> Self;

    /// The key the next `naive_next_key` call returns.
    spec fn spec_key(&self) -> K;

    /// The state after one `naive_next_key` call.
    spec fn spec_step(&self) -> Self;

    /// Whether one more `naive_next_key` call is allowed.
    spec fn spec_can_step(&self) -> bool;

    fn new(master_key: K) -> (s: Self)
        ensures
            s == Self::spec_init(master_key),
    ;

    fn naive_next_key(&mut self) -> (k: K)
        requires
            old(self).spec_can_step(),
        ensures
            k == old(self).spec_key(),
            *final(self) == old(self).spec_step(),
    ;
}

/// The round keys that the next `n` calls on a scheduler in state `s`
/// return, in call order.
pub open spec fn run_schedule<K, S: KeyScheduler<K>>(s: S, n: nat) -> Seq<K>
    decreases n,
{
    if n == 0 {
        Seq::empty()
    } else {
        seq![s.spec_key()] + run_schedule(s.spec_step(), (n - 1) as nat)
    }
}

/// The scheduler state after `n` calls starting from state `s`.
pub open spec fn run_state<K, S: KeyScheduler<K>>(s: S, n: nat) -> S
    decreases n,
{
    if n == 0 {
        s
    } else {
        run_state(s.spec_step(), (n - 1) as nat)
    }
}

/// Whether `n` consecutive calls are allowed starting from state `s`.
pub open spec fn can_run<K, S: KeyScheduler<K>>(s: S, n: nat) -> bool
    decreases n,
{
    n == 0 || (s.spec_can_step() && can_run(s.spec_step(), (n - 1) as nat))
}

/// A run of `n` calls yields exactly `n` keys.
pub proof fn lemma_run_schedule_len<K, S: KeyScheduler<K>>(s: S, n: nat)
    ensures
        run_schedule(s, n).len() == n,
    decreases n,
{
    if n > 0 {
        lemma_run_schedule_len(s.spec_step(), (n - 1) as nat);
    }
}

/// Extending a schedule by one call appends the key of the state reached
/// after the first `n` calls.
pub proof fn lemma_run_schedule_snoc<K, S: KeyScheduler<K>>(s: S, n: nat)
    ensures
        run_schedule(s, n + 1) == run_schedule(s, n).push(run_state(s, n).spec_key()),
        run_state(s, n + 1) == run_state(s, n).spec_step(),
    decreases n,
{
    if n == 0 {
        reveal_with_fuel(run_schedule, 2);
        reveal_with_fuel(run_state, 2);
        assert(run_schedule(s, 1) =~= run_schedule(s, 0).push(run_state(s, 0).spec_key()));
    } else {
        lemma_run_schedule_snoc(s.spec_step(), (n - 1) as nat);
        assert(run_schedule(s, n + 1) =~= run_schedule(s, n).push(run_state(s, n).spec_key()));
    }
}

/// If `n` calls are allowed from `s`, the state reached after `i < n`
/// calls still allows a call.
pub proof fn lemma_can_run_step<K, S: KeyScheduler<K>>(s: S, n: nat, i: nat)
    requires
        can_run(s, n),
        i < n,
    ensures
        run_state(s, i).spec_can_step(),
    decreases i,
{
    if i > 0 {
        lemma_can_run_step(s.spec_step(), (n - 1) as nat, (i - 1) as nat);
    }
}

/// Left rotation of a 128-bit key by one bit position.
pub open spec fn rotl1(k: u128) -> u128 {
    (k << 1) | (k >> 127)
}

/// A reference key scheduler: each call left-rotates the current key by
/// one bit position, counts the round, and returns the rotated key. It
/// has no cryptographic strength; it demonstrates the dynamic-schedule
/// code path.
pub struct RotatingKeyScheduler {
    pub current_key: u128,
    pub rounds: usize,
}

impl KeyScheduler<u128> for RotatingKeyScheduler {
    open spec fn spec_init(master_key: u128) -> Self {
        RotatingKeyScheduler { current_key: master_key, rounds: 0 }
    }

    open spec fn spec_key(&self) -> u128 {
        rotl1(self.current_key)
    }

    open spec fn spec_step(&self) -> Self {
        RotatingKeyScheduler { current_key: rotl1(self.current_key), rounds: (self.rounds + 1) as usize }
    }

    open spec fn spec_can_step(&self) -> bool {
        self.rounds < usize::MAX
    }

    fn new(master_key: u128) -> Self {
        RotatingKeyScheduler { current_key: master_key, rounds: 0 }
    }

    fn naive_next_key(&mut self) -> u128 {
        self.rounds = self.rounds + 1;
        self.current_key = (self.current_key << 1) | (self.current_key >> 127);
        self.current_key
    }
}

/// A rotating scheduler can issue `n` more keys as long as its round
/// counter has room for them.
pub proof fn lemma_rotating_can_run(s: RotatingKeyScheduler, n: nat)
    requires
        s.rounds + n <= usize::MAX,
    ensures
        can_run(s, n),
    decreases n,
{
    if n > 0 {
        lemma_rotating_can_run(s.spec_step(), (n - 1) as nat);
    }
}

/// Two rotating schedulers holding the same current key issue identical
/// key sequences, however many rounds either has already counted: the
/// schedule is a function of the master key alone.
pub proof fn lemma_schedule_deterministic(s1: RotatingKeyScheduler, s2: RotatingKeyScheduler, n: nat)
    requires
        s1.current_key == s2.current_key,
    ensures
        run_schedule(s1, n) == run_schedule(s2, n),
    decreases n,
{
    if n > 0 {
        lemma_schedule_deterministic(s1.spec_step(), s2.spec_step(), (n - 1) as nat);
    }
}

/// The big-endian value of a byte string: the first byte is the most
/// significant.
pub open spec fn be_nat(s: Seq<u8>) -> nat
    decreases s.len(),
{
    if s.len() == 0 {
        0
    } else {
        (be_nat(s.drop_last()) * 256 + s.last()) as nat
    }
}

/// `256^n`.
pub open spec fn pow256(n: nat) -> nat
    decreases n,
{
    if n == 0 {
        1
    } else {
        256 * pow256((n - 1) as nat)
    }
}

/// `256^n` grows with `n`.
pub proof fn lemma_pow256_le(m: nat, n: nat)
    requires
        m <= n,
    ensures
        pow256(m) <= pow256(n),
    decreases n,
{
    if m < n {
        lemma_pow256_le(m, (n - 1) as nat);
        assert(pow256((n - 1) as nat) <= 256 * pow256((n - 1) as nat)) by (nonlinear_arith)
            requires
                pow256((n - 1) as nat) >= 0,
        ;
    }
}

/// A byte string of length `n` holds a value below `256^n`; in
/// particular 16 bytes always fit in a `u128`.
pub proof fn lemma_be_nat_bound(s: Seq<u8>)
    ensures
        be_nat(s) < pow256(s.len()),
    decreases s.len(),
{
    if s.len() > 0 {
        lemma_be_nat_bound(s.drop_last());
        assert(be_nat(s.drop_last()) * 256 + s.last() < pow256((s.len() - 1) as nat) * 256) by (nonlinear_arith)
            requires
                be_nat(s.drop_last()) < pow256((s.len() - 1) as nat),
                s.last() < 256,
        ;
    }
}

/// Reads 16 bytes as one big-endian 128-bit value.
pub fn bytes_to_u128(bytes: [u8; 16]) -> (v: u128)
    ensures
        v == be_nat(bytes@),
{
    let mut v: u128 = 0;
    for i in 0..16
        invariant
            v == be_nat(bytes@.take(i as int)),
    {
        proof {
            assert(bytes@.take(i + 1).drop_last() =~= bytes@.take(i as int));
            lemma_be_nat_bound(bytes@.take(i as int));
            assert(v * 256 + bytes@[i as int] < pow256(i as nat) * 256) by (nonlinear_arith)
                requires
                    v < pow256(i as nat),
                    bytes@[i as int] < 256,
            ;
            lemma_pow256_le(i as nat + 1, 16);
            reveal_with_fuel(pow256, 17);
            assert(pow256(16) == 0x1_0000_0000_0000_0000_0000_0000_0000_0000);
        }
        v = v * 256 + bytes[i] as u128;
    }
    proof {
        assert(bytes@.take(16) =~= bytes@);
    }
    v
}

/// Generates a fresh random master key from the operating system's
/// entropy source; reports `None` when the source is unavailable, with
/// no fallback to weaker randomness.
pub struct KeyGenerator;

/// Relies on rand_core's `OsRng::try_fill_bytes`: fills the buffer with
/// bytes from the operating system's entropy source, or returns an error
/// if the source is unavailable. Nothing is assumed about the bytes.
#[verifier::external_body]
fn os_random_bytes() -> (r: Option<[u8; 16]>) {
    let mut buf = [0u8; 16];
    match rand::rngs::OsRng.try_fill_bytes(&mut buf) {
        Ok(()) => Some(buf),
        Err(_) => None,
    }
}

impl KeyGenerator {
    /// A fresh 128-bit master key from the operating system's entropy
    /// source, or `None` when that source fails.
    pub fn generate() -> Option<u128> {
        match os_random_bytes() {
            Some(bytes) => Some(bytes_to_u128(bytes)),
            None => None,
        }
    }
}

} // verus!
