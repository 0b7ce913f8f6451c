use feistel::blocks::Block128;
use feistel::blocks::Block256;
use feistel::cipher::CipherState256;
use feistel::keys::KeyScheduler;
use feistel::keys::RotatingKeyScheduler;
use feistel::round_function::NaiveWrappingAdd;
use feistel::round_function::RoundFunction;

fn half(first4: [u8; 4]) -> Block128 {
    let mut data: [u8; 16] = [0u8; 16];
    data[0] = first4[0];
    data[1] = first4[1];
    data[2] = first4[2];
    data[3] = first4[3];
    Block128 { data }
}

fn scenario_blocks() -> (Block128, Block128, Block128) {
    let l0 = half([0x12, 0x34, 0x56, 0x78]);
    let r0 = half([0x9a, 0xbc, 0xde, 0xf0]);
    let key = half([0xde, 0xad, 0xbe, 0xef]);
    (l0, r0, key)
}

#[test]
fn new_splits_the_double_block() {
    let (l0, r0, key) = scenario_blocks();
    let state = CipherState256::new(Block256::merge(&l0, &r0), key);
    let (l, r) = state.halves();
    assert_eq!(l.data, l0.data);
    assert_eq!(r.data, r0.data);
}

#[test]
fn update_state_replaces_the_halves() {
    let (l0, r0, key) = scenario_blocks();
    let mut state = CipherState256::new(Block256::merge(&l0, &r0), key);
    let a = half([1, 2, 3, 4]);
    let b = half([5, 6, 7, 8]);
    state.update_state(a, b);
    let (l, r) = state.halves();
    assert_eq!(l.data, a.data);
    assert_eq!(r.data, b.data);
}

#[test]
fn merged_concatenates_the_halves() {
    let (l0, r0, key) = scenario_blocks();
    let state = CipherState256::new(Block256::merge(&l0, &r0), key);
    assert_eq!(state.merged().data, Block256::merge(&l0, &r0).data);
}

#[test]
fn zero_rounds_is_identity() {
    let (l0, r0, key) = scenario_blocks();
    let mut state = CipherState256::new(Block256::merge(&l0, &r0), key);
    state.encrypt_with::<NaiveWrappingAdd>(key, 0);
    let (l, r) = state.halves();
    assert_eq!(l.data, l0.data);
    assert_eq!(r.data, r0.data);
    state.decrypt_with::<NaiveWrappingAdd>(key, 0);
    let (l, r) = state.halves();
    assert_eq!(l.data, l0.data);
    assert_eq!(r.data, r0.data);
}

#[test]
fn one_encrypt_round_follows_the_feistel_formula() {
    let (l0, r0, key) = scenario_blocks();
    let mut state = CipherState256::new(Block256::merge(&l0, &r0), key);
    state.encrypt_with::<NaiveWrappingAdd>(key, 1);
    let (l, r) = state.halves();
    // new-left = old-right XOR F(old-left, key); new-right = old-left
    let expected_left = r0.bitxor(NaiveWrappingAdd::f(l0, key));
    assert_eq!(l.data, expected_left.data);
    assert_eq!(r.data, l0.data);
}

#[test]
fn one_decrypt_round_follows_the_inverse_formula() {
    let (l0, r0, key) = scenario_blocks();
    let mut state = CipherState256::new(Block256::merge(&l0, &r0), key);
    state.decrypt_with::<NaiveWrappingAdd>(key, 1);
    let (l, r) = state.halves();
    // new-right = old-left XOR F(old-right, key); new-left = old-right
    let expected_right = l0.bitxor(NaiveWrappingAdd::f(r0, key));
    assert_eq!(l.data, r0.data);
    assert_eq!(r.data, expected_right.data);
}

#[test]
fn static_key_round_trip() {
    let (l0, r0, key) = scenario_blocks();
    let rounds: [usize; 5] = [1, 2, 3, 7, 100];
    for i in 0..rounds.len() {
        let r_count = rounds[i];
        let mut state = CipherState256::new(Block256::merge(&l0, &r0), key);
        state.encrypt_with::<NaiveWrappingAdd>(key, r_count);
        state.decrypt_with::<NaiveWrappingAdd>(key, r_count);
        let (l, r) = state.halves();
        assert_eq!(l.data, l0.data);
        assert_eq!(r.data, r0.data);
    }
}

#[test]
fn scenario_sixty_four_rounds() {
    let (l0, r0, key) = scenario_blocks();
    let tested: [usize; 7] = [1, 2, 3, 5, 16, 33, 64];
    for i in 0..tested.len() {
        let r_count = tested[i];
        let mut state = CipherState256::new(Block256::merge(&l0, &r0), key);
        state.encrypt_with::<NaiveWrappingAdd>(key, r_count);
        let (l, r) = state.halves();
        assert!(l.data != l0.data || r.data != r0.data);
    }
    let mut state = CipherState256::new(Block256::merge(&l0, &r0), key);
    state.encrypt_with::<NaiveWrappingAdd>(key, 64);
    state.decrypt_with::<NaiveWrappingAdd>(key, 64);
    let (l, r) = state.halves();
    assert_eq!(l.data, l0.data);
    assert_eq!(r.data, r0.data);
}

#[test]
fn scheduled_encrypt_consumes_keys_in_call_order() {
    let (l0, r0, key) = scenario_blocks();
    let master: u128 = 0x0123_4567_89ab_cdef_0123_4567_89ab_cdefu128;

    let mut state = CipherState256::new(Block256::merge(&l0, &r0), key);
    let mut scheduler = RotatingKeyScheduler::new(master);
    state.encrypt_with_schedule::<NaiveWrappingAdd, RotatingKeyScheduler>(&mut scheduler, 3);

    // Replay the same three rounds by hand, drawing the same keys.
    let mut replay = RotatingKeyScheduler::new(master);
    let mut left = l0;
    let mut right = r0;
    let mut i: usize = 0;
    while i < 3 {
        let round_key = Block128::from_be_u128(replay.naive_next_key());
        let temp = left;
        left = right.bitxor(NaiveWrappingAdd::f(left, round_key));
        right = temp;
        i += 1;
    }
    let (l, r) = state.halves();
    assert_eq!(l.data, left.data);
    assert_eq!(r.data, right.data);
}

#[test]
fn scheduled_encrypt_changes_the_state() {
    let (l0, r0, key) = scenario_blocks();
    let mut state = CipherState256::new(Block256::merge(&l0, &r0), key);
    let mut scheduler = RotatingKeyScheduler::new(1u128);
    state.encrypt_with_schedule::<NaiveWrappingAdd, RotatingKeyScheduler>(&mut scheduler, 4);
    let (l, r) = state.halves();
    assert!(l.data != l0.data || r.data != r0.data);
}

#[test]
fn scheduled_decrypt_in_call_order_is_no_inverse_for_varying_keys() {
    // With a schedule whose keys differ from round to round, a decryption
    // pass that consumes the re-derived keys in the same call order does
    // not undo the encryption: Feistel inversion needs the keys in
    // reverse order, and only a palindromic schedule reads the same both
    // ways.
    let (l0, r0, key) = scenario_blocks();
    let mut state = CipherState256::new(Block256::merge(&l0, &r0), key);
    let mut enc_sched = RotatingKeyScheduler::new(1u128);
    state.encrypt_with_schedule::<NaiveWrappingAdd, RotatingKeyScheduler>(&mut enc_sched, 2);
    let mut dec_sched = RotatingKeyScheduler::new(1u128);
    state.decrypt_with_schedule::<NaiveWrappingAdd, RotatingKeyScheduler>(&mut dec_sched, 2);
    let (l, r) = state.halves();
    assert!(l.data != l0.data || r.data != r0.data);
}

#[test]
fn scheduled_round_trip_with_constant_schedule() {
    // Rotating all-ones gives all-ones again, so the derived schedule is
    // constant and a forward-keyed decryption pass undoes encryption.
    let (l0, r0, key) = scenario_blocks();
    let mut state = CipherState256::new(Block256::merge(&l0, &r0), key);
    let mut enc_sched = RotatingKeyScheduler::new(u128::MAX);
    state.encrypt_with_schedule::<NaiveWrappingAdd, RotatingKeyScheduler>(&mut enc_sched, 8);
    let mut dec_sched = RotatingKeyScheduler::new(u128::MAX);
    state.decrypt_with_schedule::<NaiveWrappingAdd, RotatingKeyScheduler>(&mut dec_sched, 8);
    let (l, r) = state.halves();
    assert_eq!(l.data, l0.data);
    assert_eq!(r.data, r0.data);
}
