use hash_constraints::field::{self, MODULUS};
use hash_constraints::hasher::{self, INV_ALPHA};
use hash_constraints::hashing::{HashEvaluator, NUM_AUX_CONSTRAINTS};
use hash_constraints::polynom;
use hash_constraints::{HASH_CYCLE_LENGTH, HASH_STATE_WIDTH, NUM_ROUND_CONSTANTS};

const REGISTERS: usize = 8;

fn constants_at(ext: usize, step: usize) -> Vec<u128> {
    let (_, evaluations) = hasher::get_extended_constants(ext);
    let n = HASH_CYCLE_LENGTH * ext;
    (0..NUM_ROUND_CONSTANTS).map(|j| evaluations[j][step % n]).collect()
}

fn sample_row(seed: u128) -> Vec<u128> {
    (0..REGISTERS as u128)
        .map(|i| (seed * 1_000_003 + i * 7_919 + 11) % MODULUS)
        .collect()
}

/// One round of the permutation: constants, S-box, mixing, constants,
/// inverse S-box, mixing. Registers past the hash state are copied.
fn apply_round(current: &[u128], ark: &[u128]) -> Vec<u128> {
    let mut state: Vec<u128> = (0..HASH_STATE_WIDTH).map(|i| field::add(current[i], ark[i])).collect();
    hasher::apply_sbox(&mut state);
    hasher::apply_mds(&mut state);
    for i in 0..HASH_STATE_WIDTH {
        state[i] = field::add(state[i], ark[HASH_STATE_WIDTH + i]);
        state[i] = field::exp(state[i], INV_ALPHA);
    }
    hasher::apply_mds(&mut state);
    let mut next = current.to_vec();
    next[..HASH_STATE_WIDTH].copy_from_slice(&state);
    next
}

/// Backward half minus forward half at each hash-state position.
fn hash_differences(current: &[u128], next: &[u128], ark: &[u128]) -> Vec<u128> {
    let mut forward: Vec<u128> = (0..HASH_STATE_WIDTH).map(|i| field::add(current[i], ark[i])).collect();
    hasher::apply_sbox(&mut forward);
    hasher::apply_mds(&mut forward);
    let mut backward = next[..HASH_STATE_WIDTH].to_vec();
    hasher::apply_inv_mds(&mut backward);
    hasher::apply_sbox(&mut backward);
    (0..HASH_STATE_WIDTH)
        .map(|i| field::sub(field::sub(backward[i], ark[HASH_STATE_WIDTH + i]), forward[i]))
        .collect()
}

fn accumulator() -> Vec<u128> {
    vec![0; NUM_AUX_CONSTRAINTS + REGISTERS]
}

#[test]
fn field_operations_wrap_around_the_modulus() {
    assert_eq!(field::add(MODULUS - 1, 5), 4);
    assert_eq!(field::sub(3, 5), MODULUS - 2);
    assert_eq!(field::sub(9, 4), 5);
    assert_eq!(field::mul(MODULUS - 1, MODULUS - 1), 1);
    assert_eq!(field::mul(1 << 32, 1 << 32), (1 << 32) - 1);
    assert_eq!(field::exp(3, 5), 243);
    assert_eq!(field::exp(7, 0), 1);
    assert_eq!(field::exp(2, 64), (1 << 32) - 1);
    let a = 123_456_789_u128;
    assert_eq!(field::mul(a, field::inv(a)), 1);
}

#[test]
fn inverse_sbox_undoes_sbox() {
    let x = 987_654_321_987_u128;
    assert_eq!(field::exp(field::exp(x, hasher::ALPHA), INV_ALPHA), x);
}

#[test]
fn roots_of_unity_have_the_requested_order() {
    let g = field::get_root_of_unity(8);
    assert_eq!(field::exp(g, 8), 1);
    assert_ne!(field::exp(g, 4), 1);
    let root = field::get_root_of_unity(1 << 32);
    assert_eq!(root, field::TWO_ADIC_ROOT);
}

#[test]
fn polynomial_evaluation_by_horner() {
    // 5 + 3x + 2x^2 at x = 10
    assert_eq!(polynom::eval(&[5, 3, 2], 10), 235);
    assert_eq!(polynom::eval(&[], 10), 0);
    assert_eq!(polynom::eval(&[MODULUS - 1, 1], 1), 0);
}

#[test]
fn mixing_layer_and_its_inverse_cancel() {
    let mut state = vec![1, 2, 3, 4];
    hasher::apply_mds(&mut state);
    assert_ne!(state, vec![1, 2, 3, 4]);
    hasher::apply_inv_mds(&mut state);
    assert_eq!(state, vec![1, 2, 3, 4]);
}

#[test]
fn sbox_raises_to_alpha() {
    let mut state = vec![2, 3, 0, 1];
    hasher::apply_sbox(&mut state);
    assert_eq!(state, vec![128, 2187, 0, 1]);
}

#[test]
fn unextended_constants_reproduce_the_table() {
    let (polys, evaluations) = hasher::get_extended_constants(1);
    assert_eq!(polys.len(), NUM_ROUND_CONSTANTS);
    assert_eq!(evaluations.len(), NUM_ROUND_CONSTANTS);
    assert_eq!(evaluations[0].len(), HASH_CYCLE_LENGTH);
    assert_eq!(evaluations[0][0], 6138614355786856583);
    assert_eq!(evaluations[0][1], 1869637489305578139);
    assert_eq!(evaluations[3][7], 1534356432222298084);
    assert_eq!(evaluations[7][7], 6310308745410623661);
}

#[test]
fn extended_constants_interleave_the_base_cycle() {
    let (_, base) = hasher::get_extended_constants(1);
    let (_, extended) = hasher::get_extended_constants(4);
    for j in 0..NUM_ROUND_CONSTANTS {
        assert_eq!(extended[j].len(), 4 * HASH_CYCLE_LENGTH);
        for i in 0..HASH_CYCLE_LENGTH {
            assert_eq!(extended[j][4 * i], base[j][i]);
        }
    }
}

#[test]
fn genuine_round_gives_zero_hash_constraints() {
    let evaluator = HashEvaluator::new(16, 1);
    for step in 0..16 {
        let current = sample_row(step as u128);
        let next = apply_round(&current, &constants_at(1, step));
        let mut result = accumulator();
        evaluator.evaluate(&current, &next, step, 1, &mut result);
        assert_eq!(result, accumulator());
    }
}

#[test]
fn perturbed_next_row_gives_the_recomputed_difference() {
    let evaluator = HashEvaluator::new(16, 1);
    let step = 3;
    let ark = constants_at(1, step);
    let current = sample_row(42);
    for i in 0..HASH_STATE_WIDTH {
        let mut next = apply_round(&current, &ark);
        next[i] = field::add(next[i], 1);
        let mut result = accumulator();
        evaluator.evaluate(&current, &next, step, 1, &mut result);
        let expected = hash_differences(&current, &next, &ark);
        assert_ne!(expected[i], 0);
        assert_ne!(result[NUM_AUX_CONSTRAINTS + i], 0);
        for k in 0..HASH_STATE_WIDTH {
            assert_eq!(result[NUM_AUX_CONSTRAINTS + k], expected[k]);
        }
        for k in HASH_STATE_WIDTH..REGISTERS {
            assert_eq!(result[NUM_AUX_CONSTRAINTS + k], 0);
        }
    }
}

#[test]
fn zero_flag_leaves_accumulator_unchanged() {
    let evaluator = HashEvaluator::new(16, 2);
    let current = sample_row(1);
    let next = sample_row(2);
    let before: Vec<u128> = (0..(NUM_AUX_CONSTRAINTS + REGISTERS) as u128).map(|i| i * 31 + 5).collect();
    let mut result = before.clone();
    evaluator.evaluate(&current, &next, 5, 0, &mut result);
    assert_eq!(result, before);
    evaluator.evaluate_at(&current, &next, 123_456, 0, &mut result);
    assert_eq!(result, before);
}

#[test]
fn contributions_add_to_what_is_there() {
    let evaluator = HashEvaluator::new(16, 1);
    let current = sample_row(7);
    let mut next = apply_round(&current, &constants_at(1, 2));
    next[HASH_STATE_WIDTH] = field::add(next[HASH_STATE_WIDTH], 10);
    let mut result: Vec<u128> = vec![100; NUM_AUX_CONSTRAINTS + REGISTERS];
    evaluator.evaluate(&current, &next, 2, 3, &mut result);
    let mut expected = vec![100; NUM_AUX_CONSTRAINTS + REGISTERS];
    expected[NUM_AUX_CONSTRAINTS + HASH_STATE_WIDTH] = 130;
    assert_eq!(result, expected);
}

#[test]
fn frame_constraints_are_register_differences() {
    let evaluator = HashEvaluator::new(16, 1);
    let current = sample_row(9);
    let mut next = current.clone();
    next[HASH_STATE_WIDTH + 1] = field::add(current[HASH_STATE_WIDTH + 1], 2);
    next[HASH_STATE_WIDTH + 3] = field::sub(current[HASH_STATE_WIDTH + 3], 1);
    let mut result = accumulator();
    evaluator.evaluate(&current, &next, 0, 1, &mut result);
    assert_eq!(result[NUM_AUX_CONSTRAINTS + HASH_STATE_WIDTH], 0);
    assert_eq!(result[NUM_AUX_CONSTRAINTS + HASH_STATE_WIDTH + 1], 2);
    assert_eq!(result[NUM_AUX_CONSTRAINTS + HASH_STATE_WIDTH + 2], 0);
    assert_eq!(result[NUM_AUX_CONSTRAINTS + HASH_STATE_WIDTH + 3], MODULUS - 1);

    // the hash state does not change the frame part
    let mut other_next = next.clone();
    other_next[0] = field::add(other_next[0], 77);
    let mut other = accumulator();
    evaluator.evaluate(&current, &other_next, 0, 1, &mut other);
    assert_eq!(other[NUM_AUX_CONSTRAINTS + HASH_STATE_WIDTH..], result[NUM_AUX_CONSTRAINTS + HASH_STATE_WIDTH..]);
}

#[test]
fn aux_entries_are_never_written() {
    let evaluator = HashEvaluator::new(8, 1);
    let current = sample_row(3);
    let next = sample_row(4);
    let mut result = vec![9; NUM_AUX_CONSTRAINTS + REGISTERS];
    evaluator.evaluate(&current, &next, 1, 1, &mut result);
    assert_eq!(result[..NUM_AUX_CONSTRAINTS], [9, 9]);
}

#[test]
fn short_accumulator_takes_a_prefix_of_the_constraints() {
    let evaluator = HashEvaluator::new(16, 1);
    let current = sample_row(5);
    let next = sample_row(6);
    let mut full = accumulator();
    evaluator.evaluate(&current, &next, 4, 1, &mut full);
    let mut short = vec![0; NUM_AUX_CONSTRAINTS + 2];
    evaluator.evaluate(&current, &next, 4, 1, &mut short);
    assert_eq!(short[..], full[..NUM_AUX_CONSTRAINTS + 2]);
}

#[test]
fn fast_and_slow_paths_agree_on_the_domain() {
    let trace_length = 16;
    let extension = 2;
    let evaluator = HashEvaluator::new(trace_length, extension);
    let g = field::get_root_of_unity(trace_length * extension);
    for step in 0..trace_length * extension {
        let current = sample_row(step as u128 + 100);
        let next = sample_row(step as u128 + 200);
        let mut fast = accumulator();
        evaluator.evaluate(&current, &next, step, 1, &mut fast);
        let mut slow = accumulator();
        evaluator.evaluate_at(&current, &next, field::exp(g, step as u128), 1, &mut slow);
        assert_eq!(fast, slow);
    }
}

#[test]
fn slow_path_vanishes_on_a_genuine_round() {
    let evaluator = HashEvaluator::new(16, 1);
    let g = field::get_root_of_unity(16);
    let step = 11;
    let current = sample_row(8);
    let next = apply_round(&current, &constants_at(1, step));
    let mut result = accumulator();
    evaluator.evaluate_at(&current, &next, field::exp(g, step as u128), 1, &mut result);
    assert_eq!(result, accumulator());
}

#[test]
fn constants_repeat_with_the_extended_cycle() {
    let evaluator = HashEvaluator::new(32, 2);
    let current = sample_row(12);
    let next = sample_row(13);
    for step in 0..16 {
        let mut first = accumulator();
        evaluator.evaluate(&current, &next, step, 1, &mut first);
        let mut later = accumulator();
        evaluator.evaluate(&current, &next, step + 16, 1, &mut later);
        assert_eq!(first, later);
    }
}
