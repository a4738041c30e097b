//! Constraints for one round of the hash permutation, with the hash state in
//! the first `HASH_STATE_WIDTH` registers of a row and every other register
//! left unchanged by the step.
use vstd::prelude::*;
use crate::field::{self, MODULUS, TWO_ADIC_ORDER, all_elems, domain_root, fadd, fmul, fpow, fsub};
use crate::hasher::{self, ark_poly, ext_cycle, ext_value, inv_mds, mds, sbox, valid_extension};
use crate::polynom::{self, poly_eval};
use crate::{HASH_CYCLE_LENGTH, HASH_STATE_WIDTH, NUM_ROUND_CONSTANTS};

verus! {

/// Number of accumulator entries, at the front, that belong to constraints not
/// owned by any single instruction.
pub const NUM_AUX_CONSTRAINTS: usize = 2;

// CONSTRAINT MODEL
// ================================================================================================

/// The state after adding the forward constants to the hash state of `current`
/// and applying the S-box and the mixing layer.
pub open spec fn forward_half(current: Seq<u128>, ark: Seq<u128>) -> Seq<u128> {
    mds(sbox(Seq::new(HASH_STATE_WIDTH as nat, |i: int| fadd(current[i] as int, ark[i] as int) as u128)))
}

/// The state after undoing the mixing layer on the hash state of `next`,
/// applying the (forward) S-box and subtracting the backward constants.
pub open spec fn backward_half(next: Seq<u128>, ark: Seq<u128>) -> Seq<u128> {
    Seq::new(
        HASH_STATE_WIDTH as nat,
        |i: int|
            fsub(
                sbox(inv_mds(next.take(HASH_STATE_WIDTH as int)))[i] as int,
                ark[HASH_STATE_WIDTH + i] as int,
            ) as u128,
    )
}

/// The value of constraint `i` of a hash step from `current` to `next` with
/// round constants `ark`: the round check for the hash state, and the change
/// of the register for the other registers.
pub open spec fn constraint_value(current: Seq<u128>, next: Seq<u128>, ark: Seq<u128>, i: int) -> int {
    if i < HASH_STATE_WIDTH {
        fsub(backward_half(next, ark)[i] as int, forward_half(current, ark)[i] as int)
    } else {
        fsub(next[i] as int, current[i] as int)
    }
}

/// `acc` plus `value` gated by `flag`.
pub open spec fn contribution(acc: u128, value: int, flag: u128) -> u128 {
    fadd(acc as int, fmul(value, flag as int)) as u128
}

/// The accumulator `acc` after the constraints of the step are added to it,
/// each gated by `flag`, past the first `NUM_AUX_CONSTRAINTS` entries.
pub open spec fn accumulated(
    acc: Seq<u128>,
    current: Seq<u128>,
    next: Seq<u128>,
    ark: Seq<u128>,
    flag: u128,
) -> Seq<u128> {
    Seq::new(
        acc.len(),
        |k: int|
            if k < NUM_AUX_CONSTRAINTS {
                acc[k]
            } else {
                contribution(acc[k], constraint_value(current, next, ark, k - NUM_AUX_CONSTRAINTS), flag)
            },
    )
}

/// What `evaluate` and `evaluate_at` ask of the rows and the accumulator.
pub open spec fn valid_rows(current: Seq<u128>, next: Seq<u128>, flag: u128, acc: Seq<u128>) -> bool {
    &&& acc.len() >= NUM_AUX_CONSTRAINTS
    &&& current.len() >= HASH_STATE_WIDTH
    &&& next.len() >= HASH_STATE_WIDTH
    &&& current.len() >= acc.len() - NUM_AUX_CONSTRAINTS
    &&& next.len() >= acc.len() - NUM_AUX_CONSTRAINTS
    &&& all_elems(current)
    &&& all_elems(next)
    &&& all_elems(acc)
    &&& flag < MODULUS
}

/// The hash-state part followed by the register part of a step make up the
/// whole accumulation.
proof fn lemma_both_parts(
    before: Seq<u128>,
    mid: Seq<u128>,
    after: Seq<u128>,
    current: Seq<u128>,
    next: Seq<u128>,
    ark: Seq<u128>,
    flag: u128,
)
    requires
        before.len() >= NUM_AUX_CONSTRAINTS,
        mid.len() == before.len(),
        after.len() == before.len(),
        forall|k: int| 0 <= k < mid.len() ==> #[trigger] mid[k] == if NUM_AUX_CONSTRAINTS <= k
            < NUM_AUX_CONSTRAINTS + HASH_STATE_WIDTH {
            contribution(before[k], constraint_value(current, next, ark, k - NUM_AUX_CONSTRAINTS), flag)
        } else {
            before[k]
        },
        forall|k: int| 0 <= k < after.len() ==> #[trigger] after[k] == if NUM_AUX_CONSTRAINTS
            + HASH_STATE_WIDTH <= k {
            contribution(
                mid[k],
                fsub(next[k - NUM_AUX_CONSTRAINTS] as int, current[k - NUM_AUX_CONSTRAINTS] as int),
                flag,
            )
        } else {
            mid[k]
        },
    ensures
        after == accumulated(before, current, next, ark, flag),
{
    let acc = accumulated(before, current, next, ark, flag);
    assert forall|k: int| 0 <= k < after.len() implies after[k] == acc[k] by {
        if k >= NUM_AUX_CONSTRAINTS + HASH_STATE_WIDTH {
            assert(mid[k] == before[k]);
            assert(constraint_value(current, next, ark, k - NUM_AUX_CONSTRAINTS) == fsub(
                next[k - NUM_AUX_CONSTRAINTS] as int,
                current[k - NUM_AUX_CONSTRAINTS] as int,
            ));
        }
    }
    assert(after =~= acc);
}

/// Every entry of a state produced by the mixing layer is a field element.
proof fn lemma_row_dot_elem(m: Seq<u128>, i: int, s: Seq<u128>, n: nat)
    requires
        n > 0,
    ensures
        field::is_elem(hasher::row_dot(m, i, s, n)),
{
}

/// With the selector flag at zero a step adds nothing: the accumulator is left
/// as it was, whatever the rows and the round constants hold.
pub proof fn lemma_inactive_step_keeps_accumulator(
    acc: Seq<u128>,
    current: Seq<u128>,
    next: Seq<u128>,
    ark: Seq<u128>,
)
    requires
        all_elems(acc),
    ensures
        accumulated(acc, current, next, ark, 0) == acc,
{
    assert(accumulated(acc, current, next, ark, 0) =~= acc);
}

/// With the selector flag at one, the entry for hash-state position `i` is
/// left unchanged exactly when the backward and forward halves agree at `i`,
/// whatever holds at the other positions.
pub proof fn lemma_hash_position_zero_iff(
    acc: Seq<u128>,
    current: Seq<u128>,
    next: Seq<u128>,
    ark: Seq<u128>,
    i: int,
)
    requires
        all_elems(acc),
        0 <= i < HASH_STATE_WIDTH,
        NUM_AUX_CONSTRAINTS + i < acc.len(),
    ensures
        accumulated(acc, current, next, ark, 1)[NUM_AUX_CONSTRAINTS + i] == acc[NUM_AUX_CONSTRAINTS + i]
            <==> backward_half(next, ark)[i] == forward_half(current, ark)[i],
{
    let k = NUM_AUX_CONSTRAINTS + i;
    let s = sbox(Seq::new(HASH_STATE_WIDTH as nat, |t: int| fadd(current[t] as int, ark[t] as int) as u128));
    lemma_row_dot_elem(hasher::mds_spec(), i, s, HASH_STATE_WIDTH as nat);
    let b = backward_half(next, ark)[i] as int;
    let f = forward_half(current, ark)[i] as int;
    assert(field::is_elem(b));
    assert(field::is_elem(f));
    let d = fsub(b, f);
    assert(d == 0 <==> b == f);
    assert(fmul(d, 1) == d);
    assert(acc[k] < MODULUS);
    assert(fadd(acc[k] as int, d) == acc[k] <==> d == 0);
}

/// With the selector flag at one, the entry for a register past the hash
/// state is left unchanged exactly when the register keeps its value; for any
/// flag, the entry depends neither on the hash state nor on the round
/// constants.
pub proof fn lemma_frame_position(
    acc: Seq<u128>,
    current: Seq<u128>,
    next: Seq<u128>,
    ark: Seq<u128>,
    k: int,
)
    requires
        all_elems(acc),
        all_elems(current),
        all_elems(next),
        NUM_AUX_CONSTRAINTS + HASH_STATE_WIDTH <= k < acc.len(),
        current.len() >= acc.len() - NUM_AUX_CONSTRAINTS,
        next.len() >= acc.len() - NUM_AUX_CONSTRAINTS,
    ensures
        accumulated(acc, current, next, ark, 1)[k] == acc[k] <==> next[k - NUM_AUX_CONSTRAINTS]
            == current[k - NUM_AUX_CONSTRAINTS],
        forall|current2: Seq<u128>, next2: Seq<u128>, ark2: Seq<u128>, flag: u128|
            current2[k - NUM_AUX_CONSTRAINTS] == current[k - NUM_AUX_CONSTRAINTS] && next2[k
                - NUM_AUX_CONSTRAINTS] == next[k - NUM_AUX_CONSTRAINTS] ==> #[trigger] accumulated(
                acc,
                current2,
                next2,
                ark2,
                flag,
            )[k] == accumulated(acc, current, next, ark, flag)[k],
{
    let t = k - NUM_AUX_CONSTRAINTS;
    let d = fsub(next[t] as int, current[t] as int);
    assert(current[t] < MODULUS && next[t] < MODULUS);
    assert(d == 0 <==> next[t] == current[t]);
    assert(fmul(d, 1) == d);
    assert(acc[k] < MODULUS);
    assert(fadd(acc[k] as int, d) == acc[k] <==> d == 0);
}

/// The hash state of `next` is one round of the permutation applied to the
/// hash state of `current` with round constants `ark`: some state `mid` is
/// sent by the S-box to the forward half plus the backward constants (so `mid`
/// is the output of the inverse S-box), and by the mixing layer to the hash
/// state of `next`.
pub open spec fn is_round(current: Seq<u128>, next: Seq<u128>, ark: Seq<u128>) -> bool {
    exists|mid: Seq<u128>|
        {
            &&& mid.len() == HASH_STATE_WIDTH
            &&& all_elems(mid)
            &&& #[trigger] mds(mid) == next.take(HASH_STATE_WIDTH as int)
            &&& sbox(mid) == Seq::new(
                HASH_STATE_WIDTH as nat,
                |i: int| fadd(forward_half(current, ark)[i] as int, ark[HASH_STATE_WIDTH + i] as int) as u128,
            )
        }
}

/// For a genuine round with the selector flag at one, every hash-state entry
/// of the accumulator is left unchanged: the round's constraints are zero.
pub proof fn lemma_genuine_round_is_zero(acc: Seq<u128>, current: Seq<u128>, next: Seq<u128>, ark: Seq<u128>)
    requires
        all_elems(acc),
        all_elems(ark),
        ark.len() == NUM_ROUND_CONSTANTS,
        is_round(current, next, ark),
    ensures
        forall|i: int|
            0 <= i < HASH_STATE_WIDTH && NUM_AUX_CONSTRAINTS + i < acc.len() ==> #[trigger] accumulated(
                acc,
                current,
                next,
                ark,
                1,
            )[NUM_AUX_CONSTRAINTS + i] == acc[NUM_AUX_CONSTRAINTS + i],
{
    let mid = choose|mid: Seq<u128>|
        {
            &&& mid.len() == HASH_STATE_WIDTH
            &&& all_elems(mid)
            &&& #[trigger] mds(mid) == next.take(HASH_STATE_WIDTH as int)
            &&& sbox(mid) == Seq::new(
                HASH_STATE_WIDTH as nat,
                |i: int| fadd(forward_half(current, ark)[i] as int, ark[HASH_STATE_WIDTH + i] as int) as u128,
            )
        };
    hasher::lemma_inv_mds_undoes_mds(mid);
    assert forall|i: int|
        0 <= i < HASH_STATE_WIDTH && NUM_AUX_CONSTRAINTS + i < acc.len() implies #[trigger] accumulated(
            acc,
            current,
            next,
            ark,
            1,
        )[NUM_AUX_CONSTRAINTS + i] == acc[NUM_AUX_CONSTRAINTS + i] by {
        let s = sbox(Seq::new(HASH_STATE_WIDTH as nat, |t: int| fadd(current[t] as int, ark[t] as int) as u128));
        lemma_row_dot_elem(hasher::mds_spec(), i, s, HASH_STATE_WIDTH as nat);
        let f = forward_half(current, ark)[i] as int;
        let c = ark[HASH_STATE_WIDTH + i] as int;
        assert(field::is_elem(f));
        assert(c < MODULUS);
        assert(fsub(fadd(f, c), c) == f);
        assert(backward_half(next, ark)[i] == forward_half(current, ark)[i]);
        lemma_hash_position_zero_iff(acc, current, next, ark, i);
    }
}

// TYPES AND INTERFACES
// ================================================================================================

/// Evaluates the constraints of the hash instruction, with the round
/// constants precomputed over the extended cycle.
pub struct HashEvaluator {
    trace_length: usize,
    cycle_length: usize,
    ark_values: Vec<Vec<u128>>,
    ark_polys: Vec<Vec<u128>>,
}

impl HashEvaluator {
    /// The length of the trace.
    pub closed spec fn spec_trace_length(&self) -> nat {
        self.trace_length as nat
    }

    /// The length of the extended cycle of round constants.
    pub closed spec fn spec_cycle_length(&self) -> nat {
        self.cycle_length as nat
    }

    /// The round constants at step `step` of the extended trace.
    pub open spec fn constant_row(&self, step: nat) -> Seq<u128> {
        Seq::new(
            NUM_ROUND_CONSTANTS as nat,
            |j: int| ext_value(j, self.spec_cycle_length(), step % self.spec_cycle_length()) as u128,
        )
    }

    /// The number of round-constant cycles in the trace.
    pub open spec fn num_cycles(&self) -> nat {
        self.spec_trace_length() / HASH_CYCLE_LENGTH as nat
    }

    /// The round constants at an arbitrary point `x`.
    pub open spec fn constant_row_at(&self, x: int) -> Seq<u128> {
        Seq::new(
            NUM_ROUND_CONSTANTS as nat,
            |j: int| poly_eval(ark_poly(j), fpow(x, self.num_cycles())) as u128,
        )
    }

    /// The table holds, for each step of the extended cycle, the values of the
    /// round-constant polynomials there, and the polynomials are those of the
    /// round constants.
    pub closed spec fn wf(&self) -> bool {
        &&& self.cycle_length > 0
        &&& self.trace_length % HASH_CYCLE_LENGTH == 0
        &&& self.ark_values@.len() == self.cycle_length
        &&& forall|i: int| 0 <= i < self.cycle_length ==> (#[trigger] self.ark_values@[i])@
            == self.constant_row(i as nat)
        &&& forall|i: int| 0 <= i < self.cycle_length ==> all_elems(#[trigger] self.ark_values@[i]@)
        &&& self.ark_polys@.len() == NUM_ROUND_CONSTANTS
        &&& forall|j: int| 0 <= j < NUM_ROUND_CONSTANTS ==> (#[trigger] self.ark_polys@[j])@ == ark_poly(j)
        &&& forall|j: int| 0 <= j < NUM_ROUND_CONSTANTS ==> all_elems(#[trigger] self.ark_polys@[j]@)
    }

    /// Creates a new `HashEvaluator` for a trace of `trace_length` steps, with
    /// the evaluation domain extended by `extension_factor`.
    pub fn new(trace_length: usize, extension_factor: usize) -> (r: HashEvaluator)
        requires
            trace_length % HASH_CYCLE_LENGTH == 0,
            valid_extension(extension_factor as nat),
            ext_cycle(extension_factor as nat) <= usize::MAX,
        ensures
            r.wf(),
            r.spec_trace_length() == trace_length,
            r.spec_cycle_length() == ext_cycle(extension_factor as nat),
    {
        // extend round constants by the specified extension factor
        let (ark_polys, ark_evaluations) = hasher::get_extended_constants(extension_factor);

        // transpose round constant evaluations so that the constants for each
        // step are stored in a single row
        let cycle_length = HASH_CYCLE_LENGTH * extension_factor;
        let mut ark_values: Vec<Vec<u128>> = Vec::with_capacity(cycle_length);
        let mut i: usize = 0;
        while i < cycle_length
            invariant
                i <= cycle_length,
                cycle_length == ext_cycle(extension_factor as nat),
                ark_evaluations@.len() == NUM_ROUND_CONSTANTS,
                forall|j: int| 0 <= j < NUM_ROUND_CONSTANTS ==> (#[trigger] ark_evaluations@[j])@.len()
                    == cycle_length,
                forall|j: int, t: int| 0 <= j < NUM_ROUND_CONSTANTS && 0 <= t < cycle_length
                    ==> (#[trigger] ark_evaluations@[j]@[t]) == ext_value(j, cycle_length as nat, t as nat),
                forall|j: int| 0 <= j < NUM_ROUND_CONSTANTS ==> all_elems(#[trigger] ark_evaluations@[j]@),
                ark_values@.len() == i,
                forall|t: int| 0 <= t < i ==> (#[trigger] ark_values@[t])@.len() == NUM_ROUND_CONSTANTS,
                forall|t: int, j: int| 0 <= t < i && 0 <= j < NUM_ROUND_CONSTANTS
                    ==> (#[trigger] ark_values@[t]@[j]) == ext_value(j, cycle_length as nat, t as nat),
                forall|t: int| 0 <= t < i ==> all_elems(#[trigger] ark_values@[t]@),
            decreases cycle_length - i,
        {
            let mut row: Vec<u128> = Vec::with_capacity(NUM_ROUND_CONSTANTS);
            let mut j: usize = 0;
            while j < NUM_ROUND_CONSTANTS
                invariant
                    j <= NUM_ROUND_CONSTANTS,
                    i < cycle_length,
                    ark_evaluations@.len() == NUM_ROUND_CONSTANTS,
                    forall|c: int| 0 <= c < NUM_ROUND_CONSTANTS ==> (#[trigger] ark_evaluations@[c])@.len()
                        == cycle_length,
                    forall|c: int, t: int| 0 <= c < NUM_ROUND_CONSTANTS && 0 <= t < cycle_length
                        ==> (#[trigger] ark_evaluations@[c]@[t]) == ext_value(c, cycle_length as nat, t as nat),
                    forall|c: int| 0 <= c < NUM_ROUND_CONSTANTS ==> all_elems(#[trigger] ark_evaluations@[c]@),
                    row@.len() == j,
                    forall|c: int| 0 <= c < j ==> row@[c] == ext_value(c, cycle_length as nat, i as nat),
                    all_elems(row@),
                decreases NUM_ROUND_CONSTANTS - j,
            {
                assert(ark_evaluations@[j as int]@[i as int] < MODULUS);
                row.push(ark_evaluations[j][i]);
                j = j + 1;
            }
            ark_values.push(row);
            i = i + 1;
        }
        let r = HashEvaluator { trace_length, cycle_length, ark_values, ark_polys };
        proof {
            assert forall|t: int| 0 <= t < cycle_length implies (#[trigger] r.ark_values@[t])@
                == r.constant_row(t as nat) by {
                vstd::arithmetic::div_mod::lemma_small_mod(t as nat, cycle_length as nat);
                assert(r.ark_values@[t]@ =~= r.constant_row(t as nat));
            }
        }
        r
    }

    /// The round constants repeat with the extended cycle: steps `step` and
    /// `step` plus the cycle length read the same row, so `evaluate` adds the
    /// same values at both.
    pub proof fn lemma_constants_periodic(&self, step: nat)
        requires
            self.wf(),
        ensures
            self.constant_row(step) == self.constant_row(step + self.spec_cycle_length()),
    {
        let n = self.spec_cycle_length();
        vstd::arithmetic::div_mod::lemma_mod_add_multiples_vanish(step as int, n as int);
        assert(self.constant_row(step) =~= self.constant_row(step + n));
    }

    /// For an evaluator built with `extension_factor`, at a step of the
    /// extended trace, the slow path at the point that belongs to that step
    /// (the generator of the extended trace domain raised to the step) reads
    /// the same round constants as the fast path, so `evaluate_at` there adds
    /// the same values as `evaluate`.
    pub proof fn lemma_paths_agree(&self, extension_factor: nat, step: nat)
        requires
            self.wf(),
            self.spec_cycle_length() == ext_cycle(extension_factor),
            self.spec_trace_length() > 0,
            TWO_ADIC_ORDER as nat % (self.spec_trace_length() * extension_factor) == 0,
        ensures
            self.constant_row_at(fpow(domain_root(self.spec_trace_length() * extension_factor), step))
                == self.constant_row(step),
    {
        let n = self.spec_cycle_length();
        let c = self.num_cycles();
        let t = self.spec_trace_length();
        vstd::arithmetic::div_mod::lemma_fundamental_div_mod(t as int, HASH_CYCLE_LENGTH as int);
        assert(c > 0);
        assert(t * extension_factor == n * c) by (nonlinear_arith)
            requires
                t == HASH_CYCLE_LENGTH * c,
                n == HASH_CYCLE_LENGTH * extension_factor,
        ;
        assert(n > 0);
        field::lemma_domain_root_power(n, c, step);
        vstd::arithmetic::div_mod::lemma_mod_mod(TWO_ADIC_ORDER as int, n as int, c as int);
        assert(TWO_ADIC_ORDER as nat % n == 0) by {
            vstd::arithmetic::div_mod::lemma_mod_mod(TWO_ADIC_ORDER as int, n as int, c as int);
        }
        field::lemma_domain_root_periodic(n, step);
        let x = fpow(domain_root(n * c), step);
        assert(self.constant_row_at(x) =~= self.constant_row(step));
    }

    /// Evaluates the constraints at step `step` of the extended trace and adds
    /// the resulting values to `result`.
    pub fn evaluate(&self, current: &[u128], next: &[u128], step: usize, op_flag: u128, result: &mut [u128])
        requires
            self.wf(),
            valid_rows(current@, next@, op_flag, old(result)@),
        ensures
            final(result)@ == accumulated(old(result)@, current@, next@, self.constant_row(step as nat), op_flag),
    {
        let step_in_cycle = step % self.cycle_length;

        // determine round constants for the current step
        let ark = &self.ark_values[step_in_cycle];
        proof {
            let n = self.spec_cycle_length();
            vstd::arithmetic::div_mod::lemma_small_mod(step_in_cycle as nat, n);
            assert(ark@ == self.constant_row(step_in_cycle as nat));
            assert(self.constant_row(step_in_cycle as nat) =~= self.constant_row(step as nat));
        }

        // evaluate constraints for the hash function and for the rest of the stack
        let ghost before = result@;
        self.eval_hash(current, next, ark.as_slice(), op_flag, result, NUM_AUX_CONSTRAINTS);
        let ghost mid = result@;
        self.eval_rest(current, next, op_flag, result, NUM_AUX_CONSTRAINTS);
        proof {
            lemma_both_parts(before, mid, result@, current@, next@, ark@, op_flag);
        }
    }

    /// Evaluates the constraints at the point `x`, which need not lie in the
    /// evaluation domain, and adds the resulting values to `result`. The round
    /// constants are evaluated from their polynomials, which is much slower
    /// than `evaluate`.
    pub fn evaluate_at(&self, current: &[u128], next: &[u128], x: u128, op_flag: u128, result: &mut [u128])
        requires
            self.wf(),
            x < MODULUS,
            valid_rows(current@, next@, op_flag, old(result)@),
        ensures
            final(result)@ == accumulated(old(result)@, current@, next@, self.constant_row_at(x as int), op_flag),
    {
        // determine round constants at the specified x coordinate
        let num_cycles = (self.trace_length / HASH_CYCLE_LENGTH) as u128;
        let x_cycles = field::exp(x, num_cycles);
        let mut ark: Vec<u128> = Vec::with_capacity(NUM_ROUND_CONSTANTS);
        let mut i: usize = 0;
        while i < NUM_ROUND_CONSTANTS
            invariant
                self.wf(),
                i <= NUM_ROUND_CONSTANTS,
                x_cycles < MODULUS,
                ark@.len() == i,
                forall|j: int| 0 <= j < i ==> ark@[j] == poly_eval(ark_poly(j), x_cycles as int),
                all_elems(ark@),
            decreases NUM_ROUND_CONSTANTS - i,
        {
            let v = polynom::eval(self.ark_polys[i].as_slice(), x_cycles);
            ark.push(v);
            i = i + 1;
        }
        proof {
            assert(self.constant_row_at(x as int) =~= ark@);
        }

        // evaluate constraints for the hash function and for the rest of the stack
        let ghost before = result@;
        self.eval_hash(current, next, ark.as_slice(), op_flag, result, NUM_AUX_CONSTRAINTS);
        let ghost mid = result@;
        self.eval_rest(current, next, op_flag, result, NUM_AUX_CONSTRAINTS);
        proof {
            lemma_both_parts(before, mid, result@, current@, next@, ark@, op_flag);
        }
    }

    /// Evaluates the constraints of one round of the hash permutation and adds
    /// them to `result` from position `offset` on. The hash state is held in
    /// the first `HASH_STATE_WIDTH` registers.
    fn eval_hash(
        &self,
        current: &[u128],
        next: &[u128],
        ark: &[u128],
        op_flag: u128,
        result: &mut [u128],
        offset: usize,
    )
        requires
            current@.len() >= HASH_STATE_WIDTH,
            next@.len() >= HASH_STATE_WIDTH,
            ark@.len() == NUM_ROUND_CONSTANTS,
            all_elems(current@),
            all_elems(next@),
            all_elems(ark@),
            all_elems(old(result)@),
            op_flag < MODULUS,
            offset <= old(result)@.len(),
        ensures
            final(result)@.len() == old(result)@.len(),
            all_elems(final(result)@),
            forall|k: int| 0 <= k < final(result)@.len() ==> #[trigger] final(result)@[k] == if offset <= k
                < offset + HASH_STATE_WIDTH {
                contribution(old(result)@[k], constraint_value(current@, next@, ark@, k - offset), op_flag)
            } else {
                old(result)@[k]
            },
    {
        let ghost before = result@;
        let mut state_part1: Vec<u128> = Vec::with_capacity(HASH_STATE_WIDTH);
        let mut i: usize = 0;
        while i < HASH_STATE_WIDTH
            invariant
                i <= HASH_STATE_WIDTH,
                current@.len() >= HASH_STATE_WIDTH,
                ark@.len() == NUM_ROUND_CONSTANTS,
                all_elems(current@),
                all_elems(ark@),
                state_part1@.len() == i,
                forall|t: int| 0 <= t < i ==> state_part1@[t] == fadd(current@[t] as int, ark@[t] as int),
                all_elems(state_part1@),
            decreases HASH_STATE_WIDTH - i,
        {
            state_part1.push(field::add(current[i], ark[i]));
            i = i + 1;
        }
        proof {
            assert(state_part1@ =~= Seq::new(
                HASH_STATE_WIDTH as nat,
                |t: int| fadd(current@[t] as int, ark@[t] as int) as u128,
            ));
        }
        hasher::apply_sbox(&mut state_part1);
        hasher::apply_mds(&mut state_part1);

        let mut state_part2: Vec<u128> = Vec::with_capacity(HASH_STATE_WIDTH);
        let mut i: usize = 0;
        while i < HASH_STATE_WIDTH
            invariant
                i <= HASH_STATE_WIDTH,
                next@.len() >= HASH_STATE_WIDTH,
                all_elems(next@),
                state_part2@ == next@.take(i as int),
                all_elems(state_part2@),
            decreases HASH_STATE_WIDTH - i,
        {
            state_part2.push(next[i]);
            i = i + 1;
            proof {
                assert(state_part2@ =~= next@.take(i as int));
            }
        }
        hasher::apply_inv_mds(&mut state_part2);
        hasher::apply_sbox(&mut state_part2);
        let ghost mid = state_part2@;
        let mut i: usize = 0;
        while i < HASH_STATE_WIDTH
            invariant
                i <= HASH_STATE_WIDTH,
                ark@.len() == NUM_ROUND_CONSTANTS,
                all_elems(ark@),
                mid.len() == HASH_STATE_WIDTH,
                state_part2@.len() == HASH_STATE_WIDTH,
                forall|t: int| 0 <= t < i ==> state_part2@[t] == fsub(mid[t] as int, ark@[HASH_STATE_WIDTH + t] as int),
                forall|t: int| i <= t < HASH_STATE_WIDTH ==> state_part2@[t] == mid[t],
                all_elems(state_part2@),
            decreases HASH_STATE_WIDTH - i,
        {
            let v = field::sub(state_part2[i], ark[HASH_STATE_WIDTH + i]);
            state_part2.set(i, v);
            i = i + 1;
        }
        proof {
            assert(state_part2@ =~= backward_half(next@, ark@));
        }

        let total = result.len();
        let len = total - offset;
        let n = if len < HASH_STATE_WIDTH { len } else { HASH_STATE_WIDTH };
        let mut i: usize = 0;
        while i < n
            invariant
                i <= n,
                n <= HASH_STATE_WIDTH,
                offset + n <= total,
                total == before.len(),
                n == HASH_STATE_WIDTH || offset + n == total,
                op_flag < MODULUS,
                all_elems(before),
                all_elems(state_part1@),
                all_elems(state_part2@),
                state_part1@ == forward_half(current@, ark@),
                state_part2@ == backward_half(next@, ark@),
                result@.len() == before.len(),
                all_elems(result@),
                forall|k: int| 0 <= k < result@.len() ==> #[trigger] result@[k] == if offset <= k < offset + i {
                    contribution(before[k], constraint_value(current@, next@, ark@, k - offset), op_flag)
                } else {
                    before[k]
                },
            decreases n - i,
        {
            let evaluation = field::sub(state_part2[i], state_part1[i]);
            let v = field::add(result[offset + i], field::mul(evaluation, op_flag));
            result[offset + i] = v;
            i = i + 1;
        }
    }

    /// Evaluates the constraints for the registers that a hash step leaves
    /// unchanged and adds them to `result` from position `offset` on.
    fn eval_rest(&self, current: &[u128], next: &[u128], op_flag: u128, result: &mut [u128], offset: usize)
        requires
            offset <= old(result)@.len(),
            current@.len() >= old(result)@.len() - offset,
            next@.len() >= old(result)@.len() - offset,
            all_elems(current@),
            all_elems(next@),
            all_elems(old(result)@),
            op_flag < MODULUS,
        ensures
            final(result)@.len() == old(result)@.len(),
            all_elems(final(result)@),
            forall|k: int| 0 <= k < final(result)@.len() ==> #[trigger] final(result)@[k] == if offset
                + HASH_STATE_WIDTH <= k {
                contribution(old(result)@[k], fsub(next@[k - offset] as int, current@[k - offset] as int), op_flag)
            } else {
                old(result)@[k]
            },
    {
        let ghost before = result@;
        let total = result.len();
        let len = total - offset;
        let mut i: usize = HASH_STATE_WIDTH;
        if len < HASH_STATE_WIDTH {
            return;
        }
        while i < len
            invariant
                HASH_STATE_WIDTH <= i <= len,
                total == before.len(),
                len == total - offset,
                current@.len() >= len,
                next@.len() >= len,
                all_elems(current@),
                all_elems(next@),
                op_flag < MODULUS,
                all_elems(before),
                result@.len() == before.len(),
                all_elems(result@),
                forall|k: int| 0 <= k < result@.len() ==> #[trigger] result@[k] == if offset + HASH_STATE_WIDTH
                    <= k < offset + i {
                    contribution(before[k], fsub(next@[k - offset] as int, current@[k - offset] as int), op_flag)
                } else {
                    before[k]
                },
            decreases len - i,
        {
            let evaluation = field::sub(next[i], current[i]);
            let v = field::add(result[offset + i], field::mul(evaluation, op_flag));
            result[offset + i] = v;
            i = i + 1;
        }
    }
}

} // verus!
