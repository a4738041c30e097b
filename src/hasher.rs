//! The permutation's building blocks: its constants, the nonlinear layer (an
//! S-box raising each element to `ALPHA`), the linear mixing layer and its
//! inverse, and the periodic round-constant polynomials.
use vstd::prelude::*;
use crate::field::{self, MODULUS, TWO_ADIC_ORDER, all_elems, domain_root, fadd, fmul, fpow};
use crate::polynom::{self, poly_eval};

verus! {

/// Number of field elements in the hash state.
pub const STATE_WIDTH: usize = 4;

/// Number of steps after which the round constants repeat.
pub const CYCLE_LENGTH: usize = 8;

/// Number of round-constant columns: forward and backward constants for each
/// element of the state.
pub const NUM_ROUND_CONSTANTS: usize = 8;

/// Exponent of the S-box.
pub const ALPHA: u128 = 7;

/// Exponent of the inverse S-box: `ALPHA * INV_ALPHA == 1` modulo `MODULUS - 1`.
pub const INV_ALPHA: u128 = 10540996611094048183;

/// The mixing matrix, row by row.
pub open spec fn mds_spec() -> Seq<u128> {
    seq![
        4611686017353646080u128, 3689348813882916864u128, 3074457344902430720u128, 15811494916641072275u128,
        6148914689804861440u128, 4611686017353646080u128, 3689348813882916864u128, 3074457344902430720u128,
        9223372034707292160u128, 6148914689804861440u128, 4611686017353646080u128, 3689348813882916864u128,
        18446744069414584320u128, 9223372034707292160u128, 6148914689804861440u128, 4611686017353646080u128
    ]
}

/// The inverse of the mixing matrix, row by row.
pub open spec fn inv_mds_spec() -> Seq<u128> {
    seq![
        140u128, 18446744069414584081u128, 120u128, 18446744069414584305u128,
        18446744069414582641u128, 2700u128, 18446744069414583121u128, 120u128,
        4200u128, 18446744069414577841u128, 2700u128, 18446744069414584081u128,
        18446744069414581521u128, 4200u128, 18446744069414582641u128, 140u128
    ]
}

/// The round constants, column by column: column `j` holds the value of
/// constant `j` at each of the `CYCLE_LENGTH` steps of a cycle. Columns below
/// `STATE_WIDTH` are the forward constants, the others the backward ones.
pub open spec fn ark_spec() -> Seq<u128> {
    seq![
        6138614355786856583u128, 1869637489305578139u128, 10765646551774685885u128, 18035239560432613209u128,
        9536895183042358088u128, 10687764160302979257u128, 2769939686159502614u128, 7899540235366026215u128,
        14488540096801517091u128, 6560202864371618791u128, 11846276326773474232u128, 10708055848504590247u128,
        16306307263774738266u128, 14482182468921174529u128, 14857465597968490989u128, 16094573162826939053u128,
        3212676534875824196u128, 10228461516054996687u128, 9455450928151513947u128, 263408168486504635u128,
        9630232142287107119u128, 4888266396451690532u128, 1505832731007618840u128, 1796390010115715377u128,
        12962538044598246922u128, 14004829537388062732u128, 12405924365105729485u128, 12074825531076167062u128,
        11047666725826142464u128, 7525098143589799779u128, 2406370532546471167u128, 1534356432222298084u128,
        683927220190154911u128, 12431701680544383676u128, 2007767309413389806u128, 10521542795728288527u128,
        4763890236523090738u128, 4603758135551119613u128, 4663762891293314562u128, 12476408676380841037u128,
        1509150057981000427u128, 9577493191115239322u128, 14580274300736442470u128, 2761572106345782668u128,
        17234058256741913249u128, 8289422200396595908u128, 11906153361113813868u128, 7229108740370869485u128,
        8745758944722888409u128, 17006644141694120145u128, 1149297066509310589u128, 13051799212324865743u128,
        15709905853953986558u128, 9303949696396610311u128, 1222276078211902878u128, 13869100446552136733u128,
        6607094536617324995u128, 9911554500083752599u128, 16134691677542612534u128, 17799434695025387995u128,
        8021617346938410805u128, 10044822521087908009u128, 17490540639452711271u128, 6310308745410623661u128
    ]
}

fn mds_matrix() -> (r: [u128; 16])
    ensures
        r@ == mds_spec(),
        all_elems(r@),
{
    let t: [u128; 16] = [
        4611686017353646080, 3689348813882916864, 3074457344902430720, 15811494916641072275,
        6148914689804861440, 4611686017353646080, 3689348813882916864, 3074457344902430720,
        9223372034707292160, 6148914689804861440, 4611686017353646080, 3689348813882916864,
        18446744069414584320, 9223372034707292160, 6148914689804861440, 4611686017353646080
    ];
    proof {
        assert(t@ =~= mds_spec());
    }
    t
}

fn inv_mds_matrix() -> (r: [u128; 16])
    ensures
        r@ == inv_mds_spec(),
        all_elems(r@),
{
    let t: [u128; 16] = [
        140, 18446744069414584081, 120, 18446744069414584305,
        18446744069414582641, 2700, 18446744069414583121, 120,
        4200, 18446744069414577841, 2700, 18446744069414584081,
        18446744069414581521, 4200, 18446744069414582641, 140
    ];
    proof {
        assert(t@ =~= inv_mds_spec());
    }
    t
}

fn round_constants() -> (r: [u128; 64])
    ensures
        r@ == ark_spec(),
        all_elems(r@),
{
    let t: [u128; 64] = [
        6138614355786856583, 1869637489305578139, 10765646551774685885, 18035239560432613209,
        9536895183042358088, 10687764160302979257, 2769939686159502614, 7899540235366026215,
        14488540096801517091, 6560202864371618791, 11846276326773474232, 10708055848504590247,
        16306307263774738266, 14482182468921174529, 14857465597968490989, 16094573162826939053,
        3212676534875824196, 10228461516054996687, 9455450928151513947, 263408168486504635,
        9630232142287107119, 4888266396451690532, 1505832731007618840, 1796390010115715377,
        12962538044598246922, 14004829537388062732, 12405924365105729485, 12074825531076167062,
        11047666725826142464, 7525098143589799779, 2406370532546471167, 1534356432222298084,
        683927220190154911, 12431701680544383676, 2007767309413389806, 10521542795728288527,
        4763890236523090738, 4603758135551119613, 4663762891293314562, 12476408676380841037,
        1509150057981000427, 9577493191115239322, 14580274300736442470, 2761572106345782668,
        17234058256741913249, 8289422200396595908, 11906153361113813868, 7229108740370869485,
        8745758944722888409, 17006644141694120145, 1149297066509310589, 13051799212324865743,
        15709905853953986558, 9303949696396610311, 1222276078211902878, 13869100446552136733,
        6607094536617324995, 9911554500083752599, 16134691677542612534, 17799434695025387995,
        8021617346938410805, 10044822521087908009, 17490540639452711271, 6310308745410623661
    ];
    proof {
        assert(t@ =~= ark_spec());
    }
    t
}

/// The nonlinear layer: every element raised to `ALPHA`.
pub open spec fn sbox(s: Seq<u128>) -> Seq<u128> {
    Seq::new(s.len(), |i: int| fpow(s[i] as int, ALPHA as nat) as u128)
}

/// The first `n` terms of the dot product of row `i` of the square matrix `m`
/// with `s`.
pub open spec fn row_dot(m: Seq<u128>, i: int, s: Seq<u128>, n: nat) -> int
    decreases n,
{
    if n == 0 {
        0
    } else {
        fadd(
            row_dot(m, i, s, (n - 1) as nat),
            fmul(m[i * STATE_WIDTH + n - 1] as int, s[n - 1] as int),
        )
    }
}

/// The product of the `STATE_WIDTH` by `STATE_WIDTH` matrix `m` with `s`.
pub open spec fn mat_apply(m: Seq<u128>, s: Seq<u128>) -> Seq<u128> {
    Seq::new(STATE_WIDTH as nat, |i: int| row_dot(m, i, s, STATE_WIDTH as nat) as u128)
}

/// The linear mixing layer.
pub open spec fn mds(s: Seq<u128>) -> Seq<u128> {
    mat_apply(mds_spec(), s)
}

/// The inverse of the linear mixing layer.
pub open spec fn inv_mds(s: Seq<u128>) -> Seq<u128> {
    mat_apply(inv_mds_spec(), s)
}

/// Applies the nonlinear layer to `state` in place.
pub fn apply_sbox(state: &mut Vec<u128>)
    requires
        old(state)@.len() == STATE_WIDTH,
        all_elems(old(state)@),
    ensures
        final(state)@ == sbox(old(state)@),
        all_elems(final(state)@),
{
    let ghost before = state@;
    let mut i: usize = 0;
    while i < STATE_WIDTH
        invariant
            i <= STATE_WIDTH,
            state@.len() == STATE_WIDTH,
            before.len() == STATE_WIDTH,
            all_elems(before),
            forall|k: int| 0 <= k < i ==> state@[k] == sbox(before)[k],
            forall|k: int| i <= k < STATE_WIDTH ==> state@[k] == before[k],
            all_elems(state@),
        decreases STATE_WIDTH - i,
    {
        let v = field::exp(state[i], ALPHA);
        state.set(i, v);
        i = i + 1;
    }
    proof {
        assert(state@ =~= sbox(before));
    }
}

fn apply_matrix(m: &[u128; 16], state: &mut Vec<u128>)
    requires
        old(state)@.len() == STATE_WIDTH,
        all_elems(old(state)@),
        all_elems(m@),
    ensures
        final(state)@ == mat_apply(m@, old(state)@),
        all_elems(final(state)@),
{
    let mut out: Vec<u128> = Vec::new();
    let mut i: usize = 0;
    while i < STATE_WIDTH
        invariant
            i <= STATE_WIDTH,
            state@.len() == STATE_WIDTH,
            all_elems(state@),
            all_elems(m@),
            out@.len() == i,
            forall|k: int| 0 <= k < i ==> out@[k] == mat_apply(m@, state@)[k],
            all_elems(out@),
        decreases STATE_WIDTH - i,
    {
        let mut acc: u128 = 0;
        let mut j: usize = 0;
        while j < STATE_WIDTH
            invariant
                i < STATE_WIDTH,
                j <= STATE_WIDTH,
                state@.len() == STATE_WIDTH,
                all_elems(state@),
                all_elems(m@),
                acc < MODULUS,
                acc == row_dot(m@, i as int, state@, j as nat),
            decreases STATE_WIDTH - j,
        {
            let e = field::mul(m[i * STATE_WIDTH + j], state[j]);
            acc = field::add(acc, e);
            j = j + 1;
        }
        out.push(acc);
        i = i + 1;
    }
    proof {
        assert(out@ =~= mat_apply(m@, state@));
    }
    *state = out;
}

/// Applies the linear mixing layer to `state` in place.
pub fn apply_mds(state: &mut Vec<u128>)
    requires
        old(state)@.len() == STATE_WIDTH,
        all_elems(old(state)@),
    ensures
        final(state)@ == mds(old(state)@),
        all_elems(final(state)@),
{
    let m = mds_matrix();
    apply_matrix(&m, state);
}

/// Applies the inverse of the linear mixing layer to `state` in place.
pub fn apply_inv_mds(state: &mut Vec<u128>)
    requires
        old(state)@.len() == STATE_WIDTH,
        all_elems(old(state)@),
    ensures
        final(state)@ == inv_mds(old(state)@),
        all_elems(final(state)@),
{
    let m = inv_mds_matrix();
    apply_matrix(&m, state);
}

/// The values of round constant `j` over one cycle.
pub open spec fn ark_column(j: int) -> Seq<u128> {
    ark_spec().subrange(j * CYCLE_LENGTH, j * CYCLE_LENGTH + CYCLE_LENGTH)
}

/// `sum of col[i] * w^i` over `i < n`.
pub open spec fn weighted_sum(col: Seq<u128>, w: int, n: nat) -> int
    decreases n,
{
    if n == 0 {
        0
    } else {
        fadd(weighted_sum(col, w, (n - 1) as nat), fmul(col[n - 1] as int, fpow(w, (n - 1) as nat)))
    }
}

/// The inverse of the generator of the cycle's subgroup.
pub open spec fn cycle_root_inv() -> int {
    fpow(domain_root(CYCLE_LENGTH as nat), (CYCLE_LENGTH - 1) as nat)
}

/// Coefficient `k` of the polynomial that interpolates round constant `j` over
/// the cycle's subgroup (the inverse discrete Fourier transform of its column).
pub open spec fn interp_coeff(j: int, k: int) -> int {
    fmul(
        fpow(CYCLE_LENGTH as int, (MODULUS - 2) as nat),
        weighted_sum(ark_column(j), fpow(cycle_root_inv(), k as nat), CYCLE_LENGTH as nat),
    )
}

/// The coefficients of the polynomial of round constant `j`.
pub open spec fn ark_poly(j: int) -> Seq<u128> {
    Seq::new(CYCLE_LENGTH as nat, |k: int| interp_coeff(j, k) as u128)
}

/// The size of the extended cycle for extension factor `ext`.
pub open spec fn ext_cycle(ext: nat) -> nat {
    CYCLE_LENGTH as nat * ext
}

/// Whether the round-constant polynomials can be extended by `ext`: the
/// extended cycle is a subgroup size of the field.
pub open spec fn valid_extension(ext: nat) -> bool {
    ext > 0 && TWO_ADIC_ORDER as nat % ext_cycle(ext) == 0
}

/// The value of round constant `j` at step `i` of the extended cycle of size `n`.
pub open spec fn ext_value(j: int, n: nat, i: nat) -> int {
    poly_eval(ark_poly(j), fpow(domain_root(n), i))
}

fn interpolate_column(ark: &[u128; 64], j: usize, inv_root: u128, inv_n: u128) -> (r: Vec<u128>)
    requires
        ark@ == ark_spec(),
        all_elems(ark@),
        j < NUM_ROUND_CONSTANTS,
        inv_root == cycle_root_inv(),
        inv_n == fpow(CYCLE_LENGTH as int, (MODULUS - 2) as nat),
    ensures
        r@ == ark_poly(j as int),
        all_elems(r@),
{
    let ghost col = ark_column(j as int);
    proof {
        field::lemma_fpow_range(CYCLE_LENGTH as int, (MODULUS - 2) as nat);
        field::lemma_fpow_range(domain_root(CYCLE_LENGTH as nat), (CYCLE_LENGTH - 1) as nat);
    }
    let mut coeffs: Vec<u128> = Vec::new();
    let mut k: usize = 0;
    while k < CYCLE_LENGTH
        invariant
            k <= CYCLE_LENGTH,
            j < NUM_ROUND_CONSTANTS,
            ark@ == ark_spec(),
            all_elems(ark@),
            col == ark_column(j as int),
            inv_root == cycle_root_inv(),
            inv_root < MODULUS,
            inv_n < MODULUS,
            inv_n == fpow(CYCLE_LENGTH as int, (MODULUS - 2) as nat),
            coeffs@.len() == k,
            forall|t: int| 0 <= t < k ==> coeffs@[t] == ark_poly(j as int)[t],
            all_elems(coeffs@),
        decreases CYCLE_LENGTH - k,
    {
        let w = field::exp(inv_root, k as u128);
        let mut sum: u128 = 0;
        let mut pw: u128 = 1;
        let mut i: usize = 0;
        while i < CYCLE_LENGTH
            invariant
                i <= CYCLE_LENGTH,
                k < CYCLE_LENGTH,
                j < NUM_ROUND_CONSTANTS,
                ark@ == ark_spec(),
                all_elems(ark@),
                col == ark_column(j as int),
                w < MODULUS,
                pw < MODULUS,
                sum < MODULUS,
                pw == fpow(w as int, i as nat),
                sum == weighted_sum(col, w as int, i as nat),
            decreases CYCLE_LENGTH - i,
        {
            assert(col[i as int] == ark@[j * CYCLE_LENGTH + i]);
            let term = field::mul(ark[j * CYCLE_LENGTH + i], pw);
            sum = field::add(sum, term);
            proof {
                field::lemma_fmul_comm(pw as int, w as int);
            }
            pw = field::mul(pw, w);
            i = i + 1;
        }
        let c = field::mul(inv_n, sum);
        coeffs.push(c);
        k = k + 1;
    }
    proof {
        assert(coeffs@ =~= ark_poly(j as int));
    }
    coeffs
}

fn evaluate_over_domain(poly: &Vec<u128>, g: u128, n: usize) -> (r: Vec<u128>)
    requires
        all_elems(poly@),
        g < MODULUS,
    ensures
        r@.len() == n,
        forall|i: int| 0 <= i < n ==> r@[i] == poly_eval(poly@, fpow(g as int, i as nat)),
        all_elems(r@),
{
    let mut out: Vec<u128> = Vec::new();
    let mut pw: u128 = 1;
    let mut i: usize = 0;
    while i < n
        invariant
            i <= n,
            all_elems(poly@),
            g < MODULUS,
            pw < MODULUS,
            pw == fpow(g as int, i as nat),
            out@.len() == i,
            forall|t: int| 0 <= t < i ==> out@[t] == poly_eval(poly@, fpow(g as int, t as nat)),
            all_elems(out@),
        decreases n - i,
    {
        let v = polynom::eval(poly.as_slice(), pw);
        out.push(v);
        proof {
            field::lemma_fmul_comm(pw as int, g as int);
        }
        pw = field::mul(pw, g);
        i = i + 1;
    }
    out
}

/// Returns the round-constant polynomials (one per constant, in coefficient
/// form) and their values over the cycle extended by `ext`, column by column.
pub fn get_extended_constants(ext: usize) -> (r: (Vec<Vec<u128>>, Vec<Vec<u128>>))
    requires
        valid_extension(ext as nat),
        ext_cycle(ext as nat) <= usize::MAX,
    ensures
        r.0@.len() == NUM_ROUND_CONSTANTS,
        r.1@.len() == NUM_ROUND_CONSTANTS,
        forall|j: int| 0 <= j < NUM_ROUND_CONSTANTS ==> (#[trigger] r.0@[j])@ == ark_poly(j),
        forall|j: int| 0 <= j < NUM_ROUND_CONSTANTS ==> (#[trigger] r.1@[j])@.len() == ext_cycle(ext as nat),
        forall|j: int, i: int| 0 <= j < NUM_ROUND_CONSTANTS && 0 <= i < ext_cycle(ext as nat)
            ==> (#[trigger] r.1@[j]@[i]) == ext_value(j, ext_cycle(ext as nat), i as nat),
        forall|j: int| 0 <= j < NUM_ROUND_CONSTANTS ==> all_elems(#[trigger] r.0@[j]@),
        forall|j: int| 0 <= j < NUM_ROUND_CONSTANTS ==> all_elems(#[trigger] r.1@[j]@),
{
    let n = CYCLE_LENGTH * ext;
    let ark = round_constants();
    let root = field::get_root_of_unity(CYCLE_LENGTH);
    let inv_root = field::exp(root, (CYCLE_LENGTH - 1) as u128);
    let inv_n = field::inv(CYCLE_LENGTH as u128);
    let g = field::get_root_of_unity(n);
    let mut polys: Vec<Vec<u128>> = Vec::new();
    let mut evals: Vec<Vec<u128>> = Vec::new();
    let mut j: usize = 0;
    while j < NUM_ROUND_CONSTANTS
        invariant
            j <= NUM_ROUND_CONSTANTS,
            n == ext_cycle(ext as nat),
            ark@ == ark_spec(),
            all_elems(ark@),
            inv_root == cycle_root_inv(),
            inv_n == fpow(CYCLE_LENGTH as int, (MODULUS - 2) as nat),
            g == domain_root(n as nat),
            g < MODULUS,
            polys@.len() == j,
            evals@.len() == j,
            forall|t: int| 0 <= t < j ==> (#[trigger] polys@[t])@ == ark_poly(t),
            forall|t: int| 0 <= t < j ==> (#[trigger] evals@[t])@.len() == n,
            forall|t: int, i: int| 0 <= t < j && 0 <= i < n
                ==> (#[trigger] evals@[t]@[i]) == ext_value(t, n as nat, i as nat),
            forall|t: int| 0 <= t < j ==> all_elems(#[trigger] polys@[t]@),
            forall|t: int| 0 <= t < j ==> all_elems(#[trigger] evals@[t]@),
        decreases NUM_ROUND_CONSTANTS - j,
    {
        let poly = interpolate_column(&ark, j, inv_root, inv_n);
        let ev = evaluate_over_domain(&poly, g, n);
        polys.push(poly);
        evals.push(ev);
        j = j + 1;
    }
    (polys, evals)
}

/// The first `n` terms of the integer dot product of row `i` of `m` with `v`.
spec fn lin(m: Seq<u128>, i: int, v: spec_fn(int) -> int, n: nat) -> int
    decreases n,
{
    if n == 0 {
        0
    } else {
        lin(m, i, v, (n - 1) as nat) + m[i * STATE_WIDTH + n - 1] * v(n - 1)
    }
}

proof fn lemma_row_dot_lin(m: Seq<u128>, i: int, s: Seq<u128>, n: nat)
    ensures
        row_dot(m, i, s, n) == lin(m, i, |j: int| s[j] as int, n) % (MODULUS as int),
    decreases n,
{
    if n > 0 {
        let mm = MODULUS as int;
        lemma_row_dot_lin(m, i, s, (n - 1) as nat);
        let a = lin(m, i, |j: int| s[j] as int, (n - 1) as nat);
        let b = m[i * STATE_WIDTH + n - 1] * s[n - 1];
        vstd::arithmetic::div_mod::lemma_add_mod_noop(a, b, mm);
        vstd::arithmetic::div_mod::lemma_mod_twice(a, mm);
        vstd::arithmetic::div_mod::lemma_mod_twice(b, mm);
    }
}

proof fn lemma_lin_congruent(m: Seq<u128>, i: int, v: spec_fn(int) -> int, w: spec_fn(int) -> int, n: nat)
    requires
        forall|j: int| 0 <= j < n ==> #[trigger] v(j) % (MODULUS as int) == w(j) % (MODULUS as int),
    ensures
        lin(m, i, v, n) % (MODULUS as int) == lin(m, i, w, n) % (MODULUS as int),
    decreases n,
{
    if n > 0 {
        let mm = MODULUS as int;
        let k = n - 1;
        lemma_lin_congruent(m, i, v, w, (n - 1) as nat);
        let c = m[i * STATE_WIDTH + k] as int;
        vstd::arithmetic::div_mod::lemma_mul_mod_noop_right(c, v(k), mm);
        vstd::arithmetic::div_mod::lemma_mul_mod_noop_right(c, w(k), mm);
        vstd::arithmetic::div_mod::lemma_add_mod_noop(lin(m, i, v, (n - 1) as nat), c * v(k), mm);
        vstd::arithmetic::div_mod::lemma_add_mod_noop(lin(m, i, w, (n - 1) as nat), c * w(k), mm);
    }
}

proof fn lemma_lin_full(m: Seq<u128>, i: int, v: spec_fn(int) -> int)
    ensures
        lin(m, i, v, STATE_WIDTH as nat) == m[i * 4] * v(0) + m[i * 4 + 1] * v(1) + m[i * 4 + 2] * v(2)
            + m[i * 4 + 3] * v(3),
{
    reveal_with_fuel(lin, 5);
}

proof fn lemma_mix_entries(y: Seq<u128>, i: int)
    requires
        y.len() == STATE_WIDTH,
        all_elems(y),
        0 <= i < STATE_WIDTH,
    ensures
        lin(inv_mds_spec(), i, |k: int| lin(mds_spec(), k, |j: int| y[j] as int, STATE_WIDTH as nat), STATE_WIDTH as nat)
            % (MODULUS as int) == y[i] as int,
{
    let yv = |j: int| y[j] as int;
    let l = |k: int| lin(mds_spec(), k, yv, STATE_WIDTH as nat);
    let y0 = y[0] as int;
    let y1 = y[1] as int;
    let y2 = y[2] as int;
    let y3 = y[3] as int;
    lemma_lin_full(inv_mds_spec(), i, l);
    lemma_lin_full(mds_spec(), 0, yv);
    lemma_lin_full(mds_spec(), 1, yv);
    lemma_lin_full(mds_spec(), 2, yv);
    lemma_lin_full(mds_spec(), 3, yv);
    let mm = MODULUS as int;
    if i == 0 {
        assert(140 * (4611686017353646080 * y0 + 3689348813882916864 * y1 + 3074457344902430720 * y2 + 15811494916641072275 * y3) + 18446744069414584081 * (6148914689804861440 * y0 + 4611686017353646080 * y1 + 3689348813882916864 * y2 + 3074457344902430720 * y3) + 120 * (9223372034707292160 * y0 + 6148914689804861440 * y1 + 4611686017353646080 * y2 + 3689348813882916864 * y3) + 18446744069414584305 * (18446744069414584320 * y0 + 9223372034707292160 * y1 + 6148914689804861440 * y2 + 4611686017353646080 * y3) == y0 + 18446744069414584321 * ((24595658759219445759) * y0 + (13835058052060938240) * y1 + (9838263503687778304) * y2 + (7686143362256076900) * y3));
        vstd::arithmetic::div_mod::lemma_mod_multiples_vanish((24595658759219445759) * y0 + (13835058052060938240) * y1 + (9838263503687778304) * y2 + (7686143362256076900) * y3, y0, MODULUS as int);
    } else if i == 1 {
        assert(18446744069414582641 * (4611686017353646080 * y0 + 3689348813882916864 * y1 + 3074457344902430720 * y2 + 15811494916641072275 * y3) + 2700 * (6148914689804861440 * y0 + 4611686017353646080 * y1 + 3689348813882916864 * y2 + 3074457344902430720 * y3) + 18446744069414583121 * (9223372034707292160 * y0 + 6148914689804861440 * y1 + 4611686017353646080 * y2 + 3689348813882916864 * y3) + 120 * (18446744069414584320 * y0 + 9223372034707292160 * y1 + 6148914689804861440 * y2 + 4611686017353646080 * y3) == y1 + 18446744069414584321 * ((13835058052060938240) * y0 + (9838263503687778303) * y1 + (7686143362256076800) * y2 + (19500843730523987939) * y3));
        vstd::arithmetic::div_mod::lemma_mod_multiples_vanish((13835058052060938240) * y0 + (9838263503687778303) * y1 + (7686143362256076800) * y2 + (19500843730523987939) * y3, y1, MODULUS as int);
    } else if i == 2 {
        assert(4200 * (4611686017353646080 * y0 + 3689348813882916864 * y1 + 3074457344902430720 * y2 + 15811494916641072275 * y3) + 18446744069414577841 * (6148914689804861440 * y0 + 4611686017353646080 * y1 + 3689348813882916864 * y2 + 3074457344902430720 * y3) + 2700 * (9223372034707292160 * y0 + 6148914689804861440 * y1 + 4611686017353646080 * y2 + 3689348813882916864 * y3) + 18446744069414584081 * (18446744069414584320 * y0 + 9223372034707292160 * y1 + 6148914689804861440 * y2 + 4611686017353646080 * y3) == y2 + 18446744069414584321 * ((24595658759219445760) * y0 + (13835058052060938240) * y1 + (9838263503687778303) * y2 + (7686143362256079800) * y3));
        vstd::arithmetic::div_mod::lemma_mod_multiples_vanish((24595658759219445760) * y0 + (13835058052060938240) * y1 + (9838263503687778303) * y2 + (7686143362256079800) * y3, y2, MODULUS as int);
    } else {
        assert(18446744069414581521 * (4611686017353646080 * y0 + 3689348813882916864 * y1 + 3074457344902430720 * y2 + 15811494916641072275 * y3) + 4200 * (6148914689804861440 * y0 + 4611686017353646080 * y1 + 3689348813882916864 * y2 + 3074457344902430720 * y3) + 18446744069414582641 * (9223372034707292160 * y0 + 6148914689804861440 * y1 + 4611686017353646080 * y2 + 3689348813882916864 * y3) + 140 * (18446744069414584320 * y0 + 9223372034707292160 * y1 + 6148914689804861440 * y2 + 4611686017353646080 * y3) == y3 + 18446744069414584321 * ((13835058052060938240) * y0 + (9838263503687778304) * y1 + (7686143362256076800) * y2 + (19500843730523987138) * y3));
        vstd::arithmetic::div_mod::lemma_mod_multiples_vanish((13835058052060938240) * y0 + (9838263503687778304) * y1 + (7686143362256076800) * y2 + (19500843730523987138) * y3, y3, MODULUS as int);
    }
}

/// The inverse mixing layer undoes the mixing layer.
pub proof fn lemma_inv_mds_undoes_mds(y: Seq<u128>)
    requires
        y.len() == STATE_WIDTH,
        all_elems(y),
    ensures
        inv_mds(mds(y)) == y,
{
    let mm = MODULUS as int;
    let z = mds(y);
    let yv = |j: int| y[j] as int;
    let zv = |j: int| z[j] as int;
    let l = |k: int| lin(mds_spec(), k, yv, STATE_WIDTH as nat);
    assert forall|k: int| 0 <= k < STATE_WIDTH implies #[trigger] zv(k) % mm == l(k) % mm by {
        lemma_row_dot_lin(mds_spec(), k, y, STATE_WIDTH as nat);
        assert(zv(k) == l(k) % mm);
        vstd::arithmetic::div_mod::lemma_mod_twice(l(k), mm);
    }
    assert forall|i: int| 0 <= i < STATE_WIDTH implies inv_mds(z)[i] == y[i] by {
        lemma_row_dot_lin(inv_mds_spec(), i, z, STATE_WIDTH as nat);
        lemma_lin_congruent(inv_mds_spec(), i, zv, l, STATE_WIDTH as nat);
        lemma_mix_entries(y, i);
    }
    assert(inv_mds(z) =~= y);
}

} // verus!
