//! Arithmetic over the prime field of order `MODULUS` (2^64 - 2^32 + 1).
//! Elements are `u128` values kept canonically reduced (below `MODULUS`).
use vstd::prelude::*;
use vstd::arithmetic::div_mod::{lemma_mul_mod_noop_left, lemma_mul_mod_noop_right};

verus! {

/// The field modulus.
pub const MODULUS: u128 = 18446744069414584321;

/// A canonical field element.
pub open spec fn is_elem(a: int) -> bool {
    0 <= a < MODULUS
}

/// Every entry of `s` is a canonical field element.
pub open spec fn all_elems(s: Seq<u128>) -> bool {
    forall|i: int| 0 <= i < s.len() ==> #[trigger] s[i] < MODULUS
}

/// Field addition.
pub open spec fn fadd(a: int, b: int) -> int {
    (a + b) % (MODULUS as int)
}

/// Field subtraction.
pub open spec fn fsub(a: int, b: int) -> int {
    (a - b) % (MODULUS as int)
}

/// Field multiplication.
pub open spec fn fmul(a: int, b: int) -> int {
    (a * b) % (MODULUS as int)
}

/// `x` raised to the power `n` in the field.
pub open spec fn fpow(x: int, n: nat) -> int
    decreases n,
{
    if n == 0 {
        1
    } else {
        fmul(x, fpow(x, (n - 1) as nat))
    }
}

/// Computes `a + b` in the field.
pub fn add(a: u128, b: u128) -> (r: u128)
    requires
        a < MODULUS,
        b < MODULUS,
    ensures
        r == fadd(a as int, b as int),
        r < MODULUS,
{
    (a + b) % MODULUS
}

/// Computes `a - b` in the field.
pub fn sub(a: u128, b: u128) -> (r: u128)
    requires
        a < MODULUS,
        b < MODULUS,
    ensures
        r == fsub(a as int, b as int),
        r < MODULUS,
{
    if a >= b {
        a - b
    } else {
        assert((a - b) % (MODULUS as int) == MODULUS - b + a) by {
            vstd::arithmetic::div_mod::lemma_fundamental_div_mod_converse(
                a - b, MODULUS as int, -1, MODULUS - b + a);
        }
        MODULUS - b + a
    }
}

/// Computes `a * b` in the field.
pub fn mul(a: u128, b: u128) -> (r: u128)
    requires
        a < MODULUS,
        b < MODULUS,
    ensures
        r == fmul(a as int, b as int),
        r < MODULUS,
{
    assert(a * b < MODULUS * MODULUS) by (nonlinear_arith)
        requires a < MODULUS, b < MODULUS;
    (a * b) % MODULUS
}

/// Field multiplication is commutative.
pub proof fn lemma_fmul_comm(a: int, b: int)
    ensures
        fmul(a, b) == fmul(b, a),
{
    assert(a * b == b * a) by (nonlinear_arith);
}

/// Field multiplication is associative.
pub proof fn lemma_fmul_assoc(a: int, b: int, c: int)
    ensures
        fmul(fmul(a, b), c) == fmul(a, fmul(b, c)),
{
    let m = MODULUS as int;
    lemma_mul_mod_noop_left(a * b, c, m);
    lemma_mul_mod_noop_right(a, b * c, m);
    assert(a * b * c == a * (b * c)) by (nonlinear_arith);
}

/// One is the multiplicative identity.
pub proof fn lemma_fmul_one(a: int)
    requires
        is_elem(a),
    ensures
        fmul(1, a) == a,
        fmul(a, 1) == a,
{
}

/// Powers are field elements.
pub proof fn lemma_fpow_range(x: int, n: nat)
    ensures
        is_elem(fpow(x, n)),
{
}

/// `x^(a + b) == x^a * x^b`.
pub proof fn lemma_fpow_add(x: int, a: nat, b: nat)
    ensures
        fpow(x, a + b) == fmul(fpow(x, a), fpow(x, b)),
    decreases a,
{
    if a == 0 {
        lemma_fpow_range(x, b);
        lemma_fmul_one(fpow(x, b));
    } else {
        lemma_fpow_add(x, (a - 1) as nat, b);
        assert((a + b - 1) as nat == ((a - 1) as nat + b) as nat);
        lemma_fmul_assoc(x, fpow(x, (a - 1) as nat), fpow(x, b));
    }
}

/// `(x^a)^b == x^(a * b)`.
pub proof fn lemma_fpow_mul(x: int, a: nat, b: nat)
    ensures
        fpow(fpow(x, a), b) == fpow(x, a * b),
    decreases b,
{
    if b == 0 {
        assert(a * b == 0) by (nonlinear_arith) requires b == 0;
    } else {
        lemma_fpow_mul(x, a, (b - 1) as nat);
        assert(a * b == a + a * (b - 1)) by (nonlinear_arith) requires b > 0;
        lemma_fpow_add(x, a, (a * (b - 1)) as nat);
    }
}

proof fn lemma_fpow_square(x: int)
    requires
        is_elem(x),
    ensures
        fpow(x, 2) == fmul(x, x),
{
    assert(fpow(x, 0) == 1);
    assert(fpow(x, 1) == fmul(x, 1));
    assert(fpow(x, 2) == fmul(x, fpow(x, 1)));
    lemma_fmul_one(x);
}

/// Computes `base` raised to `power` in the field, by repeated squaring.
pub fn exp(base: u128, power: u128) -> (r: u128)
    requires
        base < MODULUS,
    ensures
        r == fpow(base as int, power as nat),
        r < MODULUS,
{
    let mut acc: u128 = 1;
    let mut b: u128 = base;
    let mut e: u128 = power;
    proof {
        lemma_fpow_range(base as int, power as nat);
        lemma_fmul_one(fpow(base as int, power as nat));
    }
    while e > 0
        invariant
            acc < MODULUS,
            b < MODULUS,
            fmul(acc as int, fpow(b as int, e as nat)) == fpow(base as int, power as nat),
        decreases e,
    {
        let ghost k = (e / 2) as nat;
        proof {
            lemma_fpow_square(b as int);
            lemma_fpow_mul(b as int, 2, k);
        }
        if e % 2 == 1 {
            proof {
                assert((e - 1) as nat == 2 * k);
                lemma_fmul_assoc(acc as int, b as int, fpow(fmul(b as int, b as int), k));
            }
            acc = crate::field::mul(acc, b);
        } else {
            assert(e as nat == 2 * k);
        }
        b = crate::field::mul(b, b);
        e = e / 2;
    }
    proof {
        lemma_fmul_one(acc as int);
    }
    acc
}

/// An element of multiplicative order 2^32.
pub const TWO_ADIC_ROOT: u128 = 1753635133440165772;

/// The size of the largest power-of-two subgroup.
pub const TWO_ADIC_ORDER: u128 = 4294967296;

/// The generator of the subgroup of order `n`, for `n` dividing 2^32.
pub open spec fn domain_root(n: nat) -> int {
    fpow(TWO_ADIC_ROOT as int, (TWO_ADIC_ORDER as nat / n) as nat)
}

/// Returns the generator of the subgroup of order `n`.
pub fn get_root_of_unity(n: usize) -> (r: u128)
    requires
        n > 0,
    ensures
        r == domain_root(n as nat),
        r < MODULUS,
{
    exp(TWO_ADIC_ROOT, TWO_ADIC_ORDER / (n as u128))
}

/// Returns the multiplicative inverse of `a` (zero for zero), as `a^(MODULUS - 2)`.
pub fn inv(a: u128) -> (r: u128)
    requires
        a < MODULUS,
    ensures
        r == fpow(a as int, (MODULUS - 2) as nat),
        r < MODULUS,
{
    exp(a, MODULUS - 2)
}

proof fn lemma_fpow_double(x: int, e: nat, v: int)
    requires
        fpow(x, e) == v,
        is_elem(v),
    ensures
        fpow(x, 2 * e) == fmul(v, v),
{
    lemma_fpow_mul(x, e, 2);
    lemma_fpow_square(v);
}

/// `TWO_ADIC_ROOT` raised to `TWO_ADIC_ORDER` is one.
pub proof fn lemma_two_adic_root_order()
    ensures
        fpow(TWO_ADIC_ROOT as int, TWO_ADIC_ORDER as nat) == 1,
{
    assert(fpow(TWO_ADIC_ROOT as int, 1) == TWO_ADIC_ROOT) by {
        assert(fpow(TWO_ADIC_ROOT as int, 0) == 1);
    }
    assert(fpow(TWO_ADIC_ROOT as int, 2) == 4614640910117430873) by {
        lemma_fpow_double(TWO_ADIC_ROOT as int, 1, 1753635133440165772);
        assert(fmul(1753635133440165772, 1753635133440165772) == 4614640910117430873);
    }
    assert(fpow(TWO_ADIC_ROOT as int, 4) == 9123114210336311365) by {
        lemma_fpow_double(TWO_ADIC_ROOT as int, 2, 4614640910117430873);
        assert(fmul(4614640910117430873, 4614640910117430873) == 9123114210336311365);
    }
    assert(fpow(TWO_ADIC_ROOT as int, 8) == 16116352524544190054) by {
        lemma_fpow_double(TWO_ADIC_ROOT as int, 4, 9123114210336311365);
        assert(fmul(9123114210336311365, 9123114210336311365) == 16116352524544190054);
    }
    assert(fpow(TWO_ADIC_ROOT as int, 16) == 6414415596519834757) by {
        lemma_fpow_double(TWO_ADIC_ROOT as int, 8, 16116352524544190054);
        assert(fmul(16116352524544190054, 16116352524544190054) == 6414415596519834757);
    }
    assert(fpow(TWO_ADIC_ROOT as int, 32) == 1213594585890690845) by {
        lemma_fpow_double(TWO_ADIC_ROOT as int, 16, 6414415596519834757);
        assert(fmul(6414415596519834757, 6414415596519834757) == 1213594585890690845);
    }
    assert(fpow(TWO_ADIC_ROOT as int, 64) == 17096174751763063430) by {
        lemma_fpow_double(TWO_ADIC_ROOT as int, 32, 1213594585890690845);
        assert(fmul(1213594585890690845, 1213594585890690845) == 17096174751763063430);
    }
    assert(fpow(TWO_ADIC_ROOT as int, 128) == 5456943929260765144) by {
        lemma_fpow_double(TWO_ADIC_ROOT as int, 64, 17096174751763063430);
        assert(fmul(17096174751763063430, 17096174751763063430) == 5456943929260765144);
    }
    assert(fpow(TWO_ADIC_ROOT as int, 256) == 9713644485405565297) by {
        lemma_fpow_double(TWO_ADIC_ROOT as int, 128, 5456943929260765144);
        assert(fmul(5456943929260765144, 5456943929260765144) == 9713644485405565297);
    }
    assert(fpow(TWO_ADIC_ROOT as int, 512) == 16905767614792059275) by {
        lemma_fpow_double(TWO_ADIC_ROOT as int, 256, 9713644485405565297);
        assert(fmul(9713644485405565297, 9713644485405565297) == 16905767614792059275);
    }
    assert(fpow(TWO_ADIC_ROOT as int, 1024) == 5416168637041100469) by {
        lemma_fpow_double(TWO_ADIC_ROOT as int, 512, 16905767614792059275);
        assert(fmul(16905767614792059275, 16905767614792059275) == 5416168637041100469);
    }
    assert(fpow(TWO_ADIC_ROOT as int, 2048) == 17654865857378133588) by {
        lemma_fpow_double(TWO_ADIC_ROOT as int, 1024, 5416168637041100469);
        assert(fmul(5416168637041100469, 5416168637041100469) == 17654865857378133588);
    }
    assert(fpow(TWO_ADIC_ROOT as int, 4096) == 3511170319078647661) by {
        lemma_fpow_double(TWO_ADIC_ROOT as int, 2048, 17654865857378133588);
        assert(fmul(17654865857378133588, 17654865857378133588) == 3511170319078647661);
    }
    assert(fpow(TWO_ADIC_ROOT as int, 8192) == 18146160046829613826) by {
        lemma_fpow_double(TWO_ADIC_ROOT as int, 4096, 3511170319078647661);
        assert(fmul(3511170319078647661, 3511170319078647661) == 18146160046829613826);
    }
    assert(fpow(TWO_ADIC_ROOT as int, 16384) == 9306717745644682924) by {
        lemma_fpow_double(TWO_ADIC_ROOT as int, 8192, 18146160046829613826);
        assert(fmul(18146160046829613826, 18146160046829613826) == 9306717745644682924);
    }
    assert(fpow(TWO_ADIC_ROOT as int, 32768) == 12380578893860276750) by {
        lemma_fpow_double(TWO_ADIC_ROOT as int, 16384, 9306717745644682924);
        assert(fmul(9306717745644682924, 9306717745644682924) == 12380578893860276750);
    }
    assert(fpow(TWO_ADIC_ROOT as int, 65536) == 6115771955107415310) by {
        lemma_fpow_double(TWO_ADIC_ROOT as int, 32768, 12380578893860276750);
        assert(fmul(12380578893860276750, 12380578893860276750) == 6115771955107415310);
    }
    assert(fpow(TWO_ADIC_ROOT as int, 131072) == 17776499369601055404) by {
        lemma_fpow_double(TWO_ADIC_ROOT as int, 65536, 6115771955107415310);
        assert(fmul(6115771955107415310, 6115771955107415310) == 17776499369601055404);
    }
    assert(fpow(TWO_ADIC_ROOT as int, 262144) == 16207902636198568418) by {
        lemma_fpow_double(TWO_ADIC_ROOT as int, 131072, 17776499369601055404);
        assert(fmul(17776499369601055404, 17776499369601055404) == 16207902636198568418);
    }
    assert(fpow(TWO_ADIC_ROOT as int, 524288) == 1532612707718625687) by {
        lemma_fpow_double(TWO_ADIC_ROOT as int, 262144, 16207902636198568418);
        assert(fmul(16207902636198568418, 16207902636198568418) == 1532612707718625687);
    }
    assert(fpow(TWO_ADIC_ROOT as int, 1048576) == 17492915097719143606) by {
        lemma_fpow_double(TWO_ADIC_ROOT as int, 524288, 1532612707718625687);
        assert(fmul(1532612707718625687, 1532612707718625687) == 17492915097719143606);
    }
    assert(fpow(TWO_ADIC_ROOT as int, 2097152) == 455906449640507599) by {
        lemma_fpow_double(TWO_ADIC_ROOT as int, 1048576, 17492915097719143606);
        assert(fmul(17492915097719143606, 17492915097719143606) == 455906449640507599);
    }
    assert(fpow(TWO_ADIC_ROOT as int, 4194304) == 11353340290879379826) by {
        lemma_fpow_double(TWO_ADIC_ROOT as int, 2097152, 455906449640507599);
        assert(fmul(455906449640507599, 455906449640507599) == 11353340290879379826);
    }
    assert(fpow(TWO_ADIC_ROOT as int, 8388608) == 1803076106186727246) by {
        lemma_fpow_double(TWO_ADIC_ROOT as int, 4194304, 11353340290879379826);
        assert(fmul(11353340290879379826, 11353340290879379826) == 1803076106186727246);
    }
    assert(fpow(TWO_ADIC_ROOT as int, 16777216) == 13797081185216407910) by {
        lemma_fpow_double(TWO_ADIC_ROOT as int, 8388608, 1803076106186727246);
        assert(fmul(1803076106186727246, 1803076106186727246) == 13797081185216407910);
    }
    assert(fpow(TWO_ADIC_ROOT as int, 33554432) == 17870292113338400769) by {
        lemma_fpow_double(TWO_ADIC_ROOT as int, 16777216, 13797081185216407910);
        assert(fmul(13797081185216407910, 13797081185216407910) == 17870292113338400769);
    }
    assert(fpow(TWO_ADIC_ROOT as int, 67108864) == 549755813888) by {
        lemma_fpow_double(TWO_ADIC_ROOT as int, 33554432, 17870292113338400769);
        assert(fmul(17870292113338400769, 17870292113338400769) == 549755813888);
    }
    assert(fpow(TWO_ADIC_ROOT as int, 134217728) == 70368744161280) by {
        lemma_fpow_double(TWO_ADIC_ROOT as int, 67108864, 549755813888);
        assert(fmul(549755813888, 549755813888) == 70368744161280);
    }
    assert(fpow(TWO_ADIC_ROOT as int, 268435456) == 17293822564807737345) by {
        lemma_fpow_double(TWO_ADIC_ROOT as int, 134217728, 70368744161280);
        assert(fmul(70368744161280, 70368744161280) == 17293822564807737345);
    }
    assert(fpow(TWO_ADIC_ROOT as int, 536870912) == 18446744069397807105) by {
        lemma_fpow_double(TWO_ADIC_ROOT as int, 268435456, 17293822564807737345);
        assert(fmul(17293822564807737345, 17293822564807737345) == 18446744069397807105);
    }
    assert(fpow(TWO_ADIC_ROOT as int, 1073741824) == 281474976710656) by {
        lemma_fpow_double(TWO_ADIC_ROOT as int, 536870912, 18446744069397807105);
        assert(fmul(18446744069397807105, 18446744069397807105) == 281474976710656);
    }
    assert(fpow(TWO_ADIC_ROOT as int, 2147483648) == 18446744069414584320) by {
        lemma_fpow_double(TWO_ADIC_ROOT as int, 1073741824, 281474976710656);
        assert(fmul(281474976710656, 281474976710656) == 18446744069414584320);
    }
    assert(fpow(TWO_ADIC_ROOT as int, 4294967296) == 1) by {
        lemma_fpow_double(TWO_ADIC_ROOT as int, 2147483648, 18446744069414584320);
        assert(fmul(18446744069414584320, 18446744069414584320) == 1);
    }
}

/// One raised to any power is one.
pub proof fn lemma_fpow_one(n: nat)
    ensures
        fpow(1, n) == 1,
    decreases n,
{
    if n > 0 {
        lemma_fpow_one((n - 1) as nat);
    }
}

/// Powers of the generator of the subgroup of order `n` repeat with period `n`.
pub proof fn lemma_domain_root_periodic(n: nat, step: nat)
    requires
        n > 0,
        TWO_ADIC_ORDER as nat % n == 0,
    ensures
        fpow(domain_root(n), step) == fpow(domain_root(n), step % n),
{
    let order = TWO_ADIC_ORDER as nat;
    let b = order / n;
    let q = step / n;
    let r = step % n;
    vstd::arithmetic::div_mod::lemma_fundamental_div_mod(order as int, n as int);
    vstd::arithmetic::div_mod::lemma_fundamental_div_mod(step as int, n as int);
    assert(b * step == order * q + b * r) by (nonlinear_arith)
        requires
            step == n * q + r,
            order == n * b,
    ;
    lemma_fpow_mul(TWO_ADIC_ROOT as int, b, step);
    lemma_fpow_mul(TWO_ADIC_ROOT as int, b, r);
    lemma_fpow_add(TWO_ADIC_ROOT as int, order * q, b * r);
    lemma_fpow_mul(TWO_ADIC_ROOT as int, order, q);
    lemma_two_adic_root_order();
    lemma_fpow_one(q);
    lemma_fpow_range(TWO_ADIC_ROOT as int, b * r);
    lemma_fmul_one(fpow(TWO_ADIC_ROOT as int, b * r));
}

/// Raising a power of the generator of the subgroup of order `n * c` to `c`
/// gives the same power of the generator of the subgroup of order `n`.
pub proof fn lemma_domain_root_power(n: nat, c: nat, step: nat)
    requires
        n > 0,
        c > 0,
        TWO_ADIC_ORDER as nat % (n * c) == 0,
    ensures
        fpow(fpow(domain_root(n * c), step), c) == fpow(domain_root(n), step),
{
    let order = TWO_ADIC_ORDER as nat;
    let a = order / (n * c);
    assert(n * c > 0) by (nonlinear_arith) requires n > 0, c > 0;
    vstd::arithmetic::div_mod::lemma_fundamental_div_mod(order as int, (n * c) as int);
    assert(order == n * (a * c)) by (nonlinear_arith) requires order == (n * c) * a;
    vstd::arithmetic::div_mod::lemma_div_multiples_vanish((a * c) as int, n as int);
    assert(order / n == a * c);
    lemma_fpow_mul(domain_root(n * c), step, c);
    lemma_fpow_mul(TWO_ADIC_ROOT as int, a, step * c);
    lemma_fpow_mul(TWO_ADIC_ROOT as int, a * c, step);
    assert(a * (step * c) == (a * c) * step) by (nonlinear_arith);
}

} // verus!
