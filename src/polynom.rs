//! Polynomials in coefficient form over the field, lowest degree first.
use vstd::prelude::*;
use crate::field::{self, MODULUS, all_elems, fadd, fmul};

verus! {

/// The value of the polynomial with coefficients `p` at `x`.
pub open spec fn poly_eval(p: Seq<u128>, x: int) -> int
    decreases p.len(),
{
    if p.len() == 0 {
        0
    } else {
        fadd(p[0] as int, fmul(x, poly_eval(p.drop_first(), x)))
    }
}

/// Evaluates the polynomial with coefficients `p` at `x` by Horner's rule.
pub fn eval(p: &[u128], x: u128) -> (r: u128)
    requires
        all_elems(p@),
        x < MODULUS,
    ensures
        r == poly_eval(p@, x as int),
        r < MODULUS,
{
    let mut acc: u128 = 0;
    let mut i: usize = p.len();
    proof {
        assert(p@.subrange(i as int, p@.len() as int).len() == 0);
    }
    while i > 0
        invariant
            i <= p@.len(),
            all_elems(p@),
            x < MODULUS,
            acc < MODULUS,
            acc == poly_eval(p@.subrange(i as int, p@.len() as int), x as int),
        decreases i,
    {
        i = i - 1;
        proof {
            assert(p@.subrange(i as int, p@.len() as int).drop_first()
                =~= p@.subrange(i + 1, p@.len() as int));
        }
        acc = field::add(p[i], field::mul(x, acc));
    }
    proof {
        assert(p@.subrange(0, p@.len() as int) =~= p@);
    }
    acc
}

} // verus!
