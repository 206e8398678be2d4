use vstd::prelude::*;
use vstd::arithmetic::div_mod::{
    lemma_add_mod_noop_right, lemma_fundamental_div_mod_converse, lemma_mod_bound,
    lemma_mul_mod_noop_general, lemma_small_mod,
};
use ark_bls12_381::Fr;
use ark_ff::{BigInt, Field, PrimeField};
use ark_std::UniformRand;
use ark_std::rand::rngs::StdRng;

verus! {

/// The source of verifier randomness: a seedable standard RNG.
#[verifier::external_type_specification]
#[verifier::external_body]
pub struct ExStdRng(StdRng);

/// An element of the BLS12-381 scalar field, held as four 64-bit limbs in
/// little-endian order. A well-formed element is canonical: its integer
/// value lies below the field order.
#[derive(Clone, Copy, PartialEq, Eq, Structural, Debug)]
pub struct Fe {
    pub l0: u64,
    pub l1: u64,
    pub l2: u64,
    pub l3: u64,
}

/// The order of the BLS12-381 scalar field (a prime).
pub open spec fn p() -> int {
    0x73eda753299d7d483339d80809a1d80553bda402fffe5bfeffffffff00000001int
}

/// Field addition on the mathematical model: integers modulo the field order.
pub open spec fn fadd(a: int, b: int) -> int {
    (a + b) % p()
}

/// Field subtraction on the mathematical model.
pub open spec fn fsub(a: int, b: int) -> int {
    (a - b) % p()
}

/// Field multiplication on the mathematical model.
pub open spec fn fmul(a: int, b: int) -> int {
    (a * b) % p()
}

/// The multiplicative inverse on the mathematical model: the canonical
/// element whose product with `a` is one, if there is one.
pub open spec fn finv(a: int) -> int {
    choose|b: int| 0 <= b < p() && #[trigger] fmul(a, b) == 1
}

impl Fe {
    /// The integer this element stands for, read from the limbs in base 2^64.
    pub open spec fn val(self) -> int {
        self.l0 + 0x10000000000000000int * (
            self.l1 + 0x10000000000000000int * (
                self.l2 + 0x10000000000000000int * self.l3))
    }

    /// Canonical form: the value is reduced modulo the field order.
    pub open spec fn wf(self) -> bool {
        self.val() < p()
    }

    /// The additive identity.
    pub fn zero() -> (r: Fe)
        ensures
            r.wf(),
            r.val() == 0,
    {
        Fe { l0: 0, l1: 0, l2: 0, l3: 0 }
    }

    /// The multiplicative identity.
    pub fn one() -> (r: Fe)
        ensures
            r.wf(),
            r.val() == 1,
    {
        Fe { l0: 1, l1: 0, l2: 0, l3: 0 }
    }

    /// The field element standing for a small nonnegative integer.
    pub fn from_u64(x: u64) -> (r: Fe)
        ensures
            r.wf(),
            r.val() == x,
    {
        Fe { l0: x, l1: 0, l2: 0, l3: 0 }
    }
}

/// Equal values have equal limbs: the base-2^64 reading is injective.
pub proof fn lemma_val_injective(a: Fe, b: Fe)
    requires
        a.val() == b.val(),
    ensures
        a == b,
{
    let base = 0x10000000000000000int;
    let ra = a.l1 + base * (a.l2 + base * a.l3);
    let rb = b.l1 + base * (b.l2 + base * b.l3);
    lemma_fundamental_div_mod_converse(a.val(), base, ra, a.l0 as int);
    lemma_fundamental_div_mod_converse(b.val(), base, rb, b.l0 as int);
    let ra2 = a.l2 + base * a.l3;
    let rb2 = b.l2 + base * b.l3;
    lemma_fundamental_div_mod_converse(ra, base, ra2, a.l1 as int);
    lemma_fundamental_div_mod_converse(rb, base, rb2, b.l1 as int);
    lemma_fundamental_div_mod_converse(ra2, base, a.l3 as int, a.l2 as int);
    lemma_fundamental_div_mod_converse(rb2, base, b.l3 as int, b.l2 as int);
}

/// The sum of field values, reduced, stays in canonical range.
pub proof fn lemma_fadd_bound(a: int, b: int)
    ensures
        0 <= fadd(a, b) < p(),
{
    lemma_mod_bound(a + b, p());
}

/// Reducing a canonical value changes nothing.
pub proof fn lemma_mod_noop(a: int)
    requires
        0 <= a < p(),
    ensures
        a % p() == a,
{
    lemma_small_mod(a as nat, p() as nat);
}

/// Modular multiplication ignores prior reductions of either factor.
pub proof fn lemma_fmul_noop(a: int, b: int)
    ensures
        fmul(a % p(), b) == fmul(a, b),
        fmul(a, b % p()) == fmul(a, b),
        fmul(a % p(), b % p()) == fmul(a, b),
{
    lemma_mul_mod_noop_general(a, b, p());
}

/// Modular addition is associative.
pub proof fn lemma_fadd_assoc(a: int, b: int, c: int)
    ensures
        fadd(fadd(a, b), c) == fadd(a, fadd(b, c)),
{
    lemma_add_mod_noop_right(c, a + b, p());
    lemma_add_mod_noop_right(a, b + c, p());
}

/// Modular multiplication is associative.
pub proof fn lemma_fmul_assoc(a: int, b: int, c: int)
    ensures
        fmul(fmul(a, b), c) == fmul(a, fmul(b, c)),
{
    lemma_mul_mod_noop_general(a * b, c, p());
    lemma_mul_mod_noop_general(a, b * c, p());
    assert((a * b) * c == a * (b * c)) by (nonlinear_arith);
}

/// A canonical multiplicative inverse is unique, so any witness found at
/// run time is the inverse the model speaks of.
pub proof fn lemma_finv_unique(c: int, w: int)
    requires
        0 <= w < p(),
        fmul(c, w) == 1,
    ensures
        finv(c) == w,
        fmul(c, finv(c)) == 1,
        0 <= finv(c) < p(),
{
    assert(0 <= w < p() && fmul(c, w) == 1);
    assert(exists|b: int| 0 <= b < p() && #[trigger] fmul(c, b) == 1);
    let b = finv(c);
    assert(0 <= b < p() && fmul(c, b) == 1);
    // w == w * (c * b) == (w * c) * b == b, all modulo p
    lemma_small_mod(w as nat, p() as nat);
    assert(fmul(w, 1) == w);
    lemma_fmul_assoc(w, c, b);
    assert(fmul(w, c) == fmul(c, w)) by {
        assert(w * c == c * w) by (nonlinear_arith);
    }
    lemma_small_mod(b as nat, p() as nat);
    assert(fmul(1, b) == b);
    assert(fmul(w, fmul(c, b)) == fmul(fmul(w, c), b));
}

/// Distinct canonical values have a nonzero field difference.
pub proof fn lemma_fsub_nonzero(a: int, b: int)
    requires
        0 <= a < p(),
        0 <= b < p(),
        a != b,
    ensures
        fsub(a, b) != 0,
        0 <= fsub(a, b) < p(),
{
    if a > b {
        lemma_small_mod((a - b) as nat, p() as nat);
    } else {
        lemma_fundamental_div_mod_converse(a - b, p(), -1, a - b + p());
    }
}

/// Relies on ark_ff: addition of two canonical BLS12-381 scalar field
/// elements is their sum reduced modulo the field order.
#[verifier::external_body]
pub fn fe_add(a: &Fe, b: &Fe) -> (r: Fe)
    requires
        a.wf(),
        b.wf(),
    ensures
        r.wf(),
        r.val() == fadd(a.val(), b.val()),
{
    let x = Fr::from_bigint(BigInt([a.l0, a.l1, a.l2, a.l3])).unwrap();
    let y = Fr::from_bigint(BigInt([b.l0, b.l1, b.l2, b.l3])).unwrap();
    let s = (x + y).into_bigint();
    Fe { l0: s.0[0], l1: s.0[1], l2: s.0[2], l3: s.0[3] }
}

/// Relies on ark_ff: subtraction of two canonical BLS12-381 scalar field
/// elements is their difference reduced modulo the field order.
#[verifier::external_body]
pub fn fe_sub(a: &Fe, b: &Fe) -> (r: Fe)
    requires
        a.wf(),
        b.wf(),
    ensures
        r.wf(),
        r.val() == fsub(a.val(), b.val()),
{
    let x = Fr::from_bigint(BigInt([a.l0, a.l1, a.l2, a.l3])).unwrap();
    let y = Fr::from_bigint(BigInt([b.l0, b.l1, b.l2, b.l3])).unwrap();
    let s = (x - y).into_bigint();
    Fe { l0: s.0[0], l1: s.0[1], l2: s.0[2], l3: s.0[3] }
}

/// Relies on ark_ff: multiplication of two canonical BLS12-381 scalar field
/// elements is their product reduced modulo the field order.
#[verifier::external_body]
pub fn fe_mul(a: &Fe, b: &Fe) -> (r: Fe)
    requires
        a.wf(),
        b.wf(),
    ensures
        r.wf(),
        r.val() == fmul(a.val(), b.val()),
{
    let x = Fr::from_bigint(BigInt([a.l0, a.l1, a.l2, a.l3])).unwrap();
    let y = Fr::from_bigint(BigInt([b.l0, b.l1, b.l2, b.l3])).unwrap();
    let s = (x * y).into_bigint();
    Fe { l0: s.0[0], l1: s.0[1], l2: s.0[2], l3: s.0[3] }
}

/// Relies on ark_ff `Field::inverse`: for a nonzero element it returns the
/// multiplicative inverse, so the product with the argument is one.
#[verifier::external_body]
pub fn fe_inv(a: &Fe) -> (r: Fe)
    requires
        a.wf(),
        a.val() != 0,
    ensures
        r.wf(),
        fmul(a.val(), r.val()) == 1,
{
    let x = Fr::from_bigint(BigInt([a.l0, a.l1, a.l2, a.l3])).unwrap();
    let s = x.inverse().unwrap().into_bigint();
    Fe { l0: s.0[0], l1: s.0[1], l2: s.0[2], l3: s.0[3] }
}

/// Field division: multiplication by the inverse of the denominator.
pub fn fe_div(a: &Fe, b: &Fe) -> (r: Fe)
    requires
        a.wf(),
        b.wf(),
        b.val() != 0,
    ensures
        r.wf(),
        r.val() == fmul(a.val(), finv(b.val())),
        fmul(r.val(), b.val()) == a.val() % p(),
        fmul(b.val(), finv(b.val())) == 1,
        0 <= finv(b.val()) < p(),
{
    let binv = fe_inv(b);
    let r = fe_mul(a, &binv);
    proof {
        lemma_finv_unique(b.val(), binv.val());
        // (a * b^-1) * b == a * (b^-1 * b) == a * 1 == a, all modulo p
        lemma_fmul_assoc(a.val(), binv.val(), b.val());
        assert(fmul(binv.val(), b.val()) == fmul(b.val(), binv.val())) by {
            assert(binv.val() * b.val() == b.val() * binv.val()) by (nonlinear_arith);
        }
        lemma_fmul_noop(a.val(), 1);
        assert(fmul(a.val(), 1) == a.val() % p()) by {
            assert(a.val() * 1 == a.val()) by (nonlinear_arith);
        }
    }
    r
}

/// Relies on ark_ff `UniformRand`: samples one field element; whatever was
/// drawn, the result is canonical.
#[verifier::external_body]
pub fn fe_sample(rng: &mut StdRng) -> (r: Fe)
    ensures
        r.wf(),
{
    let s = Fr::rand(rng).into_bigint();
    Fe { l0: s.0[0], l1: s.0[1], l2: s.0[2], l3: s.0[3] }
}

} // verus!
