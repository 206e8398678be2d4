use vstd::prelude::*;
use vstd::arithmetic::power2::{lemma_pow2_strictly_increases, lemma_pow2_unfold, pow2};
use ark_bls12_381::Fr;
use ark_ff::{BigInt, PrimeField};
use ark_poly::{DenseMultilinearExtension, MultilinearExtension, Polynomial};
use crate::field::{fadd, fmul, fsub, p, Fe};

verus! {

/// A multilinear-extension table: 2^k field values indexed by k boolean
/// variables, the first variable being the least significant index bit.
/// The table itself lives in ark_poly; this crate sees it only through the
/// two names below and the trusted methods that speak over them.
#[verifier::external_body]
pub struct Table {
    inner: DenseMultilinearExtension<Fr>,
}

/// The values the table holds, as canonical field values (integers in
/// [0, p)), indexed little-endian in the table's boolean variables.
pub uninterp spec fn table_evals(t: Table) -> Seq<int>;

/// The number of free boolean variables of the table.
pub uninterp spec fn table_num_vars(t: Table) -> int;

/// A structurally sound table: 2^k values, all canonical.
pub open spec fn table_wf(t: Table) -> bool {
    &&& 0 <= table_num_vars(t)
    &&& table_evals(t).len() == pow2(table_num_vars(t) as nat)
    &&& forall|i: int|
        0 <= i < table_evals(t).len() ==> 0 <= #[trigger] table_evals(t)[i] < p()
}

/// One folding step: the table with its first variable bound to `r`.
/// Entry i of the result is old[2i]·(1−r) + old[2i+1]·r, modulo p.
pub open spec fn fold_once(s: Seq<int>, r: int) -> Seq<int> {
    Seq::new(s.len() / 2, |i: int| fadd(fmul(s[2 * i], fsub(1, r)), fmul(s[2 * i + 1], r)))
}

/// A folded table is half as long and holds only canonical values.
pub proof fn lemma_fold_once_wf(s: Seq<int>, r: int)
    ensures
        fold_once(s, r).len() == s.len() / 2,
        forall|i: int| 0 <= i < fold_once(s, r).len() ==> 0 <= #[trigger] fold_once(s, r)[i] < p(),
{
    assert forall|i: int| 0 <= i < fold_once(s, r).len() implies 0 <= #[trigger] fold_once(
        s,
        r,
    )[i] < p() by {
        crate::field::lemma_fadd_bound(fmul(s[2 * i], fsub(1, r)), fmul(s[2 * i + 1], r));
    }
}

/// The multilinear extension of `s` evaluated at `pt`, by folding the
/// variables away one at a time, first variable first.
pub open spec fn mle_eval(s: Seq<int>, pt: Seq<int>) -> int
    decreases pt.len(),
{
    if pt.len() == 0 {
        if s.len() == 0 {
            0
        } else {
            s[0] % p()
        }
    } else {
        mle_eval(fold_once(s, pt[0]), pt.drop_first())
    }
}

/// A point all of whose coordinates are boolean.
pub open spec fn is_boolean_point(pt: Seq<int>) -> bool {
    forall|i: int| 0 <= i < pt.len() ==> pt[i] == 0 || pt[i] == 1
}

/// The table index a boolean point selects: the first coordinate is the
/// least significant bit.
pub open spec fn bool_index(pt: Seq<int>) -> int
    decreases pt.len(),
{
    if pt.len() == 0 {
        0
    } else {
        pt[0] + 2 * bool_index(pt.drop_first())
    }
}

/// Binding the first variable to a boolean picks the even or the odd
/// entries of a canonical table.
pub proof fn lemma_fold_once_boolean(s: Seq<int>, b: int)
    requires
        b == 0 || b == 1,
        forall|i: int| 0 <= i < s.len() ==> 0 <= #[trigger] s[i] < p(),
    ensures
        fold_once(s, b) == Seq::new(s.len() / 2, |i: int| s[2 * i + b]),
{
    assert forall|i: int| 0 <= i < s.len() / 2 implies fold_once(s, b)[i] == s[2 * i + b] by {
        crate::field::lemma_mod_noop(s[2 * i]);
        crate::field::lemma_mod_noop(s[2 * i + 1]);
        vstd::arithmetic::div_mod::lemma_small_mod(1nat, p() as nat);
        assert(s[2 * i] * 1 == s[2 * i]) by (nonlinear_arith);
        assert(s[2 * i + 1] * 1 == s[2 * i + 1]) by (nonlinear_arith);
        assert(s[2 * i] * 0 == 0) by (nonlinear_arith);
        assert(s[2 * i + 1] * 0 == 0) by (nonlinear_arith);
    }
    assert(fold_once(s, b) =~= Seq::new(s.len() / 2, |i: int| s[2 * i + b]));
}

/// A boolean point selects an index inside its hypercube.
pub proof fn lemma_bool_index_in_range(pt: Seq<int>)
    requires
        is_boolean_point(pt),
    ensures
        0 <= bool_index(pt) < pow2(pt.len()),
    decreases pt.len(),
{
    if pt.len() == 0 {
        assert(pow2(0) == 1) by {
            vstd::arithmetic::power2::lemma2_to64();
        }
    } else {
        let rest = pt.drop_first();
        assert(forall|i: int| 0 <= i < rest.len() ==> rest[i] == 0 || rest[i] == 1);
        lemma_bool_index_in_range(rest);
        lemma_pow2_unfold(pt.len());
    }
}

/// At a boolean point, the multilinear extension returns the stored value
/// the point indexes.
pub proof fn lemma_mle_eval_boolean(s: Seq<int>, pt: Seq<int>)
    requires
        s.len() == pow2(pt.len()),
        forall|i: int| 0 <= i < s.len() ==> 0 <= #[trigger] s[i] < p(),
        is_boolean_point(pt),
    ensures
        0 <= bool_index(pt) < s.len(),
        mle_eval(s, pt) == s[bool_index(pt)],
    decreases pt.len(),
{
    if pt.len() == 0 {
        assert(pow2(0) == 1) by {
            vstd::arithmetic::power2::lemma2_to64();
        }
        crate::field::lemma_mod_noop(s[0]);
    } else {
        let b = pt[0];
        let rest = pt.drop_first();
        let folded = fold_once(s, b);
        lemma_fold_once_boolean(s, b);
        lemma_pow2_unfold(pt.len());
        assert(folded.len() == pow2(rest.len()));
        lemma_mle_eval_boolean(folded, rest);
        assert(mle_eval(s, pt) == mle_eval(folded, rest));
        assert(folded[bool_index(rest)] == s[2 * bool_index(rest) + b]);
        assert(bool_index(pt) == b + 2 * bool_index(rest));
    }
}

impl Table {
    /// Relies on ark_poly `DenseMultilinearExtension::from_evaluations_vec`:
    /// the table holds exactly the given evaluations over `num_vars`
    /// boolean variables, in the given order.
    #[verifier::external_body]
    pub fn new(num_vars: usize, evaluations: &Vec<Fe>) -> (r: Table)
        requires
            evaluations@.len() == pow2(num_vars as nat),
            forall|i: int| 0 <= i < evaluations@.len() ==> (#[trigger] evaluations@[i]).wf(),
        ensures
            table_num_vars(r) == num_vars,
            table_evals(r) == evaluations@.map_values(|e: Fe| e.val()),
    {
        let v: Vec<Fr> = evaluations
            .iter()
            .map(|e| Fr::from_bigint(BigInt([e.l0, e.l1, e.l2, e.l3])).unwrap())
            .collect();
        Table { inner: DenseMultilinearExtension::from_evaluations_vec(num_vars, v) }
    }

    /// Relies on ark_poly's `Index` impl: the stored value at this index.
    #[verifier::external_body]
    pub fn entry(&self, i: usize) -> (r: Fe)
        requires
            i < table_evals(*self).len(),
        ensures
            r.val() == table_evals(*self)[i as int],
    {
        let s = self.inner[i].into_bigint();
        Fe { l0: s.0[0], l1: s.0[1], l2: s.0[2], l3: s.0[3] }
    }

    /// Relies on ark_poly `MultilinearExtension::fix_variables` with one
    /// value: binding the first variable folds adjacent entry pairs, so the
    /// result holds old[2i]·(1−r) + old[2i+1]·r at entry i.
    #[verifier::external_body]
    pub fn fix_first_variable(&self, r: &Fe) -> (res: Table)
        requires
            r.wf(),
            table_num_vars(*self) >= 1,
        ensures
            table_num_vars(res) == table_num_vars(*self) - 1,
            table_evals(res) == fold_once(table_evals(*self), r.val()),
    {
        let x = Fr::from_bigint(BigInt([r.l0, r.l1, r.l2, r.l3])).unwrap();
        Table { inner: self.inner.fix_variables(&[x]) }
    }

    /// Relies on ark_poly `Polynomial::evaluate`: the multilinear extension
    /// evaluated at the point, which fixes the variables first to last.
    #[verifier::external_body]
    pub fn evaluate(&self, point: &Vec<Fe>) -> (r: Fe)
        requires
            point@.len() == table_num_vars(*self),
            forall|i: int| 0 <= i < point@.len() ==> (#[trigger] point@[i]).wf(),
        ensures
            r.wf(),
            r.val() == mle_eval(table_evals(*self), point@.map_values(|e: Fe| e.val())),
    {
        let v: Vec<Fr> = point
            .iter()
            .map(|e| Fr::from_bigint(BigInt([e.l0, e.l1, e.l2, e.l3])).unwrap())
            .collect();
        let s = self.inner.evaluate(&v).into_bigint();
        Fe { l0: s.0[0], l1: s.0[1], l2: s.0[2], l3: s.0[3] }
    }

    /// Relies on ark_poly's `Clone`: the copy holds the same table.
    #[verifier::external_body]
    pub fn duplicate(&self) -> (r: Table)
        ensures
            table_num_vars(r) == table_num_vars(*self),
            table_evals(r) == table_evals(*self),
    {
        Table { inner: self.inner.clone() }
    }
}

/// 2^k as a machine integer.
pub fn pow2_usize(k: usize) -> (r: usize)
    requires
        pow2(k as nat) <= usize::MAX,
    ensures
        r == pow2(k as nat),
{
    proof {
        vstd::arithmetic::power2::lemma2_to64();
    }
    let mut r: usize = 1;
    let mut i: usize = 0;
    while i < k
        invariant
            i <= k,
            r == pow2(i as nat),
            pow2(k as nat) <= usize::MAX,
        decreases k - i,
    {
        proof {
            lemma_pow2_unfold(((i + 1) as usize) as nat);
            if i + 1 < k {
                lemma_pow2_strictly_increases(((i + 1) as usize) as nat, k as nat);
            }
        }
        r = r * 2;
        i = i + 1;
    }
    r
}

} // verus!
