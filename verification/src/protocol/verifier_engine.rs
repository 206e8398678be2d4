use vstd::prelude::*;
use ark_std::rand::rngs::StdRng;
use crate::field::{
    fadd, fe_add, fe_div, fe_mul, fe_sample, fe_sub, finv, fsub, lemma_fmul_assoc,
    lemma_fsub_nonzero, lemma_mod_noop, lemma_val_injective, p, Fe,
};
use crate::polynomial_rep::{vals, PolyInfoForVerifier};
use crate::protocol::prover::ProverMsg;
use crate::protocol::IPForSumCheck;
use crate::Error;

verus! {

/// The verifier's per-round message: one uniformly sampled challenge.
#[derive(Clone, Copy, PartialEq, Eq, Structural, Debug)]
pub struct VerifierMsg {
    pub rand_point: Fe,
}

/// The verifier's side of the session: the challenges it sampled, the
/// prover messages it recorded, and the two public scalars.
pub struct VerifierState {
    pub random_points: Vec<Fe>,
    pub round: usize,
    pub max_multiplicands: usize,
    pub finished: bool,
    pub num_of_variables: usize,
    pub polynomials_received: Vec<Vec<Fe>>,
}

/// The recorded prover messages as the model sees them.
pub open spec fn polys_model(s: Seq<Vec<Fe>>) -> Seq<Seq<int>> {
    s.map_values(|v: Vec<Fe>| vals(v@))
}

impl VerifierState {
    /// Histories grow in lock step, the round counter follows them, and
    /// every recorded scalar is canonical.
    pub open spec fn wf(self) -> bool {
        &&& self.max_multiplicands < usize::MAX
        &&& self.polynomials_received@.len() == self.random_points@.len()
        &&& self.polynomials_received@.len() <= self.num_of_variables
        &&& self.round as int == if self.finished {
            self.num_of_variables as int
        } else {
            self.polynomials_received@.len() + 1int
        }
        &&& self.finished ==> self.polynomials_received@.len() == self.num_of_variables
            && self.num_of_variables > 0
        &&& forall|i: int|
            0 <= i < self.random_points@.len() ==> (#[trigger] self.random_points@[i]).wf()
        &&& forall|i: int, j: int|
            0 <= i < self.polynomials_received@.len() && 0 <= j
                < self.polynomials_received@[i]@.len()
                ==> (#[trigger] self.polynomials_received@[i]@[j]).wf()
    }
}

/// One Lagrange term built up over the first j abscissas: the i-th sample
/// times Π (x − j')·(i − j')⁻¹ over j' < j with j' ≠ i, modulo p.
pub open spec fn lag_term(values: Seq<int>, i: int, x: int, j: int) -> int
    decreases j,
{
    if j <= 0 {
        values[i] % p()
    } else if j - 1 == i {
        lag_term(values, i, x, j - 1)
    } else {
        fmul2(lag_term(values, i, x, j - 1), x, i, j - 1)
    }
}

/// One factor pair of a Lagrange term: t · (x − j) · (i − j)⁻¹, modulo p.
pub open spec fn fmul2(t: int, x: int, i: int, j: int) -> int {
    crate::field::fmul(crate::field::fmul(t, fsub(x, j)), finv(fsub(i, j)))
}

/// The sum of the first k full Lagrange terms.
pub open spec fn lagrange_partial(values: Seq<int>, x: int, k: int) -> int
    decreases k,
{
    if k <= 0 {
        0
    } else {
        fadd(lagrange_partial(values, x, k - 1), lag_term(values, k - 1, x, values.len() as int))
    }
}

/// Lagrange evaluation at x of the unique polynomial of degree below n
/// through (0, values[0]), …, (n−1, values[n−1]).
pub open spec fn lagrange_eval(values: Seq<int>, x: int) -> int {
    lagrange_partial(values, x, values.len() as int)
}

/// The value the acceptance pass carries out of the rounds: per round,
/// the message must carry d+1 values whose first two sum to the running
/// claim, and the claim moves to the round polynomial's value at that
/// round's challenge; the result is the claim left after the last round,
/// or the first failure.
pub open spec fn running_claim_spec(
    polys: Seq<Seq<int>>,
    points: Seq<int>,
    expected: int,
    d: int,
) -> Result<int, Error>
    decreases polys.len(),
{
    if polys.len() == 0 {
        Ok(expected)
    } else if polys[0].len() != d + 1 {
        Err(Error::MalformedMessage)
    } else if fadd(polys[0][0], polys[0][1]) != expected {
        Err(Error::Reject)
    } else {
        running_claim_spec(
            polys.drop_first(),
            points.drop_first(),
            lagrange_eval(polys[0], points[0]),
            d,
        )
    }
}

/// The verdict of the plain acceptance pass: accept once every round's
/// consistency check goes through.
pub open spec fn acceptance_spec(
    polys: Seq<Seq<int>>,
    points: Seq<int>,
    expected: int,
    d: int,
) -> Result<bool, Error> {
    match running_claim_spec(polys, points, expected, d) {
        Ok(_) => Ok(true),
        Err(e) => Err(e),
    }
}

/// The verdict of acceptance closed by the final oracle comparison: the
/// claim left after the rounds must equal the represented polynomial's own
/// value at the full vector of challenges.
pub open spec fn acceptance_with_oracle_spec(
    polys: Seq<Seq<int>>,
    points: Seq<int>,
    expected: int,
    d: int,
    oracle: int,
) -> Result<bool, Error> {
    match running_claim_spec(polys, points, expected, d) {
        Ok(v) => if v == oracle {
            Ok(true)
        } else {
            Err(Error::Reject)
        },
        Err(e) => Err(e),
    }
}

/// Every machine index is a canonical field value: a usize is at most
/// 2^64 − 1, far below the 255-bit field order.
pub proof fn lemma_usize_in_field(x: usize)
    ensures
        0 <= x < p(),
{
}

/// Lagrange evaluation over abscissas 0,…,n−1 at an arbitrary point,
/// without reconstructing the polynomial's coefficients. At an integer
/// abscissa k below n the result is the k-th sample itself.
pub fn interpolate_uni_poly(p_i: &Vec<Fe>, eval_at: &Fe) -> (r: Fe)
    requires
        p_i@.len() >= 1,
        forall|m: int| 0 <= m < p_i@.len() ==> (#[trigger] p_i@[m]).wf(),
        eval_at.wf(),
    ensures
        r.wf(),
        r.val() == lagrange_eval(vals(p_i@), eval_at.val()),
        forall|k: int| 0 <= k < p_i@.len() && eval_at.val() == k ==> r.val() == p_i@[k].val(),
{
    let n = p_i.len();
    let ghost values = vals(p_i@);
    let ghost x = eval_at.val();
    let mut result = Fe::zero();
    let mut i: usize = 0;
    while i < n
        invariant
            n == p_i@.len(),
            1 <= n,
            forall|m: int| 0 <= m < p_i@.len() ==> (#[trigger] p_i@[m]).wf(),
            eval_at.wf(),
            x == eval_at.val(),
            values == vals(p_i@),
            i <= n,
            result.wf(),
            result.val() == lagrange_partial(values, x, i as int),
            0 <= x < n ==> result.val() == if x < i as int {
                values[x]
            } else {
                0
            },
        decreases n - i,
    {
        let mut term = p_i[i];
        proof {
            lemma_mod_noop(term.val());
        }
        let i_f = Fe::from_u64(i as u64);
        proof {
            lemma_usize_in_field(i);
        }
        let mut j: usize = 0;
        while j < n
            invariant
                n == p_i@.len(),
                i < n,
                forall|m: int| 0 <= m < p_i@.len() ==> (#[trigger] p_i@[m]).wf(),
                eval_at.wf(),
                x == eval_at.val(),
                values == vals(p_i@),
                i_f.wf(),
                i_f.val() == i as int,
                j <= n,
                term.wf(),
                term.val() == lag_term(values, i as int, x, j as int),
                0 <= x < n && x != i as int && x < j as int ==> term.val() == 0,
                x == i as int ==> term.val() == values[i as int],
            decreases n - j,
        {
            if j != i {
                let j_f = Fe::from_u64(j as u64);
                proof {
                    lemma_usize_in_field(j);
                    lemma_fsub_nonzero(i as int, j as int);
                }
                let num = fe_sub(eval_at, &j_f);
                let den = fe_sub(&i_f, &j_f);
                let scaled = fe_mul(&term, &num);
                let newterm = fe_div(&scaled, &den);
                proof {
                    let c = den.val();
                    if x == i as int {
                        // the factor pair collapses: t·c·c⁻¹ == t
                        lemma_fmul_assoc(term.val(), c, finv(c));
                        assert(term.val() * 1 == term.val()) by (nonlinear_arith);
                        lemma_mod_noop(term.val());
                    }
                    if 0 <= x < n && x != i as int && j as int == x {
                        // the (x − j) factor is zero, so the term dies here
                        assert(fsub(x, j as int) == 0);
                        assert(term.val() * 0 == 0) by (nonlinear_arith);
                    }
                    if 0 <= x < n && x != i as int && x < j as int {
                        // a dead term stays dead
                        assert(0 * num.val() == 0) by (nonlinear_arith);
                        assert(0 * finv(c) == 0) by (nonlinear_arith);
                    }
                }
                term = newterm;
            }
            j = j + 1;
        }
        let ghost oldres = result.val();
        result = fe_add(&result, &term);
        proof {
            if 0 <= x < n {
                if x == i as int {
                    lemma_mod_noop(values[x]);
                } else {
                    lemma_mod_noop(oldres);
                }
            }
        }
        i = i + 1;
    }
    result
}

impl IPForSumCheck {
    /// The verifier's starting state for a session with these public
    /// parameters: round one, empty histories.
    pub fn verifier_init(info: &PolyInfoForVerifier) -> (r: VerifierState)
        requires
            info.max_num_multiplicands < usize::MAX,
        ensures
            r.wf(),
            r.num_of_variables == info.num_of_variables,
            r.max_multiplicands == info.max_num_multiplicands,
            r.random_points@.len() == 0,
            r.polynomials_received@.len() == 0,
            !r.finished,
            r.round == 1,
    {
        VerifierState {
            round: 1,
            random_points: Vec::new(),
            num_of_variables: info.num_of_variables,
            max_multiplicands: info.max_num_multiplicands,
            finished: false,
            polynomials_received: Vec::new(),
        }
    }

    /// One uniformly sampled challenge; whatever was drawn, it is canonical.
    pub fn generate_message(rng: &mut StdRng) -> (r: VerifierMsg)
        ensures
            r.rand_point.wf(),
    {
        VerifierMsg { rand_point: fe_sample(rng) }
    }

    /// Record the round's prover message, sample the round's challenge, and
    /// advance: the challenge is minted only upon receipt of the message,
    /// and both are appended to their histories.
    pub fn verify_round(
        verifier_state: VerifierState,
        p_msg: ProverMsg,
        rng: &mut StdRng,
    ) -> (r: (Option<VerifierMsg>, VerifierState))
        requires
            verifier_state.wf(),
            !verifier_state.finished,
            verifier_state.polynomials_received@.len() < verifier_state.num_of_variables,
            forall|j: int|
                0 <= j < p_msg.evaluations@.len() ==> (#[trigger] p_msg.evaluations@[j]).wf(),
        ensures
            r.1.wf(),
            r.0 matches Some(m) && m.rand_point.wf() && r.1.random_points@
                == verifier_state.random_points@.push(m.rand_point),
            r.1.polynomials_received@ == verifier_state.polynomials_received@.push(
                p_msg.evaluations,
            ),
            r.1.num_of_variables == verifier_state.num_of_variables,
            r.1.max_multiplicands == verifier_state.max_multiplicands,
            r.1.finished <==> r.1.polynomials_received@.len()
                == verifier_state.num_of_variables,
    {
        let mut verifier_state = verifier_state;
        let verifier_msg = Self::generate_message(rng);
        verifier_state.random_points.push(verifier_msg.rand_point);
        verifier_state.polynomials_received.push(p_msg.evaluations);

        if verifier_state.round == verifier_state.num_of_variables {
            verifier_state.finished = true;
        } else {
            verifier_state.round = verifier_state.round + 1;
        }

        (Some(verifier_msg), verifier_state)
    }

    /// The round-by-round pass over the recorded histories: check every
    /// message against the running claim and return the claim left after
    /// the last round.
    fn running_claim(verifier_state: &VerifierState, claimed_f: Fe) -> (r: Result<Fe, Error>)
        requires
            verifier_state.wf(),
            verifier_state.polynomials_received@.len() == verifier_state.num_of_variables,
            verifier_state.max_multiplicands >= 1,
            claimed_f.wf(),
        ensures
            match r {
                Ok(v) => v.wf() && running_claim_spec(
                    polys_model(verifier_state.polynomials_received@),
                    vals(verifier_state.random_points@),
                    claimed_f.val(),
                    verifier_state.max_multiplicands as int,
                ) == Ok::<int, Error>(v.val()),
                Err(e) => running_claim_spec(
                    polys_model(verifier_state.polynomials_received@),
                    vals(verifier_state.random_points@),
                    claimed_f.val(),
                    verifier_state.max_multiplicands as int,
                ) == Err::<int, Error>(e),
            },
    {
        let ghost polys = polys_model(verifier_state.polynomials_received@);
        let ghost points = vals(verifier_state.random_points@);
        let ghost d = verifier_state.max_multiplicands as int;
        let mut expected = claimed_f;
        let mut i: usize = 0;
        let nv = verifier_state.num_of_variables;
        proof {
            assert(polys.skip(0) =~= polys);
            assert(points.skip(0) =~= points);
        }
        while i < nv
            invariant
                verifier_state.wf(),
                nv == verifier_state.num_of_variables,
                verifier_state.polynomials_received@.len() == nv,
                verifier_state.max_multiplicands as int == d,
                d >= 1,
                polys == polys_model(verifier_state.polynomials_received@),
                points == vals(verifier_state.random_points@),
                i <= nv,
                expected.wf(),
                running_claim_spec(polys, points, claimed_f.val(), d) == running_claim_spec(
                    polys.skip(i as int),
                    points.skip(i as int),
                    expected.val(),
                    d,
                ),
                claimed_f.wf(),
            decreases nv - i,
        {
            proof {
                assert(polys.skip(i as int).len() == nv - i);
                assert(polys.skip(i as int)[0] == polys[i as int]);
                assert(points.skip(i as int)[0] == points[i as int]);
                assert(polys[i as int] == vals(verifier_state.polynomials_received@[i as int]@));
                assert(points[i as int] == verifier_state.random_points@[i as int].val());
            }
            let evaluations = &verifier_state.polynomials_received[i];
            if evaluations.len() != verifier_state.max_multiplicands + 1 {
                return Err(Error::MalformedMessage);
            }
            let p0 = evaluations[0];
            let p1 = evaluations[1];
            let s = fe_add(&p0, &p1);
            if s != expected {
                proof {
                    if s.val() == expected.val() {
                        lemma_val_injective(s, expected);
                    }
                }
                return Err(Error::Reject);
            }
            let rp = verifier_state.random_points[i];
            let next = interpolate_uni_poly(evaluations, &rp);
            proof {
                assert(polys.skip(i as int).drop_first() =~= polys.skip(i as int + 1));
                assert(points.skip(i as int).drop_first() =~= points.skip(i as int + 1));
            }
            expected = next;
            i = i + 1;
        }
        proof {
            assert(polys.skip(nv as int) =~= Seq::<Seq<int>>::empty());
        }
        Ok(expected)
    }

    /// The final acceptance pass over the recorded histories, checking the
    /// claimed boolean-hypercube sum: per round, the message must carry
    /// exactly d+1 values (else the session was malformed), and their first
    /// two must sum to the running claim (else the claim is rejected),
    /// which then moves to the round polynomial's value at that round's
    /// challenge. This pass alone never compares the final claim against
    /// the polynomial itself; `acceptance_with_oracle` closes that gap.
    pub fn acceptance(verifier_state: VerifierState, claimed_f: Fe) -> (r: Result<bool, Error>)
        requires
            verifier_state.wf(),
            verifier_state.polynomials_received@.len() == verifier_state.num_of_variables,
            verifier_state.max_multiplicands >= 1,
            claimed_f.wf(),
        ensures
            r == acceptance_spec(
                polys_model(verifier_state.polynomials_received@),
                vals(verifier_state.random_points@),
                claimed_f.val(),
                verifier_state.max_multiplicands as int,
            ),
    {
        match Self::running_claim(&verifier_state, claimed_f) {
            Ok(_) => Ok(true),
            Err(e) => Err(e),
        }
    }

    /// Acceptance closed by the final oracle comparison that the plain
    /// pass leaves out: the caller evaluates the represented polynomial at
    /// the verifier's full vector of challenges and hands that value in,
    /// and the claim left after the rounds must equal it, else the outcome
    /// is a rejection.
    pub fn acceptance_with_oracle(
        verifier_state: VerifierState,
        claimed_f: Fe,
        oracle_value: Fe,
    ) -> (r: Result<bool, Error>)
        requires
            verifier_state.wf(),
            verifier_state.polynomials_received@.len() == verifier_state.num_of_variables,
            verifier_state.max_multiplicands >= 1,
            claimed_f.wf(),
            oracle_value.wf(),
        ensures
            r == acceptance_with_oracle_spec(
                polys_model(verifier_state.polynomials_received@),
                vals(verifier_state.random_points@),
                claimed_f.val(),
                verifier_state.max_multiplicands as int,
                oracle_value.val(),
            ),
    {
        match Self::running_claim(&verifier_state, claimed_f) {
            Ok(v) => {
                if v == oracle_value {
                    Ok(true)
                } else {
                    proof {
                        if v.val() == oracle_value.val() {
                            lemma_val_injective(v, oracle_value);
                        }
                    }
                    Err(Error::Reject)
                }
            },
            Err(e) => Err(e),
        }
    }
}

} // verus!
