use vstd::prelude::*;
use vstd::arithmetic::power2::{lemma_pow2_strictly_increases, lemma_pow2_unfold, pow2};
use crate::field::{fe_add, fe_mul, fe_sub, fsub, lemma_mod_noop, Fe};
use crate::polynomial_rep::{
    hyper_sum, pool_wf, row_values, tables_model, term_prod, terms_model, terms_sum, terms_wf,
    PolynomialRep,
};
use crate::table::{fold_once, lemma_fold_once_wf, pow2_usize, table_evals, table_num_vars, Table};
use crate::protocol::verifier_engine::VerifierMsg;
use crate::protocol::IPForSumCheck;
use crate::Error;

verus! {

/// The prover's per-round message: the round's univariate polynomial
/// presented by its values at the integer abscissas 0,…,d.
pub struct ProverMsg {
    pub evaluations: Vec<Fe>,
}

/// The prover's side of the session: the challenges received so far, the
/// immutable term list, and a private table pool folded round by round.
pub struct ProverState {
    pub random_points: Vec<Fe>,
    pub round: usize,
    pub max_num_multiplicands: usize,
    pub num_of_variables: usize,
    pub coeff_and_index: Vec<(Fe, Vec<usize>)>,
    pub poly_extensions: Vec<Table>,
}

/// Every table in the pool with its next free variable bound to r.
pub open spec fn fold_all(tables: Seq<Seq<int>>, r: int) -> Seq<Seq<int>> {
    tables.map_values(|s: Seq<int>| fold_once(s, r))
}

impl ProverState {
    /// The state after k rounds holds k−1 challenges (none before the first
    /// round), tables over the still-unbound variables, and a sound term
    /// list.
    pub open spec fn wf(self) -> bool {
        &&& pow2(self.num_of_variables as nat) <= usize::MAX
        &&& self.max_num_multiplicands < usize::MAX
        &&& self.round <= self.num_of_variables
        &&& self.random_points@.len() == if self.round == 0 {
            0int
        } else {
            self.round - 1
        }
        &&& forall|i: int|
            0 <= i < self.random_points@.len() ==> (#[trigger] self.random_points@[i]).wf()
        &&& pool_wf(
            self.poly_extensions@,
            self.num_of_variables - self.random_points@.len(),
        )
        &&& terms_wf(
            self.coeff_and_index@,
            self.poly_extensions@.len() as int,
            self.max_num_multiplicands as int,
        )
    }
}

/// A round call is legal exactly when rounds remain and the challenge
/// alternation is respected: no challenge on the first round, one on every
/// later round.
pub open spec fn prove_round_ok(prev: ProverState, v_msg: Option<VerifierMsg>) -> bool {
    &&& prev.round < prev.num_of_variables
    &&& (v_msg is Some <==> prev.round >= 1)
}

/// What a successful round delivers: the challenge, if any, is recorded and
/// folded into every table; the round advances; and the message holds the
/// round polynomial's value at every integer abscissa 0,…,d — at abscissa
/// t, the weighted term sum over the remaining boolean assignments with the
/// next variable bound to t.
pub open spec fn prove_round_post(
    prev: ProverState,
    v_msg: Option<VerifierMsg>,
    msg: ProverMsg,
    st: ProverState,
) -> bool {
    let tables = match v_msg {
        Some(m) => fold_all(tables_model(prev.poly_extensions@), m.rand_point.val()),
        None => tables_model(prev.poly_extensions@),
    };
    let remaining = pow2((st.num_of_variables - st.round) as nat) as int;
    &&& st.wf()
    &&& st.round == prev.round + 1
    &&& st.num_of_variables == prev.num_of_variables
    &&& st.max_num_multiplicands == prev.max_num_multiplicands
    &&& terms_model(st.coeff_and_index@) == terms_model(prev.coeff_and_index@)
    &&& st.random_points@ == match v_msg {
        Some(m) => prev.random_points@.push(m.rand_point),
        None => prev.random_points@,
    }
    &&& tables_model(st.poly_extensions@) == tables
    &&& msg.evaluations@.len() == prev.max_num_multiplicands + 1
    &&& forall|t: int|
        0 <= t < msg.evaluations@.len() ==> (#[trigger] msg.evaluations@[t]).wf()
            && msg.evaluations@[t].val() == hyper_sum(
            terms_model(st.coeff_and_index@),
            fold_all(tables, t),
            remaining,
        )
}

/// The round-consistency shape of an honest round message: its values at
/// the boolean abscissas 0 and 1 together cover the pool's whole
/// boolean-hypercube sum. Since `prove_round` promises that the message's
/// entry at abscissa t is the weighted term sum over the remaining
/// assignments with the next variable bound to t, this says that
/// msg[0] + msg[1] reproduces the running value the verifier checks it
/// against — the per-round completeness identity.
#[verifier::rlimit(60)]
pub proof fn lemma_round_message_halves(
    terms: Seq<(int, Seq<usize>)>,
    tables: Seq<Seq<int>>,
    count: int,
)
    requires
        count >= 0,
        forall|n: int|
            0 <= n < tables.len() ==> (#[trigger] tables[n]).len() >= 2 * count && forall|e: int|
                0 <= e < tables[n].len() ==> 0 <= #[trigger] tables[n][e] < crate::field::p(),
    ensures
        crate::field::fadd(
            hyper_sum(terms, fold_all(tables, 0), count),
            hyper_sum(terms, fold_all(tables, 1), count),
        ) == hyper_sum(terms, tables, 2 * count),
    decreases count,
{
    if count == 0 {
        assert(crate::field::fadd(0, 0) == 0) by {
            crate::field::lemma_mod_noop(0);
        }
    } else {
        lemma_round_message_halves(terms, tables, count - 1);
        let c = count;
        let ep = hyper_sum(terms, fold_all(tables, 0), c - 1);
        let op = hyper_sum(terms, fold_all(tables, 1), c - 1);
        let p0 = terms_sum(terms, row_values(fold_all(tables, 0), c - 1), terms.len() as int);
        let p1 = terms_sum(terms, row_values(fold_all(tables, 1), c - 1), terms.len() as int);
        assert forall|n: int| 0 <= n < tables.len() implies #[trigger] fold_all(tables, 0)[n][c - 1]
            == tables[n][2 * c - 2] by {
            crate::table::lemma_fold_once_boolean(tables[n], 0);
        }
        assert forall|n: int| 0 <= n < tables.len() implies #[trigger] fold_all(tables, 1)[n][c - 1]
            == tables[n][2 * c - 1] by {
            crate::table::lemma_fold_once_boolean(tables[n], 1);
        }
        assert(row_values(fold_all(tables, 0), c - 1) =~= row_values(tables, 2 * c - 2));
        assert(row_values(fold_all(tables, 1), c - 1) =~= row_values(tables, 2 * c - 1));
        assert(hyper_sum(terms, fold_all(tables, 0), c) == crate::field::fadd(ep, p0));
        assert(hyper_sum(terms, fold_all(tables, 1), c) == crate::field::fadd(op, p1));
        assert(hyper_sum(terms, tables, 2 * c - 1) == crate::field::fadd(
            hyper_sum(terms, tables, 2 * (c - 1)),
            p0,
        ));
        assert(hyper_sum(terms, tables, 2 * c) == crate::field::fadd(
            crate::field::fadd(hyper_sum(terms, tables, 2 * (c - 1)), p0),
            p1,
        ));
        let eo = crate::field::fadd(ep, op);
        assert(hyper_sum(terms, tables, 2 * (c - 1)) == eo);
        // rearrange (ep + p0) + (op + p1) into ((ep + op) + p0) + p1
        crate::field::lemma_fadd_assoc(ep, p0, crate::field::fadd(op, p1));
        crate::field::lemma_fadd_assoc(p0, op, p1);
        assert(crate::field::fadd(p0, op) == crate::field::fadd(op, p0));
        crate::field::lemma_fadd_assoc(op, p0, p1);
        assert(crate::field::fadd(
            crate::field::fadd(ep, p0),
            crate::field::fadd(op, p1),
        ) == crate::field::fadd(ep, crate::field::fadd(op, crate::field::fadd(p0, p1))));
        crate::field::lemma_fadd_assoc(ep, op, crate::field::fadd(p0, p1));
        crate::field::lemma_fadd_assoc(eo, p0, p1);
    }
}

/// Completeness at the opening round: the first message of an honest
/// prover passes the verifier's first check against the true claim. Its
/// values at the boolean abscissas 0 and 1 sum to the representation's
/// whole boolean-hypercube sum — so when the claimed sum is the true sum,
/// the opening check `msg[0] + msg[1] == claimed` holds.
pub proof fn lemma_first_message_covers_hypercube_sum(
    rep: PolynomialRep,
    prev: ProverState,
    msg: ProverMsg,
    st: ProverState,
)
    requires
        rep.wf(),
        rep.max_num_multiplicands >= 1,
        rep.num_of_variables >= 1,
        prev.round == 0,
        prev.wf(),
        prev.num_of_variables == rep.num_of_variables,
        prev.max_num_multiplicands == rep.max_num_multiplicands,
        terms_model(prev.coeff_and_index@) == rep.terms(),
        tables_model(prev.poly_extensions@) == rep.tables(),
        prove_round_post(prev, None, msg, st),
    ensures
        crate::field::fadd(msg.evaluations@[0].val(), msg.evaluations@[1].val())
            == rep.hypercube_sum(),
{
    let terms = rep.terms();
    let tables = rep.tables();
    let nv = rep.num_of_variables as int;
    let count = pow2((nv - 1) as nat) as int;
    lemma_pow2_unfold(rep.num_of_variables as nat);
    assert(msg.evaluations@[0].val() == hyper_sum(terms, fold_all(tables, 0), count));
    assert(msg.evaluations@[1].val() == hyper_sum(terms, fold_all(tables, 1), count));
    assert forall|n: int| 0 <= n < tables.len() implies (#[trigger] tables[n]).len() >= 2 * count
        && forall|e: int|
        0 <= e < tables[n].len() ==> 0 <= #[trigger] tables[n][e] < crate::field::p() by {
        assert(crate::table::table_wf(rep.poly_extensions@[n]));
    }
    lemma_round_message_halves(terms, tables, count);
}

impl IPForSumCheck {
    /// The prover's starting state: a deep copy of the term list and the
    /// table pool, so the engine never mutates caller-owned data; round
    /// zero, no challenges yet.
    pub fn prover_init(polynomial_rep: &PolynomialRep) -> (r: ProverState)
        requires
            polynomial_rep.wf(),
        ensures
            r.wf(),
            r.round == 0,
            r.random_points@.len() == 0,
            r.max_num_multiplicands == polynomial_rep.max_num_multiplicands,
            r.num_of_variables == polynomial_rep.num_of_variables,
            terms_model(r.coeff_and_index@) == polynomial_rep.terms(),
            tables_model(r.poly_extensions@) == polynomial_rep.tables(),
    {
        let mut coeff_and_index: Vec<(Fe, Vec<usize>)> = Vec::new();
        let mut k: usize = 0;
        while k < polynomial_rep.coeff_and_index.len()
            invariant
                polynomial_rep.wf(),
                k <= polynomial_rep.coeff_and_index@.len(),
                coeff_and_index@.len() == k,
                forall|m: int|
                    0 <= m < k ==> (#[trigger] coeff_and_index@[m]).0
                        == polynomial_rep.coeff_and_index@[m].0 && coeff_and_index@[m].1@
                        == polynomial_rep.coeff_and_index@[m].1@,
            decreases polynomial_rep.coeff_and_index@.len() - k,
        {
            let coeff = polynomial_rep.coeff_and_index[k].0;
            let mut idxs: Vec<usize> = Vec::new();
            let mut j: usize = 0;
            while j < polynomial_rep.coeff_and_index[k].1.len()
                invariant
                    polynomial_rep.wf(),
                    k < polynomial_rep.coeff_and_index@.len(),
                    j <= polynomial_rep.coeff_and_index@[k as int].1@.len(),
                    idxs@.len() == j,
                    forall|m: int|
                        0 <= m < j ==> (#[trigger] idxs@[m])
                            == polynomial_rep.coeff_and_index@[k as int].1@[m],
                decreases polynomial_rep.coeff_and_index@[k as int].1@.len() - j,
            {
                idxs.push(polynomial_rep.coeff_and_index[k].1[j]);
                j = j + 1;
            }
            proof {
                assert(idxs@ =~= polynomial_rep.coeff_and_index@[k as int].1@);
            }
            coeff_and_index.push((coeff, idxs));
            k = k + 1;
        }
        let mut poly_extensions: Vec<Table> = Vec::new();
        let mut t: usize = 0;
        while t < polynomial_rep.poly_extensions.len()
            invariant
                polynomial_rep.wf(),
                t <= polynomial_rep.poly_extensions@.len(),
                poly_extensions@.len() == t,
                forall|m: int|
                    0 <= m < t ==> table_evals(#[trigger] poly_extensions@[m]) == table_evals(
                        polynomial_rep.poly_extensions@[m],
                    ) && table_num_vars(poly_extensions@[m]) == table_num_vars(
                        polynomial_rep.poly_extensions@[m],
                    ),
            decreases polynomial_rep.poly_extensions@.len() - t,
        {
            let copy = polynomial_rep.poly_extensions[t].duplicate();
            poly_extensions.push(copy);
            t = t + 1;
        }
        let r = ProverState {
            random_points: Vec::new(),
            round: 0,
            max_num_multiplicands: polynomial_rep.max_num_multiplicands,
            num_of_variables: polynomial_rep.num_of_variables,
            coeff_and_index,
            poly_extensions,
        };
        proof {
            assert(terms_model(r.coeff_and_index@) =~= polynomial_rep.terms());
            assert(tables_model(r.poly_extensions@) =~= polynomial_rep.tables());
        }
        r
    }

    /// One prover round. The first call must pass no challenge and every
    /// later call must pass one — anything else is a usage error, as is a
    /// call past the last round. On success: the challenge is folded into
    /// the pool, and the returned message carries the round polynomial's
    /// values at the abscissas 0,…,d.
    pub fn prove_round(prover_state: ProverState, v_msg: &Option<VerifierMsg>) -> (r: Result<
        (ProverMsg, ProverState),
        Error,
    >)
        requires
            prover_state.wf(),
            (*v_msg) matches Some(m) ==> m.rand_point.wf(),
        ensures
            r is Ok <==> prove_round_ok(prover_state, *v_msg),
            r is Err ==> r == Result::<(ProverMsg, ProverState), Error>::Err(Error::UsageError),
            r matches Ok(pair) ==> prove_round_post(prover_state, *v_msg, pair.0, pair.1),
    {
        let ghost prev = prover_state;
        let mut prover_state = prover_state;
        if prover_state.round >= prover_state.num_of_variables {
            return Err(Error::UsageError);
        }
        match v_msg {
            Some(_) => {
                if prover_state.round == 0 {
                    return Err(Error::UsageError);
                }
            },
            None => {
                if prover_state.round > 0 {
                    return Err(Error::UsageError);
                }
            },
        }
        if let Some(m) = v_msg {
            let r_chal = m.rand_point;
            prover_state.random_points.push(r_chal);
            let pool_len = prover_state.poly_extensions.len();
            let mut j: usize = 0;
            while j < pool_len
                invariant
                    prev.wf(),
                    1 <= prev.round < prev.num_of_variables,
                    r_chal.wf(),
                    pool_len == prev.poly_extensions@.len(),
                    prover_state.poly_extensions@.len() == pool_len,
                    prover_state.random_points@ == prev.random_points@.push(r_chal),
                    prover_state.round == prev.round,
                    prover_state.num_of_variables == prev.num_of_variables,
                    prover_state.max_num_multiplicands == prev.max_num_multiplicands,
                    prover_state.coeff_and_index == prev.coeff_and_index,
                    j <= pool_len,
                    forall|n: int|
                        0 <= n < j ==> table_evals(#[trigger] prover_state.poly_extensions@[n])
                            == fold_once(
                            table_evals(prev.poly_extensions@[n]),
                            r_chal.val(),
                        ) && table_num_vars(prover_state.poly_extensions@[n]) == table_num_vars(
                            prev.poly_extensions@[n],
                        ) - 1,
                    forall|n: int|
                        j <= n < pool_len ==> prover_state.poly_extensions@[n]
                            == prev.poly_extensions@[n],
                decreases pool_len - j,
            {
                proof {
                    assert(table_num_vars(prev.poly_extensions@[j as int]) == prev.num_of_variables
                        - (prev.round - 1));
                }
                let folded = prover_state.poly_extensions[j].fix_first_variable(&r_chal);
                prover_state.poly_extensions[j] = folded;
                j = j + 1;
            }
            proof {
                let old_nv = prev.num_of_variables - (prev.round - 1);
                assert forall|n: int| 0 <= n < pool_len implies crate::table::table_wf(
                    #[trigger] prover_state.poly_extensions@[n],
                ) && table_num_vars(prover_state.poly_extensions@[n]) == old_nv - 1 by {
                    lemma_fold_once_wf(table_evals(prev.poly_extensions@[n]), r_chal.val());
                    lemma_pow2_unfold(old_nv as nat);
                }
            }
        }
        prover_state.round = prover_state.round + 1;
        proof {
            assert(prover_state.wf());
        }

        let ghost terms = terms_model(prover_state.coeff_and_index@);
        let ghost tables = tables_model(prover_state.poly_extensions@);
        let round = prover_state.round;
        let num_variables = prover_state.num_of_variables;
        let degree = prover_state.max_num_multiplicands;
        proof {
            if num_variables - round < num_variables {
                lemma_pow2_strictly_increases(
                    (num_variables - round) as nat,
                    num_variables as nat,
                );
            }
            lemma_pow2_unfold((num_variables - round + 1) as nat);
            if num_variables - round + 1 < num_variables {
                lemma_pow2_strictly_increases(
                    (num_variables - round + 1) as nat,
                    num_variables as nat,
                );
            }
            assert forall|n: int| 0 <= n < tables.len() implies (#[trigger] tables[n]).len()
                == pow2((num_variables - round + 1) as nat) && forall|e: int|
                0 <= e < tables[n].len() ==> 0 <= #[trigger] tables[n][e] < crate::field::p() by {
                assert(crate::table::table_wf(prover_state.poly_extensions@[n]));
                assert(tables[n] == table_evals(prover_state.poly_extensions@[n]));
            }
        }
        let half = pow2_usize(num_variables - round);

        let mut evaluation_sum: Vec<Fe> = Vec::new();
        let mut t: usize = 0;
        while t < degree + 1
            invariant
                t <= degree + 1,
                degree < usize::MAX,
                evaluation_sum@.len() == t,
                forall|u: int|
                    0 <= u < t ==> (#[trigger] evaluation_sum@[u]).wf() && evaluation_sum@[u].val()
                        == 0,
            decreases degree + 1 - t,
        {
            evaluation_sum.push(Fe::zero());
            t = t + 1;
        }

        let mut i: usize = 0;
        while i < half
            invariant
                prover_state.wf(),
                terms == terms_model(prover_state.coeff_and_index@),
                tables == tables_model(prover_state.poly_extensions@),
                round == prover_state.round,
                1 <= round <= num_variables,
                num_variables == prover_state.num_of_variables,
                degree == prover_state.max_num_multiplicands,
                half == pow2((num_variables - round) as nat),
                2 * half == pow2((num_variables - round + 1) as nat),
                2 * half <= usize::MAX,
                forall|n: int|
                    0 <= n < tables.len() ==> (#[trigger] tables[n]).len() == 2 * half
                        && forall|e: int|
                        0 <= e < tables[n].len() ==> 0 <= #[trigger] tables[n][e]
                            < crate::field::p(),
                i <= half,
                evaluation_sum@.len() == degree + 1,
                forall|u: int|
                    0 <= u < degree + 1 ==> (#[trigger] evaluation_sum@[u]).wf()
                        && evaluation_sum@[u].val() == hyper_sum(
                        terms,
                        fold_all(tables, u),
                        i as int,
                    ),
            decreases half - i,
        {
            let mut t: usize = 0;
            while t < degree + 1
                invariant
                    prover_state.wf(),
                    terms == terms_model(prover_state.coeff_and_index@),
                    tables == tables_model(prover_state.poly_extensions@),
                    round == prover_state.round,
                    1 <= round <= num_variables,
                    num_variables == prover_state.num_of_variables,
                    degree == prover_state.max_num_multiplicands,
                    half == pow2((num_variables - round) as nat),
                    2 * half == pow2((num_variables - round + 1) as nat),
                    2 * half <= usize::MAX,
                    forall|n: int|
                        0 <= n < tables.len() ==> (#[trigger] tables[n]).len() == 2 * half
                            && forall|e: int|
                            0 <= e < tables[n].len() ==> 0 <= #[trigger] tables[n][e]
                                < crate::field::p(),
                    i < half,
                    t <= degree + 1,
                    evaluation_sum@.len() == degree + 1,
                    forall|u: int|
                        0 <= u < t ==> (#[trigger] evaluation_sum@[u]).wf()
                            && evaluation_sum@[u].val() == hyper_sum(
                            terms,
                            fold_all(tables, u),
                            i as int + 1,
                        ),
                    forall|u: int|
                        t <= u < degree + 1 ==> (#[trigger] evaluation_sum@[u]).wf()
                            && evaluation_sum@[u].val() == hyper_sum(
                            terms,
                            fold_all(tables, u),
                            i as int,
                        ),
                decreases degree + 1 - t,
            {
                let t_f = Fe::from_u64(t as u64);
                let one = Fe::one();
                let one_minus_t = fe_sub(&one, &t_f);
                proof {
                    crate::protocol::verifier_engine::lemma_usize_in_field(t);
                }
                let ghost row = row_values(fold_all(tables, t as int), i as int);
                let mut acc_point = Fe::zero();
                let mut k: usize = 0;
                while k < prover_state.coeff_and_index.len()
                    invariant
                        prover_state.wf(),
                        terms == terms_model(prover_state.coeff_and_index@),
                        tables == tables_model(prover_state.poly_extensions@),
                        forall|n: int|
                            0 <= n < tables.len() ==> (#[trigger] tables[n]).len() == 2 * half
                                && forall|e: int|
                                0 <= e < tables[n].len() ==> 0 <= #[trigger] tables[n][e]
                                    < crate::field::p(),
                        2 * half <= usize::MAX,
                        i < half,
                        t_f.wf(),
                        t_f.val() == t as int,
                        one_minus_t.wf(),
                        one_minus_t.val() == fsub(1, t as int),
                        row == row_values(fold_all(tables, t as int), i as int),
                        k <= prover_state.coeff_and_index@.len(),
                        acc_point.wf(),
                        acc_point.val() == terms_sum(terms, row, k as int),
                    decreases prover_state.coeff_and_index@.len() - k,
                {
                    let coeff = prover_state.coeff_and_index[k].0;
                    let mut product = coeff;
                    proof {
                        lemma_mod_noop(coeff.val());
                    }
                    let width = prover_state.coeff_and_index[k].1.len();
                    let mut j: usize = 0;
                    while j < width
                        invariant
                            prover_state.wf(),
                            terms == terms_model(prover_state.coeff_and_index@),
                            tables == tables_model(prover_state.poly_extensions@),
                            forall|n: int|
                                0 <= n < tables.len() ==> (#[trigger] tables[n]).len() == 2 * half
                                    && forall|e: int|
                                    0 <= e < tables[n].len() ==> 0 <= #[trigger] tables[n][e]
                                        < crate::field::p(),
                            2 * half <= usize::MAX,
                            i < half,
                            t_f.wf(),
                            t_f.val() == t as int,
                            one_minus_t.wf(),
                            one_minus_t.val() == fsub(1, t as int),
                            row == row_values(fold_all(tables, t as int), i as int),
                            k < prover_state.coeff_and_index@.len(),
                            coeff == prover_state.coeff_and_index@[k as int].0,
                            width == prover_state.coeff_and_index@[k as int].1@.len(),
                            j <= width,
                            product.wf(),
                            product.val() == term_prod(
                                row,
                                coeff.val(),
                                prover_state.coeff_and_index@[k as int].1@,
                                j as int,
                            ),
                        decreases width - j,
                    {
                        let idx = prover_state.coeff_and_index[k].1[j];
                        proof {
                            assert(idx < prover_state.poly_extensions@.len());
                            assert(tables[idx as int] == table_evals(
                                prover_state.poly_extensions@[idx as int],
                            ));
                            assert(tables[idx as int].len() == 2 * half);
                        }
                        let left = prover_state.poly_extensions[idx].entry(2 * i);
                        let right = prover_state.poly_extensions[idx].entry(2 * i + 1);
                        let bracket = fe_add(
                            &fe_mul(&left, &one_minus_t),
                            &fe_mul(&right, &t_f),
                        );
                        proof {
                            assert(fold_all(tables, t as int)[idx as int] == fold_once(
                                tables[idx as int],
                                t as int,
                            ));
                            assert(row[idx as int] == fold_once(tables[idx as int], t as int)[
                                i as int
                            ]);
                        }
                        product = fe_mul(&product, &bracket);
                        j = j + 1;
                    }
                    proof {
                        assert(terms[k as int] == crate::polynomial_rep::term_model(
                            prover_state.coeff_and_index@[k as int],
                        ));
                    }
                    acc_point = fe_add(&acc_point, &product);
                    k = k + 1;
                }
                let cur = evaluation_sum[t];
                evaluation_sum[t] = fe_add(&cur, &acc_point);
                t = t + 1;
            }
            i = i + 1;
        }
        let msg = ProverMsg { evaluations: evaluation_sum };
        proof {
            assert(tables_model(prover_state.poly_extensions@) =~= match *v_msg {
                Some(mm) => fold_all(tables_model(prev.poly_extensions@), mm.rand_point.val()),
                None => tables_model(prev.poly_extensions@),
            });
        }
        Ok((msg, prover_state))
    }
}

} // verus!
