use vstd::prelude::*;
use vstd::arithmetic::power2::pow2;
use crate::field::{fadd, fmul, lemma_mod_noop, p, Fe};
use crate::table::{
    bool_index, is_boolean_point, lemma_bool_index_in_range, lemma_mle_eval_boolean, mle_eval,
    table_evals, table_num_vars, table_wf, Table,
};

verus! {

/// The values a sequence of field elements stands for.
pub open spec fn vals(s: Seq<Fe>) -> Seq<int> {
    s.map_values(|e: Fe| e.val())
}

/// A term as the model sees it: a coefficient and the table indices it
/// multiplies.
pub open spec fn term_model(t: (Fe, Vec<usize>)) -> (int, Seq<usize>) {
    (t.0.val(), t.1@)
}

/// The whole term list as the model sees it.
pub open spec fn terms_model(s: Seq<(Fe, Vec<usize>)>) -> Seq<(int, Seq<usize>)> {
    s.map_values(|t: (Fe, Vec<usize>)| term_model(t))
}

/// The contents of a pool of tables.
pub open spec fn tables_model(s: Seq<Table>) -> Seq<Seq<int>> {
    s.map_values(|t: Table| table_evals(t))
}

/// The coefficient times the product of the first k referenced values:
/// coeff · values[idxs[0]] · … · values[idxs[k−1]], modulo p.
pub open spec fn term_prod(values: Seq<int>, coeff: int, idxs: Seq<usize>, k: int) -> int
    decreases k,
{
    if k <= 0 {
        coeff % p()
    } else {
        fmul(term_prod(values, coeff, idxs, k - 1), values[idxs[k - 1] as int])
    }
}

/// The sum of the first k terms, each evaluated against the given per-table
/// values: Σ coeff · Π values[index], modulo p.
pub open spec fn terms_sum(terms: Seq<(int, Seq<usize>)>, values: Seq<int>, k: int) -> int
    decreases k,
{
    if k <= 0 {
        0
    } else {
        fadd(
            terms_sum(terms, values, k - 1),
            term_prod(values, terms[k - 1].0, terms[k - 1].1, terms[k - 1].1.len() as int),
        )
    }
}

/// Row i of a pool of tables: each table's value at hypercube index i.
pub open spec fn row_values(tables: Seq<Seq<int>>, i: int) -> Seq<int> {
    tables.map_values(|s: Seq<int>| s[i])
}

/// The weighted term sum over the first `count` hypercube indices.
pub open spec fn hyper_sum(
    terms: Seq<(int, Seq<usize>)>,
    tables: Seq<Seq<int>>,
    count: int,
) -> int
    decreases count,
{
    if count <= 0 {
        0
    } else {
        fadd(
            hyper_sum(terms, tables, count - 1),
            terms_sum(terms, row_values(tables, count - 1), terms.len() as int),
        )
    }
}

/// Soundness of a term list against a pool: coefficients canonical, no
/// term wider than the bound, every index inside the pool.
pub open spec fn terms_wf(
    terms: Seq<(Fe, Vec<usize>)>,
    pool_len: int,
    max_multiplicands: int,
) -> bool {
    forall|k: int|
        0 <= k < terms.len() ==> (#[trigger] terms[k]).0.wf() && terms[k].1@.len()
            <= max_multiplicands && forall|j: int|
            0 <= j < terms[k].1@.len() ==> (#[trigger] terms[k].1@[j]) < pool_len
}

/// Soundness of a table pool: every table sound, over the same variables.
pub open spec fn pool_wf(pool: Seq<Table>, num_vars: int) -> bool {
    forall|j: int|
        0 <= j < pool.len() ==> table_wf(#[trigger] pool[j]) && table_num_vars(pool[j]) == num_vars
}

/// A multivariate polynomial presented as a weighted sum of products of
/// multilinear tables: each term is a coefficient together with the indices
/// of the tables it multiplies, the tables being shared through a pool.
pub struct PolynomialRep {
    /// The largest number of tables multiplied in any single term.
    pub max_num_multiplicands: usize,
    /// The number of boolean variables every table ranges over.
    pub num_of_variables: usize,
    /// The terms: a coefficient and the pool indices of its multiplicands.
    pub coeff_and_index: Vec<(Fe, Vec<usize>)>,
    /// The shared pool of tables; several terms may reference one table.
    pub poly_extensions: Vec<Table>,
}

/// The projection of a representation that the verifier is allowed to see:
/// the two protocol parameters and nothing of the terms or tables.
#[derive(Clone, Copy, PartialEq, Eq, Structural, Debug)]
pub struct PolyInfoForVerifier {
    pub num_of_variables: usize,
    pub max_num_multiplicands: usize,
}

impl PolynomialRep {
    /// The pool contents as the model sees them.
    pub open spec fn tables(self) -> Seq<Seq<int>> {
        tables_model(self.poly_extensions@)
    }

    /// The term list as the model sees it.
    pub open spec fn terms(self) -> Seq<(int, Seq<usize>)> {
        terms_model(self.coeff_and_index@)
    }

    /// Structural soundness: every table ranges over all the variables, every
    /// index points into the pool, no term multiplies more than
    /// `max_num_multiplicands` tables, and all scalars are canonical.
    pub open spec fn wf(self) -> bool {
        &&& pow2(self.num_of_variables as nat) <= usize::MAX
        &&& self.max_num_multiplicands < usize::MAX
        &&& pool_wf(self.poly_extensions@, self.num_of_variables as int)
        &&& terms_wf(
            self.coeff_and_index@,
            self.poly_extensions@.len() as int,
            self.max_num_multiplicands as int,
        )
    }

    /// The value of the represented polynomial at a point: the weighted term
    /// sum, each table replaced by its multilinear extension at the point.
    pub open spec fn value_at(self, pt: Seq<int>) -> int {
        terms_sum(
            self.terms(),
            self.tables().map_values(|s: Seq<int>| mle_eval(s, pt)),
            self.terms().len() as int,
        )
    }

    /// The subject matter of the protocol: the value summed over every
    /// boolean assignment of the variables.
    pub open spec fn hypercube_sum(self) -> int {
        hyper_sum(self.terms(), self.tables(), pow2(self.num_of_variables as nat) as int)
    }

    /// An empty representation over the given number of variables.
    pub fn new(num_of_variables: usize) -> (r: PolynomialRep)
        requires
            pow2(num_of_variables as nat) <= usize::MAX,
        ensures
            r.wf(),
            r.num_of_variables == num_of_variables,
            r.max_num_multiplicands == 0,
            r.coeff_and_index@.len() == 0,
            r.poly_extensions@.len() == 0,
    {
        PolynomialRep {
            num_of_variables,
            coeff_and_index: Vec::new(),
            poly_extensions: Vec::new(),
            max_num_multiplicands: 0,
        }
    }

    /// The public parameters: the two scalars the verifier needs, revealing
    /// nothing about terms or tables.
    pub fn info_for_verifier(&self) -> (r: PolyInfoForVerifier)
        ensures
            r.num_of_variables == self.num_of_variables,
            r.max_num_multiplicands == self.max_num_multiplicands,
    {
        PolyInfoForVerifier {
            num_of_variables: self.num_of_variables,
            max_num_multiplicands: self.max_num_multiplicands,
        }
    }

    /// At every boolean point, the reference evaluation is the direct
    /// enumeration of the weighted term sum there: each table contributes
    /// exactly the stored value the point indexes, so `value_at` agrees
    /// with reading the tables row by row.
    pub proof fn lemma_evaluate_is_direct_enumeration(self, pt: Seq<int>)
        requires
            self.wf(),
            pt.len() == self.num_of_variables,
            is_boolean_point(pt),
        ensures
            0 <= bool_index(pt) < pow2(self.num_of_variables as nat),
            self.value_at(pt) == terms_sum(
                self.terms(),
                row_values(self.tables(), bool_index(pt)),
                self.terms().len() as int,
            ),
    {
        let values = self.tables().map_values(|s: Seq<int>| mle_eval(s, pt));
        let idx = bool_index(pt);
        lemma_bool_index_in_range(pt);
        assert forall|j: int| 0 <= j < self.tables().len() implies values[j] == row_values(
            self.tables(),
            idx,
        )[j] by {
            assert(table_wf(self.poly_extensions@[j]));
            lemma_mle_eval_boolean(self.tables()[j], pt);
        }
        assert(values =~= row_values(self.tables(), idx));
    }

    /// Reference evaluation at an arbitrary point: the weighted sum over all
    /// terms of the product of the referenced tables' extensions there.
    pub fn evaluate(&self, point: &Vec<Fe>) -> (r: Fe)
        requires
            self.wf(),
            point@.len() == self.num_of_variables,
            forall|i: int| 0 <= i < point@.len() ==> (#[trigger] point@[i]).wf(),
        ensures
            r.wf(),
            r.val() == self.value_at(vals(point@)),
    {
        let ghost values = self.tables().map_values(|s: Seq<int>| mle_eval(s, vals(point@)));
        let mut acc = Fe::zero();
        let mut k: usize = 0;
        while k < self.coeff_and_index.len()
            invariant
                self.wf(),
                point@.len() == self.num_of_variables,
                forall|i: int| 0 <= i < point@.len() ==> (#[trigger] point@[i]).wf(),
                values == self.tables().map_values(|s: Seq<int>| mle_eval(s, vals(point@))),
                k <= self.coeff_and_index@.len(),
                acc.wf(),
                acc.val() == terms_sum(self.terms(), values, k as int),
            decreases self.coeff_and_index@.len() - k,
        {
            let coeff = self.coeff_and_index[k].0;
            let mut prod = coeff;
            proof {
                lemma_mod_noop(coeff.val());
            }
            let mut j: usize = 0;
            while j < self.coeff_and_index[k].1.len()
                invariant
                    self.wf(),
                    point@.len() == self.num_of_variables,
                    forall|i: int| 0 <= i < point@.len() ==> (#[trigger] point@[i]).wf(),
                    values == self.tables().map_values(|s: Seq<int>| mle_eval(s, vals(point@))),
                    k < self.coeff_and_index@.len(),
                    coeff == self.coeff_and_index@[k as int].0,
                    j <= self.coeff_and_index@[k as int].1@.len(),
                    prod.wf(),
                    prod.val() == term_prod(
                        values,
                        coeff.val(),
                        self.coeff_and_index@[k as int].1@,
                        j as int,
                    ),
                decreases self.coeff_and_index@[k as int].1@.len() - j,
            {
                let idx = self.coeff_and_index[k].1[j];
                let factor = self.poly_extensions[idx].evaluate(point);
                prod = crate::field::fe_mul(&prod, &factor);
                j = j + 1;
            }
            acc = crate::field::fe_add(&acc, &prod);
            proof {
                assert(self.terms()[k as int] == term_model(self.coeff_and_index@[k as int]));
            }
            k = k + 1;
        }
        acc
    }
}

} // verus!
