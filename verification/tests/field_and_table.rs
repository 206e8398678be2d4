use sumcheck::field::{fe_add, fe_div, fe_inv, fe_mul, fe_sub, Fe};
use sumcheck::table::Table;

fn fe(x: u64) -> Fe {
    Fe::from_u64(x)
}

// The last element of the field, limb by limb: the field order minus one.
fn p_minus_one() -> Fe {
    Fe {
        l0: 0xffffffff00000000,
        l1: 0x53bda402fffe5bfe,
        l2: 0x3339d80809a1d805,
        l3: 0x73eda753299d7d48,
    }
}

#[test]
fn addition_small_values() {
    assert_eq!(fe_add(&fe(2), &fe(3)), fe(5));
    assert_eq!(fe_add(&fe(0), &fe(7)), fe(7));
}

#[test]
fn addition_wraps_at_the_field_order() {
    // (p − 1) + 1 == 0: the sum really is reduced modulo p
    assert_eq!(fe_add(&p_minus_one(), &Fe::one()), Fe::zero());
    // (p − 1) + 2 == 1
    assert_eq!(fe_add(&p_minus_one(), &fe(2)), Fe::one());
}

#[test]
fn subtraction_wraps_below_zero() {
    assert_eq!(fe_sub(&fe(10), &fe(4)), fe(6));
    // 0 − 1 == p − 1
    assert_eq!(fe_sub(&Fe::zero(), &Fe::one()), p_minus_one());
}

#[test]
fn multiplication_small_values() {
    assert_eq!(fe_mul(&fe(6), &fe(7)), fe(42));
    assert_eq!(fe_mul(&fe(123456789), &Fe::zero()), Fe::zero());
    // (p − 1)·(p − 1) == 1, i.e. (−1)² == 1
    assert_eq!(fe_mul(&p_minus_one(), &p_minus_one()), Fe::one());
}

#[test]
fn inverse_times_argument_is_one() {
    let seven = fe(7);
    assert_eq!(fe_mul(&fe_inv(&seven), &seven), Fe::one());
    let big = p_minus_one();
    assert_eq!(fe_mul(&fe_inv(&big), &big), Fe::one());
}

#[test]
fn division_inverts_multiplication() {
    assert_eq!(fe_div(&fe(10), &fe(2)), fe(5));
    let q = fe_div(&fe(1), &fe(3));
    assert_eq!(fe_mul(&q, &fe(3)), Fe::one());
}

#[test]
fn table_stores_and_returns_entries() {
    let evals = vec![fe(3), fe(5), fe(7), fe(11)];
    let t = Table::new(2, &evals);
    assert_eq!(t.entry(0), fe(3));
    assert_eq!(t.entry(1), fe(5));
    assert_eq!(t.entry(2), fe(7));
    assert_eq!(t.entry(3), fe(11));
}

#[test]
fn fixing_first_variable_folds_pairs() {
    let t = Table::new(2, &vec![fe(3), fe(5), fe(7), fe(11)]);
    // binding to 0 keeps the even entries
    let t0 = t.fix_first_variable(&Fe::zero());
    assert_eq!(t0.entry(0), fe(3));
    assert_eq!(t0.entry(1), fe(7));
    // binding to 1 keeps the odd entries
    let t1 = t.fix_first_variable(&Fe::one());
    assert_eq!(t1.entry(0), fe(5));
    assert_eq!(t1.entry(1), fe(11));
    // binding to 2 extends linearly: 3 + 2·(5−3) = 7, 7 + 2·(11−7) = 15
    let t2 = t.fix_first_variable(&fe(2));
    assert_eq!(t2.entry(0), fe(7));
    assert_eq!(t2.entry(1), fe(15));
}

#[test]
fn table_evaluates_its_multilinear_extension() {
    let t = Table::new(2, &vec![fe(3), fe(5), fe(7), fe(11)]);
    // boolean points return the stored values, first variable least significant
    assert_eq!(t.evaluate(&vec![Fe::zero(), Fe::zero()]), fe(3));
    assert_eq!(t.evaluate(&vec![Fe::one(), Fe::zero()]), fe(5));
    assert_eq!(t.evaluate(&vec![Fe::zero(), Fe::one()]), fe(7));
    assert_eq!(t.evaluate(&vec![Fe::one(), Fe::one()]), fe(11));
    // a non-boolean point: fold by 2 gives [7, 15], then by 0 gives 7
    assert_eq!(t.evaluate(&vec![fe(2), Fe::zero()]), fe(7));
}

#[test]
fn duplicate_preserves_the_table() {
    let t = Table::new(1, &vec![fe(9), fe(4)]);
    let c = t.duplicate();
    assert_eq!(c.entry(0), fe(9));
    assert_eq!(c.entry(1), fe(4));
}
