use ark_std::rand::rngs::StdRng;
use ark_std::rand::SeedableRng;
use sumcheck::field::Fe;
use sumcheck::polynomial_rep::PolynomialRep;
use sumcheck::protocol::prover::ProverMsg;
use sumcheck::protocol::verifier_engine::VerifierState;
use sumcheck::protocol::IPForSumCheck;
use sumcheck::table::Table;
use sumcheck::Error;

fn fe(x: u64) -> Fe {
    Fe::from_u64(x)
}

// The concrete scenario: two variables, one term 1 × TableA × TableB with
// TableA = [3,5,7,11] and TableB = [2,0,1,4]; the true hypercube sum is
// 3·2 + 5·0 + 7·1 + 11·4 = 57.
fn scenario_rep() -> PolynomialRep {
    let ta = Table::new(2, &vec![fe(3), fe(5), fe(7), fe(11)]);
    let tb = Table::new(2, &vec![fe(2), fe(0), fe(1), fe(4)]);
    PolynomialRep {
        max_num_multiplicands: 2,
        num_of_variables: 2,
        coeff_and_index: vec![(Fe::one(), vec![0, 1])],
        poly_extensions: vec![ta, tb],
    }
}

// Drive a full honest session and return the acceptance verdict.
fn run_protocol(rep: &PolynomialRep, claimed: Fe, seed: u64) -> Result<bool, Error> {
    let mut rng = StdRng::seed_from_u64(seed);
    let info = rep.info_for_verifier();
    let mut prover_state = IPForSumCheck::prover_init(rep);
    let mut verifier_state = IPForSumCheck::verifier_init(&info);
    let mut v_msg = None;
    for round in 0..rep.num_of_variables {
        let (p_msg, next_prover) = IPForSumCheck::prove_round(prover_state, &v_msg).unwrap();
        prover_state = next_prover;
        assert_eq!(
            p_msg.evaluations.len(),
            rep.max_num_multiplicands + 1,
            "round {} message has the wrong number of entries",
            round
        );
        let (challenge, next_verifier) =
            IPForSumCheck::verify_round(verifier_state, p_msg, &mut rng);
        verifier_state = next_verifier;
        v_msg = challenge;
    }
    IPForSumCheck::acceptance(verifier_state, claimed)
}

// Drive a full honest session and close it with the final oracle check.
fn run_protocol_with_oracle(rep: &PolynomialRep, claimed: Fe, seed: u64) -> Result<bool, Error> {
    let mut rng = StdRng::seed_from_u64(seed);
    let info = rep.info_for_verifier();
    let mut prover_state = IPForSumCheck::prover_init(rep);
    let mut verifier_state = IPForSumCheck::verifier_init(&info);
    let mut v_msg = None;
    for _ in 0..rep.num_of_variables {
        let (p_msg, next_prover) = IPForSumCheck::prove_round(prover_state, &v_msg).unwrap();
        prover_state = next_prover;
        let (challenge, next_verifier) =
            IPForSumCheck::verify_round(verifier_state, p_msg, &mut rng);
        verifier_state = next_verifier;
        v_msg = challenge;
    }
    let oracle_value = rep.evaluate(&verifier_state.random_points);
    IPForSumCheck::acceptance_with_oracle(verifier_state, claimed, oracle_value)
}

#[test]
fn oracle_closed_acceptance_agrees_with_the_polynomial() {
    let rep = scenario_rep();
    // an honest run passes the closing oracle comparison too
    assert_eq!(run_protocol_with_oracle(&rep, fe(57), 21), Ok(true));
    assert_eq!(run_protocol_with_oracle(&rep, fe(58), 21), Err(Error::Reject));
}

#[test]
fn mismatched_oracle_value_is_rejected() {
    // histories of a trivial one-round session whose recorded message is
    // consistent with the claim, but whose closing oracle value disagrees
    let state = VerifierState {
        random_points: vec![fe(0)],
        round: 1,
        max_multiplicands: 1,
        finished: true,
        num_of_variables: 1,
        polynomials_received: vec![vec![fe(2), fe(3)]],
    };
    // claim 5 == 2 + 3, and at challenge 0 the round polynomial takes value 2
    let out = IPForSumCheck::acceptance_with_oracle(state, fe(5), fe(2));
    assert_eq!(out, Ok(true));
    let state = VerifierState {
        random_points: vec![fe(0)],
        round: 1,
        max_multiplicands: 1,
        finished: true,
        num_of_variables: 1,
        polynomials_received: vec![vec![fe(2), fe(3)]],
    };
    let out = IPForSumCheck::acceptance_with_oracle(state, fe(5), fe(9));
    assert_eq!(out, Err(Error::Reject));
}

#[test]
fn honest_run_accepts_the_true_sum() {
    let rep = scenario_rep();
    assert_eq!(run_protocol(&rep, fe(57), 7), Ok(true));
    // the verdict does not depend on which challenges were drawn
    assert_eq!(run_protocol(&rep, fe(57), 1234567), Ok(true));
}

#[test]
fn wrong_claim_is_rejected() {
    let rep = scenario_rep();
    assert_eq!(run_protocol(&rep, fe(58), 7), Err(Error::Reject));
    assert_eq!(run_protocol(&rep, fe(56), 99), Err(Error::Reject));
    assert_eq!(run_protocol(&rep, fe(0), 5), Err(Error::Reject));
}

#[test]
fn evaluate_matches_direct_enumeration() {
    let rep = scenario_rep();
    // at each boolean point the value is the product of the indexed entries
    assert_eq!(rep.evaluate(&vec![fe(0), fe(0)]), fe(6)); // 3·2
    assert_eq!(rep.evaluate(&vec![fe(1), fe(0)]), fe(0)); // 5·0
    assert_eq!(rep.evaluate(&vec![fe(0), fe(1)]), fe(7)); // 7·1
    assert_eq!(rep.evaluate(&vec![fe(1), fe(1)]), fe(44)); // 11·4
}

#[test]
fn prover_message_length_every_round() {
    let rep = scenario_rep();
    let mut rng = StdRng::seed_from_u64(3);
    let info = rep.info_for_verifier();
    let mut prover_state = IPForSumCheck::prover_init(&rep);
    let mut verifier_state = IPForSumCheck::verifier_init(&info);
    let mut v_msg = None;
    for _ in 0..rep.num_of_variables {
        let (p_msg, next_prover) = IPForSumCheck::prove_round(prover_state, &v_msg).unwrap();
        prover_state = next_prover;
        assert_eq!(p_msg.evaluations.len(), rep.max_num_multiplicands + 1);
        let (challenge, next_verifier) =
            IPForSumCheck::verify_round(verifier_state, p_msg, &mut rng);
        verifier_state = next_verifier;
        v_msg = challenge;
    }
}

#[test]
fn prove_round_twice_without_challenge_is_a_usage_error() {
    let rep = scenario_rep();
    let prover_state = IPForSumCheck::prover_init(&rep);
    let (_msg, prover_state) = IPForSumCheck::prove_round(prover_state, &None).unwrap();
    // a second round without an intervening challenge must fail loudly
    let second = IPForSumCheck::prove_round(prover_state, &None);
    assert!(matches!(second, Err(Error::UsageError)));
}

#[test]
fn challenge_on_the_first_round_is_a_usage_error() {
    let rep = scenario_rep();
    let prover_state = IPForSumCheck::prover_init(&rep);
    let bogus = IPForSumCheck::generate_message(&mut StdRng::seed_from_u64(0));
    let first = IPForSumCheck::prove_round(prover_state, &Some(bogus));
    assert!(matches!(first, Err(Error::UsageError)));
}

#[test]
fn malformed_message_length_aborts_acceptance() {
    // a recorded message with 2 entries where d + 1 == 3 are owed
    let state = VerifierState {
        random_points: vec![fe(0)],
        round: 1,
        max_multiplicands: 2,
        finished: true,
        num_of_variables: 1,
        polynomials_received: vec![vec![fe(1), fe(2)]],
    };
    let out = IPForSumCheck::acceptance(state, fe(3));
    assert_eq!(out, Err(Error::MalformedMessage));
}

#[test]
fn error_reasons_are_distinct() {
    assert_ne!(Error::Reject.reason(), Error::MalformedMessage.reason());
    assert_ne!(Error::Reject.reason(), Error::UsageError.reason());
}

#[test]
fn interpolation_returns_samples_at_integer_abscissas() {
    let samples = vec![fe(5), fe(9), fe(13), fe(2)];
    for (k, want) in samples.iter().enumerate() {
        let got =
            sumcheck::protocol::verifier_engine::interpolate_uni_poly(&samples, &fe(k as u64));
        assert_eq!(got, *want, "interpolation at abscissa {}", k);
    }
}

#[test]
fn interpolation_evaluates_the_polynomial_elsewhere() {
    // samples of f(x) = 2x + 3 at 0,1,2: interpolation at 10 gives 23
    let samples = vec![fe(3), fe(5), fe(7)];
    let got = sumcheck::protocol::verifier_engine::interpolate_uni_poly(&samples, &fe(10));
    assert_eq!(got, fe(23));
    // a constant polynomial stays constant everywhere
    let flat = vec![fe(7), fe(7), fe(7)];
    let got = sumcheck::protocol::verifier_engine::interpolate_uni_poly(&flat, &fe(1000));
    assert_eq!(got, fe(7));
}

#[test]
fn verify_round_returns_the_recorded_challenge() {
    let rep = scenario_rep();
    let info = rep.info_for_verifier();
    let mut rng = StdRng::seed_from_u64(11);
    let verifier_state = IPForSumCheck::verifier_init(&info);
    let msg = ProverMsg {
        evaluations: vec![fe(1), fe(2), fe(3)],
    };
    let (challenge, verifier_state) = IPForSumCheck::verify_round(verifier_state, msg, &mut rng);
    assert!(challenge.is_some());
    assert_eq!(verifier_state.polynomials_received.len(), 1);
    assert_eq!(verifier_state.random_points.len(), 1);
    assert_eq!(
        verifier_state.random_points[0],
        challenge.unwrap().rand_point
    );
}

#[test]
fn public_parameters_carry_only_the_two_scalars() {
    let rep = scenario_rep();
    let info = rep.info_for_verifier();
    assert_eq!(info.num_of_variables, 2);
    assert_eq!(info.max_num_multiplicands, 2);
}

#[test]
fn empty_representation_evaluates_to_zero() {
    let rep = PolynomialRep::new(3);
    assert_eq!(rep.num_of_variables, 3);
    assert_eq!(rep.evaluate(&vec![fe(4), fe(9), fe(1)]), Fe::zero());
}
