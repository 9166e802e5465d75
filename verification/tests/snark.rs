use ark_bpr20::bls12_381::Bls12_381;
use ark_bpr20::data_structures::{Proof, ProvingKey};
use ark_bpr20::generator::{generate_parameters, generate_random_parameters};
use ark_bpr20::groups::{Scalar, G1, G2};
use ark_bpr20::pairing::Pairing;
use ark_bpr20::prover::{
    create_proof, create_proof_no_zk, create_random_proof, draw_randomness, finds_domain,
    has_proof, try_create_proof, try_create_proof_no_zk,
};
use ark_bpr20::r1cs::{ConstraintMatrices, ConstraintSystem, SynthesisError};
use ark_bpr20::random::{Recorded, ScalarSource};
use ark_bpr20::verify::{
    prepare_inputs, prepare_verifying_key, vec_prepare_inputs, vec_verify_proof,
    vec_verify_proof_with_prepared_inputs, verify_proof, verify_proof_with_prepared_inputs,
};
use ark_bpr20::BPR20;
use ark_std::rand::rngs::StdRng;
use ark_std::rand::SeedableRng;
use std::cell::Cell;
use std::rc::Rc;

type Fr = Scalar<Bls12_381>;

fn fr(x: u64) -> Fr {
    Scalar::from_u64(x)
}

fn rng() -> Recorded<StdRng> {
    Recorded::new(StdRng::seed_from_u64(20))
}

/// `z = x * y` and `w = z * z`, with the instance `1, w` and the witness `x, y, z`.
fn matrices() -> ConstraintMatrices<Bls12_381> {
    let a = vec![vec![(fr(1), 2)], vec![(fr(1), 4)]];
    let b = vec![vec![(fr(1), 3)], vec![(fr(1), 4)]];
    let c = vec![vec![(fr(1), 4)], vec![(fr(1), 1)]];
    ConstraintMatrices::new(a, b, c, 2, 3).unwrap()
}

fn system(x: u64, y: u64) -> ConstraintSystem<Bls12_381> {
    let z = x * y;
    ConstraintSystem::new(
        matrices(),
        vec![fr(1), fr(z * z)],
        vec![fr(x), fr(y), fr(z)],
    )
    .unwrap()
}

fn encode(proof: &Proof<Bls12_381>) -> Vec<Vec<u8>> {
    vec![
        proof.a.to_bytes(),
        proof.b.to_bytes(),
        proof.c.to_bytes(),
        proof.delta_prime.to_bytes(),
    ]
}

fn copy(proof: &Proof<Bls12_381>) -> Proof<Bls12_381> {
    Proof {
        a: proof.a.clone(),
        b: proof.b.clone(),
        c: proof.c.clone(),
        delta_prime: proof.delta_prime.clone(),
    }
}

fn key() -> ProvingKey<Bls12_381> {
    generate_random_parameters(&matrices(), &mut rng()).unwrap()
}

#[test]
fn honest_proofs_are_accepted() {
    let mut rng = rng();
    let (pk, vk) = BPR20::circuit_specific_setup(&matrices(), &mut rng).unwrap();
    let pvk = BPR20::process_vk(&vk).unwrap();
    for (x, y) in [(3, 5), (1, 1), (0, 7), (1000, 2000)] {
        let proof = BPR20::prove(&pk, &system(x, y), &mut rng).unwrap();
        let inputs = [fr(x * y * x * y)];
        assert_eq!(BPR20::verify_with_processed_vk(&pvk, &inputs, &proof), Ok(true));
    }
}

#[test]
fn fifteen_fresh_statements_are_proved_under_one_setup() {
    let mut rng = rng();
    let pk = key();
    let pvk = prepare_verifying_key(&pk.vk);
    for i in 0..15 {
        let (x, y) = (1000 + 17 * i, 9 + i * i);
        let proof = create_random_proof(&system(x, y), &pk, &mut rng).unwrap();
        let w = x * y * x * y;
        assert_eq!(verify_proof(&pvk, &proof, &[fr(w)]), Ok(true));
        assert_eq!(verify_proof(&pvk, &proof, &[fr(w + 1)]), Ok(false));
    }
}

#[test]
fn other_inputs_are_rejected() {
    let mut rng = rng();
    let pk = key();
    let pvk = prepare_verifying_key(&pk.vk);
    let proof = create_random_proof(&system(3, 5), &pk, &mut rng).unwrap();
    assert_eq!(verify_proof(&pvk, &proof, &[fr(225)]), Ok(true));
    assert_eq!(verify_proof(&pvk, &proof, &[fr(226)]), Ok(false));
    assert_eq!(verify_proof(&pvk, &proof, &[fr(0)]), Ok(false));
}

#[test]
fn the_number_of_inputs_must_fit() {
    let mut rng = rng();
    let pk = key();
    let pvk = prepare_verifying_key(&pk.vk);
    let proof = create_random_proof(&system(3, 5), &pk, &mut rng).unwrap();
    let unsatisfiable = SynthesisError::Unsatisfiable;
    assert_eq!(verify_proof(&pvk, &proof, &[]), Err(unsatisfiable));
    assert_eq!(verify_proof(&pvk, &proof, &[fr(225), fr(1)]), Err(unsatisfiable));
    assert!(prepare_inputs(&pvk, &[]).is_err());
    assert!(prepare_inputs(&pvk, &[fr(1)]).is_ok());
}

#[test]
fn an_unsatisfied_system_gives_no_valid_proof() {
    let mut rng = rng();
    let pk = key();
    let pvk = prepare_verifying_key(&pk.vk);
    let wrong = ConstraintSystem::new(
        matrices(),
        vec![fr(1), fr(226)],
        vec![fr(3), fr(5), fr(15)],
    )
    .unwrap();
    let proof = create_random_proof(&wrong, &pk, &mut rng).unwrap();
    assert_eq!(verify_proof(&pvk, &proof, &[fr(226)]), Ok(false));
}

#[test]
fn changed_proofs_are_rejected() {
    let mut rng = rng();
    let pk = key();
    let pvk = prepare_verifying_key(&pk.vk);
    let proof = create_random_proof(&system(3, 5), &pk, &mut rng).unwrap();
    let g1 = <Bls12_381 as Pairing>::g1_generator();
    let g2 = <Bls12_381 as Pairing>::g2_generator();

    let mut changed = copy(&proof);
    assert_eq!(verify_proof(&pvk, &changed, &[fr(225)]), Ok(true));
    changed.a = <Bls12_381 as Pairing>::g1_add(&proof.a, &g1);
    assert_eq!(verify_proof(&pvk, &changed, &[fr(225)]), Ok(false));

    let mut changed = copy(&proof);
    changed.b = <Bls12_381 as Pairing>::g2_add(&proof.b, &g2);
    assert_eq!(verify_proof(&pvk, &changed, &[fr(225)]), Ok(false));

    let mut changed = copy(&proof);
    changed.c = <Bls12_381 as Pairing>::g1_sub(&proof.c, &g1);
    assert_eq!(verify_proof(&pvk, &changed, &[fr(225)]), Ok(false));

    let mut changed = copy(&proof);
    changed.delta_prime = <Bls12_381 as Pairing>::g2_add(&proof.delta_prime, &pk.vk.delta_g2);
    assert_eq!(verify_proof(&pvk, &changed, &[fr(225)]), Ok(false));
}

#[test]
fn a_proof_is_determined_by_its_randomness() {
    let pk = key();
    let pvk = prepare_verifying_key(&pk.vk);
    let first = create_proof(&system(3, 5), &pk, fr(11), fr(12), fr(13)).unwrap();
    let second = create_proof(&system(3, 5), &pk, fr(11), fr(12), fr(13)).unwrap();
    let tried = try_create_proof(&system(3, 5), &pk, fr(11), fr(12), fr(13)).unwrap();
    let other = create_proof(&system(3, 5), &pk, fr(11), fr(12), fr(14)).unwrap();
    assert_eq!(encode(&first), encode(&second));
    assert_eq!(encode(&first), encode(&tried));
    assert_ne!(encode(&first), encode(&other));
    assert_eq!(verify_proof(&pvk, &first, &[fr(225)]), Ok(true));
    assert_eq!(verify_proof(&pvk, &other, &[fr(225)]), Ok(true));
}

#[test]
fn the_proof_without_randomness_has_trivial_randomness() {
    let pk = key();
    let pvk = prepare_verifying_key(&pk.vk);
    let plain = create_proof_no_zk(&system(3, 5), &pk).unwrap();
    let tried = try_create_proof_no_zk(&system(3, 5), &pk).unwrap();
    let trivial = create_proof(&system(3, 5), &pk, fr(0), fr(0), fr(1)).unwrap();
    assert_eq!(encode(&plain), encode(&trivial));
    assert_eq!(encode(&plain), encode(&tried));
    assert_eq!(plain.delta_prime.to_bytes(), pk.vk.delta_g2.to_bytes());
    assert_eq!(verify_proof(&pvk, &plain, &[fr(225)]), Ok(true));
}

#[test]
fn without_r_the_copy_of_b_is_not_read() {
    let pk = key();
    let mut other = key();
    other.b_g1_query = vec![];
    other.beta_g1 = <Bls12_381 as Pairing>::g1_generator();
    let first = create_proof(&system(3, 5), &pk, fr(0), fr(12), fr(13)).unwrap();
    let second = create_proof(&system(3, 5), &other, fr(0), fr(12), fr(13)).unwrap();
    assert_eq!(encode(&first), encode(&second));
}

struct Fixed {
    scalars: Vec<Fr>,
    next: Rc<Cell<usize>>,
}

/// A source that gives the scalars in order, and the number of those that it gave.
fn fixed(scalars: Vec<u64>) -> (Recorded<Fixed>, Rc<Cell<usize>>) {
    let next = Rc::new(Cell::new(0));
    let scalars = scalars.into_iter().map(fr).collect();
    (Recorded::new(Fixed { scalars, next: next.clone() }), next)
}

impl ScalarSource<Bls12_381> for Fixed {
    fn next_scalar(&mut self) -> Fr {
        let i = self.next.get();
        self.next.set(i + 1);
        self.scalars[i]
    }
}

#[test]
fn zeta_is_drawn_until_it_is_not_zero() {
    let pk = key();
    let (mut source, drawn_so_far) = fixed(vec![4, 5, 0, 0, 6, 7]);
    let drawn = create_random_proof(&system(3, 5), &pk, &mut source).unwrap();
    let proof = create_proof(&system(3, 5), &pk, fr(4), fr(5), fr(6)).unwrap();
    assert_eq!(drawn_so_far.get(), 5);
    assert_eq!(encode(&drawn), encode(&proof));
}

#[test]
fn randomness_is_drawn_in_order() {
    let (mut source, drawn_so_far) = fixed(vec![0, 0, 0, 9, 1]);
    let (r, s, zeta): (Fr, Fr, Fr) = draw_randomness(&mut source);
    assert!(r.is_zero() && s.is_zero());
    assert_eq!(zeta.to_limbs(), [9, 0, 0, 0]);
    assert_eq!(drawn_so_far.get(), 4);
    let next: Fr = source.draw();
    assert!(next.is_one());
}

#[test]
fn keys_are_drawn_in_order() {
    // The points of the domain of four roots of unity are passed over.
    let (mut source, drawn_so_far) = fixed(vec![2, 3, 0, 5, 7, 11, 13, 1, 17]);
    let drawn = generate_random_parameters(&matrices(), &mut source).unwrap();
    let g1 = <Bls12_381 as Pairing>::g1_mul(&<Bls12_381 as Pairing>::g1_generator(), &fr(11));
    let g2 = <Bls12_381 as Pairing>::g2_mul(&<Bls12_381 as Pairing>::g2_generator(), &fr(13));
    let given = generate_parameters(
        &matrices(),
        &fr(2),
        &fr(3),
        &fr(5),
        &fr(7),
        &fr(17),
        &g1,
        &g2,
    )
    .unwrap();
    assert_eq!(drawn_so_far.get(), 9);
    assert_eq!(drawn.vk.gamma_g2.to_bytes(), given.vk.gamma_g2.to_bytes());
    assert_eq!(drawn.vk.delta_g2.to_bytes(), given.vk.delta_g2.to_bytes());
    assert_eq!(drawn.h_query[1].to_bytes(), given.h_query[1].to_bytes());
    assert_eq!(drawn.l_query[2].to_bytes(), given.l_query[2].to_bytes());
    assert_eq!(
        drawn.vk.alpha_g1_beta_g2.to_bytes(),
        given.vk.alpha_g1_beta_g2.to_bytes()
    );
}

#[test]
fn gamma_and_delta_must_not_be_zero() {
    let g1 = <Bls12_381 as Pairing>::g1_generator();
    let g2 = <Bls12_381 as Pairing>::g2_generator();
    let m = matrices();
    let no_gamma =
        generate_parameters(&m, &fr(2), &fr(3), &fr(0), &fr(7), &fr(17), &g1, &g2);
    assert!(matches!(no_gamma, Err(SynthesisError::DivisionByZero)));
    let no_delta =
        generate_parameters(&m, &fr(2), &fr(3), &fr(5), &fr(0), &fr(17), &g1, &g2);
    assert!(matches!(no_delta, Err(SynthesisError::DivisionByZero)));
}

#[test]
fn a_system_may_be_too_large_for_a_domain() {
    let large: ConstraintMatrices<Bls12_381> =
        ConstraintMatrices::new(vec![], vec![], vec![], 1 << 40, 0).unwrap();
    let res = generate_random_parameters(&large, &mut rng());
    assert!(matches!(res, Err(SynthesisError::PolynomialDegreeTooLarge)));
}

#[test]
fn a_vanishing_denominator_gives_no_proof() {
    // Without delta, the challenge does not depend on zeta.
    let mut pk = key();
    let g2 = <Bls12_381 as Pairing>::g2_generator();
    pk.delta_g1 = <Bls12_381 as Pairing>::g1_zero();
    pk.vk.delta_g2 = <Bls12_381 as Pairing>::g2_mul(&g2, &fr(0));
    let proof = create_proof(&system(3, 5), &pk, fr(11), fr(12), fr(13)).unwrap();
    let m: Fr = ark_bpr20::challenge::fiat_shamir_challenge(
        &proof.a,
        &proof.b,
        &proof.delta_prime,
    );
    let zeta = <Bls12_381 as Pairing>::scalar_sub(&fr(0), &m);
    assert!(finds_domain(&system(3, 5)));
    assert!(has_proof(&system(3, 5), &pk, &fr(11), &fr(12), &fr(13)));
    assert!(!has_proof(&system(3, 5), &pk, &fr(11), &fr(12), &zeta));
    let res = try_create_proof(&system(3, 5), &pk, fr(11), fr(12), zeta);
    assert!(matches!(res, Err(SynthesisError::DivisionByZero)));
    let scalars = vec![fr(11), fr(12), zeta];
    let mut source = Recorded::new(Fixed { scalars, next: Rc::new(Cell::new(0)) });
    let res = create_random_proof(&system(3, 5), &pk, &mut source);
    assert!(matches!(res, Err(SynthesisError::DivisionByZero)));
}

#[test]
fn a_vector_of_proofs_is_valid_where_each_is() {
    let mut rng = rng();
    let pk = key();
    let pvk = prepare_verifying_key(&pk.vk);
    let pairs = [(3, 5), (2, 9), (8, 1)];
    let mut proofs = Vec::new();
    let mut inputs = Vec::new();
    let mut prepared: Vec<G1<Bls12_381>> = Vec::new();
    for (x, y) in pairs {
        proofs.push(create_random_proof(&system(x, y), &pk, &mut rng).unwrap());
        inputs.push(vec![fr(x * y * x * y)]);
        prepared.push(prepare_inputs(&pvk, &[fr(x * y * x * y)]).unwrap());
    }
    assert_eq!(vec_verify_proof(&pk.vk, &proofs, &inputs), Ok(true));
    assert_eq!(vec_verify_proof_with_prepared_inputs(&pvk, &proofs, &prepared), Ok(true));
    let all = vec_prepare_inputs(&pvk, &inputs).unwrap();
    for (input, element) in prepared.iter().zip(all.iter()) {
        assert_eq!(input.to_bytes(), element.to_bytes());
    }
    assert!(vec_prepare_inputs(&pvk, &vec![vec![fr(1)], vec![]]).is_err());
    for (proof, input) in proofs.iter().zip(prepared.iter()) {
        assert_eq!(verify_proof_with_prepared_inputs(&pvk, proof, input), Ok(true));
    }

    inputs[2] = vec![fr(65)];
    assert_eq!(vec_verify_proof(&pk.vk, &proofs, &inputs), Ok(false));
    prepared.swap(0, 1);
    assert_eq!(vec_verify_proof_with_prepared_inputs(&pvk, &proofs, &prepared), Ok(false));

    // What is left over is not looked at, but all inputs must fit the key.
    inputs.truncate(2);
    assert_eq!(vec_verify_proof(&pk.vk, &proofs, &inputs), Ok(true));
    proofs.truncate(1);
    inputs[1] = vec![fr(0)];
    assert_eq!(vec_verify_proof(&pk.vk, &proofs, &inputs), Ok(true));
    inputs[1] = vec![];
    assert_eq!(
        vec_verify_proof(&pk.vk, &proofs, &inputs),
        Err(SynthesisError::Unsatisfiable)
    );
    assert_eq!(
        vec_verify_proof(&pk.vk, &Vec::new(), &inputs),
        Err(SynthesisError::Unsatisfiable)
    );
}

#[test]
fn prepared_keys_hold_the_negative_of_gamma() {
    let pk = key();
    let pvk = prepare_verifying_key(&pk.vk);
    let minus_one = <Bls12_381 as Pairing>::scalar_sub(&fr(0), &fr(1));
    let expected: G2<Bls12_381> = <Bls12_381 as Pairing>::g2_mul(&pk.vk.gamma_g2, &minus_one);
    assert_eq!(pvk.gamma_g2_neg_pc.to_bytes(), expected.to_bytes());
    assert_eq!(pvk.vk.alpha_g1.to_bytes(), pk.vk.alpha_g1.to_bytes());
    assert_eq!(pvk.vk.gamma_abc_g1.len(), pk.vk.gamma_abc_g1.len());
}

#[test]
fn prepared_inputs_are_combinations_of_the_key() {
    let pk = key();
    let pvk = prepare_verifying_key(&pk.vk);
    let prepared = prepare_inputs(&pvk, &[fr(6)]).unwrap();
    let multiple = <Bls12_381 as Pairing>::g1_mul(&pk.vk.gamma_abc_g1[1], &fr(6));
    let expected = <Bls12_381 as Pairing>::g1_add(&pk.vk.gamma_abc_g1[0], &multiple);
    assert_eq!(prepared.to_bytes(), expected.to_bytes());
}

#[test]
fn systems_must_be_well_formed() {
    let row = || vec![vec![(fr(1), 0)]];
    let bad_index = || vec![vec![(fr(1), 3)]];
    type M = ConstraintMatrices<Bls12_381>;
    assert!(M::new(row(), row(), row(), 1, 2).is_some());
    assert!(M::new(row(), row(), vec![], 1, 2).is_none());
    assert!(M::new(row(), vec![], row(), 1, 2).is_none());
    assert!(M::new(row(), row(), row(), 0, 3).is_none());
    assert!(M::new(bad_index(), row(), row(), 1, 2).is_none());
    assert!(M::new(row(), bad_index(), row(), 1, 2).is_none());
    assert!(M::new(row(), row(), bad_index(), 1, 2).is_none());
    assert!(M::new(row(), row(), row(), 1, usize::MAX).is_none());
    assert!(M::new(vec![], vec![], vec![], usize::MAX, 0).is_none());

    let m = M::new(row(), row(), row(), 1, 2).unwrap();
    assert_eq!(m.num_constraints(), 1);
    assert_eq!(m.num_instance_variables(), 1);
    assert_eq!(m.num_witness_variables(), 2);
    assert_eq!(m.num_points(), 2);
    let m2 = M::new(row(), row(), row(), 1, 2).unwrap();
    assert!(ConstraintSystem::new(m, vec![fr(1)], vec![fr(1)]).is_none());
    assert!(ConstraintSystem::new(m2, vec![fr(1)], vec![fr(1), fr(2)]).is_some());
}
