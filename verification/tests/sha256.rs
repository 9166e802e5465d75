use ark_bls12_381::Fr;
use ark_bpr20::bls12_381::Bls12_381;
use ark_bpr20::groups::Scalar;
use ark_bpr20::r1cs::{ConstraintMatrices, ConstraintSystem};
use ark_bpr20::random::Recorded;
use ark_bpr20::{
    create_random_proof, generate_random_parameters, prepare_verifying_key, verify_proof,
};
use ark_crypto_primitives::crh::sha256::constraints::Sha256Gadget;
use ark_ff::{BigInteger, PrimeField, ToConstraintField};
use ark_r1cs_std::alloc::AllocVar;
use ark_r1cs_std::eq::EqGadget;
use ark_r1cs_std::uint8::UInt8;
use ark_relations::gr1cs::{
    ConstraintSynthesizer, ConstraintSystem as Synthesis, ConstraintSystemRef, Matrix,
    OptimizationGoal, SynthesisError, SynthesisMode, R1CS_PREDICATE_LABEL,
};
use ark_std::rand::rngs::StdRng;
use ark_std::rand::{Rng, SeedableRng};
use sha2::{Digest, Sha256};

const R_LEN: usize = 16;
const PUZ_LEN: usize = 16;

/// Knowledge of `r` such that the hash of `r` and `puz` is `y`.
struct Puzzle {
    r: Option<[u8; R_LEN]>,
    puz: [u8; PUZ_LEN],
    y: [u8; 32],
}

impl ConstraintSynthesizer<Fr> for Puzzle {
    fn generate_constraints(self, cs: ConstraintSystemRef<Fr>) -> Result<(), SynthesisError> {
        let r: [Option<u8>; R_LEN] = self.r.map(|bytes| bytes.map(Some)).unwrap_or([None; R_LEN]);
        let mut message = UInt8::new_witness_vec(cs.clone(), &r)?;
        let puz = UInt8::new_input_vec(cs.clone(), &self.puz)?;
        let y = UInt8::new_input_vec(cs.clone(), &self.y)?;
        message.extend(puz);
        let hash = Sha256Gadget::digest(&message)?;
        hash.0.enforce_equal(&y)
    }
}

fn scalar(x: &Fr) -> Scalar<Bls12_381> {
    Scalar::from_le_bytes_mod_order(&x.into_bigint().to_bytes_le())
}

fn scalars(xs: &[Fr]) -> Vec<Scalar<Bls12_381>> {
    xs.iter().map(scalar).collect()
}

fn rows(matrix: &Matrix<Fr>) -> Vec<Vec<(Scalar<Bls12_381>, usize)>> {
    matrix
        .iter()
        .map(|row| row.iter().map(|(c, i)| (scalar(c), *i)).collect())
        .collect()
}

fn synthesize(puzzle: Puzzle, mode: SynthesisMode) -> ConstraintSystemRef<Fr> {
    let cs = Synthesis::new_ref();
    cs.set_optimization_goal(OptimizationGoal::Constraints);
    cs.set_mode(mode);
    puzzle.generate_constraints(cs.clone()).unwrap();
    cs.finalize();
    cs
}

fn matrices(cs: &ConstraintSystemRef<Fr>) -> ConstraintMatrices<Bls12_381> {
    let matrices = &cs.to_matrices().unwrap()[R1CS_PREDICATE_LABEL];
    ConstraintMatrices::new(
        rows(&matrices[0]),
        rows(&matrices[1]),
        rows(&matrices[2]),
        cs.num_instance_variables(),
        cs.num_witness_variables(),
    )
    .unwrap()
}

fn public_inputs(puz: &[u8], y: &[u8]) -> Vec<Scalar<Bls12_381>> {
    let mut inputs: Vec<Fr> = puz.to_field_elements().unwrap();
    let rest: Vec<Fr> = y.to_field_elements().unwrap();
    inputs.extend(rest);
    scalars(&inputs)
}

/// A random preimage, a random puzzle and the hash of both.
fn instance(rng: &mut StdRng) -> ([u8; R_LEN], [u8; PUZ_LEN], [u8; 32]) {
    let mut r = [0u8; R_LEN];
    let mut puz = [0u8; PUZ_LEN];
    rng.fill(&mut r);
    rng.fill(&mut puz);
    let mut hasher = Sha256::new();
    hasher.update(r);
    hasher.update(puz);
    (r, puz, hasher.finalize().into())
}

fn system(r: [u8; R_LEN], puz: [u8; PUZ_LEN], y: [u8; 32]) -> ConstraintSystem<Bls12_381> {
    let mode = SynthesisMode::Prove { construct_matrices: true, generate_lc_assignments: false };
    let cs = synthesize(Puzzle { r: Some(r), puz, y }, mode);
    ConstraintSystem::new(
        matrices(&cs),
        scalars(&cs.instance_assignment().unwrap()),
        scalars(&cs.witness_assignment().unwrap()),
    )
    .unwrap()
}

#[test]
fn fresh_preimages_are_proved_under_one_setup() {
    let mut rng = StdRng::seed_from_u64(1);
    let mut source = Recorded::new(StdRng::seed_from_u64(2));
    let (_, puz, y) = instance(&mut rng);
    let setup = synthesize(Puzzle { r: None, puz, y }, SynthesisMode::Setup);
    let pk = generate_random_parameters(&matrices(&setup), &mut source).unwrap();
    let pvk = prepare_verifying_key(&pk.vk);
    for _ in 0..2 {
        let (r, puz, y) = instance(&mut rng);
        let proof = create_random_proof(&system(r, puz, y), &pk, &mut source).unwrap();
        assert_eq!(verify_proof(&pvk, &proof, &public_inputs(&puz, &y)), Ok(true));

        let mut changed = public_inputs(&puz, &y);
        changed[0] = Scalar::zero();
        assert_eq!(verify_proof(&pvk, &proof, &changed), Ok(false));

        let mut wrong_puz = puz;
        wrong_puz[0] ^= 1;
        assert_eq!(verify_proof(&pvk, &proof, &public_inputs(&wrong_puz, &y)), Ok(false));
    }
}
