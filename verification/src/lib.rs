//! The [`BPR20`](https://eprint.iacr.org/2020/1306) zkSNARK: succinct proofs that a
//! rank-one constraint system has a satisfying assignment that extends a public
//! instance.
//!
//! [`generator`] makes keys, [`prover`] creates proofs and [`verify`] verifies
//! them. All of it is generic over a [`pairing::Pairing`], of which
//! [`bls12_381::Bls12_381`] is one. The contracts know a group element by the
//! multiple of the generator that it is, and a scalar by the number it stands for,
//! so that they are equations modulo the order of the groups.
//! [`completeness::lemma_completeness`] proves that honest proofs of true
//! statements are accepted.

pub mod algebra;
pub mod bls12_381;
pub mod challenge;
pub mod completeness;
pub mod data_structures;
pub mod domain;
pub mod encoding;
mod equation;
pub mod generator;
pub mod groups;
pub mod key_laws;
mod lagrange;
pub mod laws;
pub mod pairing;
pub mod polynomial;
pub mod proof_laws;
pub mod prover;
pub mod qap_laws;
pub mod r1cs;
pub mod r1cs_to_qap;
pub mod random;
mod recorded;
pub mod units;
pub mod verify;

pub use crate::data_structures::{PreparedVerifyingKey, Proof, ProvingKey, VerifyingKey};
pub use crate::generator::{generate_parameters, generate_random_parameters};
pub use crate::prover::{
    create_proof, create_proof_no_zk, create_random_proof, try_create_proof,
    try_create_proof_no_zk,
};
pub use crate::verify::{
    prepare_inputs, prepare_verifying_key, vec_verify_proof,
    vec_verify_proof_with_prepared_inputs, verify_proof, verify_proof_with_prepared_inputs,
};

use crate::algebra::views;
use crate::generator::is_setup_outcome;
use crate::groups::Scalar;
use crate::pairing::Pairing;
use crate::prover::{has_domain, has_queries, is_random_outcome};
use crate::r1cs::{ConstraintMatrices, ConstraintSystem, SynthesisError};
use crate::random::{Recorded, ScalarSource};
use crate::verify::{accepts, fits_inputs, is_prepared, is_verdict, prepared};
use core::marker::PhantomData;
use vstd::prelude::*;

verus! {

/// The SNARK of [[BPR20]](https://eprint.iacr.org/2020/1306.pdf) over the pairing
/// `E`.
pub struct BPR20<E: Pairing> {
    e_phantom: PhantomData<E>,
}

impl<E: Pairing> BPR20<E> {
    /// A key for the system, with the verifying key that belongs to it.
    pub fn circuit_specific_setup<R: ScalarSource<E>>(
        circuit: &ConstraintMatrices<E>,
        rng: &mut Recorded<R>,
    ) -> (res: Result<(ProvingKey<E>, VerifyingKey<E>), SynthesisError>)
        ensures
            is_setup_outcome::<E>(
                circuit@,
                old(rng).drawn(),
                final(rng).drawn(),
                match res {
                    Ok((pk, _)) => Ok(pk@),
                    Err(e) => Err(e),
                },
            ),
            res matches Ok((pk, vk)) ==> vk@ == pk@.vk,
    {
        match generate_random_parameters(circuit, rng) {
            Ok(pk) => {
                let vk = pk.vk.clone();
                Ok((pk, vk))
            },
            Err(e) => Err(e),
        }
    }

    /// A zero-knowledge proof for the system.
    pub fn prove<R: ScalarSource<E>>(
        pk: &ProvingKey<E>,
        circuit: &ConstraintSystem<E>,
        rng: &mut Recorded<R>,
    ) -> (res: Result<Proof<E>, SynthesisError>)
        requires
            has_domain(*circuit) ==> has_queries(pk@, 1),
        ensures
            is_random_outcome(
                *circuit,
                pk@,
                old(rng).drawn(),
                final(rng).drawn(),
                match res {
                    Ok(proof) => Ok(proof@),
                    Err(e) => Err(e),
                },
            ),
    {
        create_random_proof(circuit, pk, rng)
    }

    /// Prepares a verifying key.
    pub fn process_vk(circuit_vk: &VerifyingKey<E>) -> (res: Result<
        PreparedVerifyingKey<E>,
        SynthesisError,
    >)
        ensures
            res matches Ok(pvk) && pvk.vk@ == circuit_vk@ && is_prepared(pvk),
    {
        Ok(prepare_verifying_key(circuit_vk))
    }

    /// Verifies a proof for the public inputs `x`.
    pub fn verify_with_processed_vk(
        circuit_pvk: &PreparedVerifyingKey<E>,
        x: &[Scalar<E>],
        proof: &Proof<E>,
    ) -> (res: Result<bool, SynthesisError>)
        ensures
            res is Ok <==> x@.len() + 1 == circuit_pvk.vk.gamma_abc_g1@.len(),
            match res {
                Ok(b) => {
                    &&& fits_inputs(circuit_pvk.vk@, views(x@))
                    &&& is_verdict::<E>(
                        circuit_pvk.vk@,
                        circuit_pvk.gamma_g2_neg_pc@,
                        proof@,
                        prepared(circuit_pvk.vk@, views(x@)),
                        b,
                    )
                    &&& is_prepared(*circuit_pvk) ==> b == accepts::<E>(
                        circuit_pvk.vk@,
                        proof@,
                        views(x@),
                    )
                },
                Err(e) => !fits_inputs(circuit_pvk.vk@, views(x@)) && e
                    == SynthesisError::Unsatisfiable,
            },
    {
        verify_proof(circuit_pvk, proof, x)
    }
}

} // verus!
