//! What the prover is for: laws on the elements of proofs, on what blinds them and on
//! what makes them valid.
use crate::algebra::{dot, lemma_cong_mod, lemma_cong_sub, views};
use crate::challenge::challenge;
use crate::data_structures::{Proof, ProofModel, ProvingKey};
use crate::generator::{is_key, Trapdoor};
use crate::groups::{Groups, Scalar};
use crate::laws::{law_satisfied, law_valid_proofs};
use crate::prover::{
    combination, denominator, has_domain, has_queries, inputs_of, is_invertible, is_proof,
    is_proof_for, is_random_outcome, is_randomness_drawn, numerator,
};
use crate::r1cs::{row_eval, ConstraintSystem, SynthesisError};
use crate::r1cs_to_qap::is_witness_map;
use crate::verify::prepared;
use vstd::arithmetic::div_mod::{lemma_mod_equivalence, lemma_small_mod};
use vstd::prelude::*;

verus! {

proof fn lemma_other_variables<E: Groups>(system: ConstraintSystem<E>, x: Seq<int>)
    requires
        system.instance().len() > 0,
        // The variables but the constant one: the rest of the instance, then the
        // witness.
        x.len() + 1 == system.instance().len() + system.witness().len(),
        forall|i: int|
            0 <= i < system.instance().len() - 1 ==> #[trigger] x[i] == system.instance()[i + 1],
        forall|i: int|
            system.instance().len() - 1 <= i < x.len() ==> #[trigger] x[i] == system.witness()[i - (
            system.instance().len() - 1)],
    ensures
        x == inputs_of(system),
{
    let other = inputs_of(system);
    assert forall|i: int| 0 <= i < x.len() implies x[i] == other[i] by {
        if i < system.instance().len() - 1 {
            assert(x[i] == system.instance()[i + 1]);
        } else {
            assert(x[i] == system.witness()[i - (system.instance().len() - 1)]);
        }
    }
    assert(x =~= other);
}

/// A reduced number differs from what was reduced by a multiple of the modulus.
proof fn lemma_reduced(v: int, x: int, r: int)
    requires
        r > 0,
        v == x % r,
    ensures
        (v - x) % r == 0,
{
    lemma_cong_mod(x, r);
    lemma_mod_equivalence(v, x, r);
}

/// The elements of a proof are the sums that make them up: `a` is the blinding
/// multiple of `delta`, the sum of the elements for the variables, and `alpha`; `b` is
/// the same with `beta`; `delta_prime` is the multiple of `delta` by `zeta`; and `c`,
/// times `zeta` plus the challenge, is the sum of what the verifier takes off, of the
/// elements for the witness and of those for the quotient.
pub proof fn law_proof_elements<E: Groups>(
    system: ConstraintSystem<E>,
    pk: ProvingKey<E>,
    r: int,
    s: int,
    zeta: int,
    proof: Proof<E>,
    x: Seq<int>,
)
    requires
        is_proof_for(system, pk@, r, s, zeta, proof@),
        system.instance().len() > 0,
        pk.a_query@.len() > 0,
        pk.b_g2_query@.len() > 0,
        r != 0 ==> pk.b_g1_query@.len() > 0,
        // The variables but the constant one: the rest of the instance, then the
        // witness.
        x.len() + 1 == system.instance().len() + system.witness().len(),
        forall|i: int|
            0 <= i < system.instance().len() - 1 ==> #[trigger] x[i] == system.instance()[i + 1],
        forall|i: int|
            system.instance().len() - 1 <= i < x.len() ==> #[trigger] x[i] == system.witness()[i - (
            system.instance().len() - 1)],
    ensures
        (proof.a@ - (pk.delta_g1@ * zeta * r + pk.a_query@[0]@ + dot(
            views(pk.a_query@.skip(1)),
            x,
        ) + pk.vk.alpha_g1@)) % E::modulus() == 0,
        (proof.b@ - (pk.vk.delta_g2@ * zeta * s + pk.b_g2_query@[0]@ + dot(
            views(pk.b_g2_query@.skip(1)),
            x,
        ) + pk.vk.beta_g2@)) % E::modulus() == 0,
        (proof.delta_prime@ - pk.vk.delta_g2@ * zeta) % E::modulus() == 0,
        exists|h: Seq<int>| #[trigger]
            is_witness_map::<E>(system.spec_matrices(), system.assignment(), h) && (proof.c@ * (zeta
                + challenge::<E>(proof.a@, proof.b@, proof.delta_prime@)) - ((proof.a@ * s + (if r
                == 0 {
                0
            } else {
                pk.delta_g1@ * zeta * s + pk.b_g1_query@[0]@ + dot(
                    views(pk.b_g1_query@.skip(1)),
                    x,
                ) + pk.beta_g1@
            }) * r - pk.delta_g1@ * zeta * (r * s)) * zeta + dot(
                views(pk.l_query@),
                system.witness(),
            ) + dot(views(pk.h_query@), h))) % E::modulus() == 0,
{
    let m = E::modulus();
    E::modulus_bound();
    lemma_other_variables(system, x);
    let (a0, b0, b1) = (
        views(pk.a_query@.skip(1)),
        views(pk.b_g2_query@.skip(1)),
        views(pk.b_g1_query@.skip(1)),
    );
    assert(a0 =~= pk@.a_query.drop_first());
    assert(b0 =~= pk@.b_g2_query.drop_first());
    let h = choose|h: Seq<int>| #[trigger]
        is_witness_map::<E>(system.spec_matrices(), system.assignment(), h) && is_proof::<E>(
            pk@,
            system.instance(),
            system.witness(),
            h,
            r,
            s,
            zeta,
            proof@,
        );
    lemma_reduced(
        proof.a@,
        combination((pk@.delta_g1 * zeta) * r, pk@.a_query, pk@.vk.alpha_g1, x),
        m,
    );
    lemma_reduced(
        proof.b@,
        combination((pk@.vk.delta_g2 * zeta) * s, pk@.b_g2_query, pk@.vk.beta_g2, x),
        m,
    );
    lemma_reduced(proof.delta_prime@, pk@.vk.delta_g2 * zeta, m);
    lemma_mod_equivalence(
        proof.c@ * denominator::<E>(pk@, x, r, s, zeta),
        numerator::<E>(pk@, x, system.witness(), h, r, s, zeta),
        m,
    );
    if r != 0 {
        assert(b1 =~= pk@.b_g1_query.drop_first());
    }
}

/// The randomness blinds a proof: for the same system, key and `zeta`, the `a` elements
/// of two proofs differ by the multiple of `delta` by `zeta` and the difference of
/// the two `r`, and the `b` elements by that with the difference of the two `s`.
/// Where that multiple is not the identity, the elements differ.
pub proof fn law_blinding<E: Groups>(
    system: ConstraintSystem<E>,
    pk: ProvingKey<E>,
    zeta: int,
    r: int,
    s: int,
    proof: Proof<E>,
    other_r: int,
    other_s: int,
    other: Proof<E>,
)
    requires
        is_proof_for(system, pk@, r, s, zeta, proof@),
        is_proof_for(system, pk@, other_r, other_s, zeta, other@),
    ensures
        (proof.a@ - other.a@ - pk.delta_g1@ * zeta * (r - other_r)) % E::modulus() == 0,
        (proof.b@ - other.b@ - pk.vk.delta_g2@ * zeta * (s - other_s)) % E::modulus() == 0,
        (proof.delta_prime@ - other.delta_prime@) % E::modulus() == 0,
        (pk.delta_g1@ * zeta * (r - other_r)) % E::modulus() != 0 ==> proof.a@ != other.a@,
        (pk.vk.delta_g2@ * zeta * (s - other_s)) % E::modulus() != 0 ==> proof.b@ != other.b@,
{
    let m = E::modulus();
    let x = inputs_of(system);
    E::modulus_bound();
    let (d1, d2) = (pk@.delta_g1 * zeta, pk@.vk.delta_g2 * zeta);
    lemma_blinded(proof.a@, other.a@, d1, r, other_r, pk@.a_query, pk@.vk.alpha_g1, x, m);
    lemma_blinded(proof.b@, other.b@, d2, s, other_s, pk@.b_g2_query, pk@.vk.beta_g2, x, m);
    let (d, e) = (proof.delta_prime@, other.delta_prime@);
    lemma_cong_sub(d, e, e, e, m);
}

proof fn lemma_blinded(
    v: int,
    w: int,
    d: int,
    r: int,
    other_r: int,
    query: Seq<int>,
    param: int,
    x: Seq<int>,
    m: int,
)
    requires
        m > 0,
        v == combination(d * r, query, param, x) % m,
        w == combination(d * other_r, query, param, x) % m,
    ensures
        (v - w - d * (r - other_r)) % m == 0,
        (d * (r - other_r)) % m != 0 ==> v != w,
{
    let (p, q) = (
        combination(d * r, query, param, x),
        combination(d * other_r, query, param, x),
    );
    let e = d * (r - other_r);
    lemma_cong_mod(p, m);
    lemma_cong_mod(q, m);
    lemma_cong_sub(v, p, w, q, m);
    assert(d * r - d * other_r == d * (r - other_r)) by (nonlinear_arith);
    assert(p - q == e);
    lemma_mod_equivalence(v - w, e, m);
    if v == w {
        lemma_small_mod(0, m as nat);
    }
}

/// Another `zeta` gives a proof another `delta_prime`: the difference is the multiple
/// of `delta` by the difference of the two.
pub proof fn law_delta_prime<E: Groups>(
    system: ConstraintSystem<E>,
    pk: ProvingKey<E>,
    r: int,
    s: int,
    zeta: int,
    proof: Proof<E>,
    other_r: int,
    other_s: int,
    other_zeta: int,
    other: Proof<E>,
)
    requires
        is_proof_for(system, pk@, r, s, zeta, proof@),
        is_proof_for(system, pk@, other_r, other_s, other_zeta, other@),
    ensures
        (proof.delta_prime@ - other.delta_prime@ - pk.vk.delta_g2@ * (zeta - other_zeta))
            % E::modulus() == 0,
{
    let m = E::modulus();
    let d = pk@.vk.delta_g2;
    E::modulus_bound();
    let (p, q) = (proof.delta_prime@, other.delta_prime@);
    lemma_cong_mod(d * zeta, m);
    lemma_cong_mod(d * other_zeta, m);
    lemma_cong_sub(p, d * zeta, q, d * other_zeta, m);
    assert(d * zeta - d * other_zeta == d * (zeta - other_zeta)) by (nonlinear_arith);
    lemma_mod_equivalence(p - q, d * (zeta - other_zeta), m);
}

/// A proof exists where `zeta` plus the challenge of its other elements can be divided
/// by. Here `a`, `b` and `delta_prime` are the numbers that those elements must be.
pub proof fn law_denominator<E: Groups>(
    system: ConstraintSystem<E>,
    pk: ProvingKey<E>,
    r: int,
    s: int,
    zeta: int,
    x: Seq<int>,
    a: int,
    b: int,
    delta_prime: int,
)
    requires
        system.instance().len() > 0,
        pk.a_query@.len() > 0,
        pk.b_g2_query@.len() > 0,
        // The variables but the constant one: the rest of the instance, then the
        // witness.
        x.len() + 1 == system.instance().len() + system.witness().len(),
        forall|i: int|
            0 <= i < system.instance().len() - 1 ==> #[trigger] x[i] == system.instance()[i + 1],
        forall|i: int|
            system.instance().len() - 1 <= i < x.len() ==> #[trigger] x[i] == system.witness()[i - (
            system.instance().len() - 1)],
        0 <= a < E::modulus(),
        0 <= b < E::modulus(),
        0 <= delta_prime < E::modulus(),
        (a - (pk.delta_g1@ * zeta * r + pk.a_query@[0]@ + dot(views(pk.a_query@.skip(1)), x)
            + pk.vk.alpha_g1@)) % E::modulus() == 0,
        (b - (pk.vk.delta_g2@ * zeta * s + pk.b_g2_query@[0]@ + dot(
            views(pk.b_g2_query@.skip(1)),
            x,
        ) + pk.vk.beta_g2@)) % E::modulus() == 0,
        (delta_prime - pk.vk.delta_g2@ * zeta) % E::modulus() == 0,
    ensures
        is_invertible(system, pk@, r, s, zeta) <==> (zeta + challenge::<E>(a, b, delta_prime))
            % E::modulus() != 0,
{
    let m = E::modulus();
    E::modulus_bound();
    lemma_other_variables(system, x);
    assert(views(pk.a_query@.skip(1)) =~= pk@.a_query.drop_first());
    assert(views(pk.b_g2_query@.skip(1)) =~= pk@.b_g2_query.drop_first());
    lemma_is_reduced(
        a,
        combination((pk@.delta_g1 * zeta) * r, pk@.a_query, pk@.vk.alpha_g1, x),
        m,
    );
    lemma_is_reduced(
        b,
        combination((pk@.vk.delta_g2 * zeta) * s, pk@.b_g2_query, pk@.vk.beta_g2, x),
        m,
    );
    lemma_is_reduced(delta_prime, pk@.vk.delta_g2 * zeta, m);
}

proof fn lemma_is_reduced(v: int, x: int, r: int)
    requires
        0 <= v < r,
        (v - x) % r == 0,
    ensures
        v == x % r,
{
    lemma_mod_equivalence(v, x, r);
    lemma_small_mod(v as nat, r as nat);
}

/// A proof can be had where there is a domain for as many points as the system has
/// rows and instance variables, and where the queries that it starts from are not
/// empty.
pub proof fn law_what_a_proof_needs<E: Groups>(
    system: ConstraintSystem<E>,
    pk: ProvingKey<E>,
    r: int,
)
    ensures
        has_domain(system) <==> E::domain_size(
            system.spec_matrices().a.len() + system.spec_matrices().num_instance,
        ) is Some,
        has_queries(pk@, r) <==> {
            &&& pk.a_query@.len() > 0
            &&& pk.b_g2_query@.len() > 0
            &&& r == 0 || pk.b_g1_query@.len() > 0
        },
{
}

/// An honest proof of a true statement satisfies the equation of the verifier: where
/// the assignment satisfies each constraint, the instance starts with the constant
/// one and the key was made for the system, the power that the equation gives is the
/// one that the key encodes.
pub proof fn law_honest_proofs_are_valid<E: Groups>(
    system: ConstraintSystem<E>,
    pk: ProvingKey<E>,
    k: Trapdoor,
    r: int,
    s: int,
    zeta: int,
    proof: Proof<E>,
    inputs: Seq<Scalar<E>>,
    e: int,
)
    requires
        is_proof_for(system, pk@, r, s, zeta, proof@),
        is_key::<E>(pk@, system.spec_matrices(), k),
        forall|i: int|
            0 <= i < system.spec_matrices().a.len() ==> (row_eval(
                #[trigger] system.spec_matrices().a[i],
                system.assignment(),
            ) * row_eval(system.spec_matrices().b[i], system.assignment()) - row_eval(
                system.spec_matrices().c[i],
                system.assignment(),
            )) % E::modulus() == 0,
        system.instance().len() == inputs.len() + 1,
        system.instance()[0] == 1,
        forall|j: int|
            0 <= j < inputs.len() ==> (#[trigger] inputs[j])@ == system.instance()[j + 1],
        0 <= e < E::modulus(),
        (e - (proof.a@ * proof.b@ - prepared(pk.vk@, views(inputs)) * pk.vk.gamma_g2@ - proof.c@ * (
        proof.delta_prime@ + pk.vk.delta_g2@ * challenge::<E>(
            proof.a@,
            proof.b@,
            proof.delta_prime@,
        )))) % E::modulus() == 0,
    ensures
        inputs.len() + 1 == pk.vk.gamma_abc_g1@.len(),
        E::gt_encoding(e) == pk.vk.alpha_g1_beta_g2@,
{
    E::modulus_bound();
    law_satisfied(system.spec_matrices(), system.assignment(), E::modulus());
    assert(views(inputs) =~= system.instance().drop_first());
    law_valid_proofs(pk.vk, proof, inputs, e);
}

/// The randomness of a proof is read off what was drawn for it: the first two draws
/// are `r` and `s`, whatever they are, the last one is `zeta`, and those between are
/// zero.
pub proof fn law_randomness(before: Seq<int>, after: Seq<int>, r: int, s: int, zeta: int)
    ensures
        is_randomness_drawn(before, after, r, s, zeta) <==> {
            &&& before.len() + 3 <= after.len()
            &&& forall|i: int| 0 <= i < before.len() ==> #[trigger] after[i] == before[i]
            &&& r == after[before.len() as int]
            &&& s == after[before.len() as int + 1]
            &&& forall|i: int| before.len() + 2 <= i < after.len() - 1 ==> #[trigger] after[i] == 0
            &&& zeta == after.last()
            &&& zeta != 0
        },
{
    let n = before.len() as int;
    if is_randomness_drawn(before, after, r, s, zeta) {
        assert forall|i: int| 0 <= i < n implies #[trigger] after[i] == before[i] by {
            assert(before[i] == after.take(n)[i]);
        }
    }
    if n + 3 <= after.len() && (forall|i: int| 0 <= i < n ==> #[trigger] after[i] == before[i]) {
        assert(before =~= after.take(n));
        assert(after.take(n + 2) =~= after.take(after.take(n + 2).len() as int));
    }
}

/// A random proof is the proof with the scalars that were drawn for it: the first two
/// draws are `r` and `s`, whatever they are, and `zeta` is the first draw after them
/// that is not zero. No more is drawn.
pub proof fn law_random_proofs<E: Groups>(
    system: ConstraintSystem<E>,
    pk: ProvingKey<E>,
    before: Seq<int>,
    after: Seq<int>,
    res: Result<ProofModel, SynthesisError>,
)
    requires
        is_random_outcome(system, pk@, before, after, res),
    ensures
        before.len() + 3 <= after.len(),
        forall|i: int| 0 <= i < before.len() ==> #[trigger] after[i] == before[i],
        forall|i: int| before.len() + 2 <= i < after.len() - 1 ==> #[trigger] after[i] == 0,
        after.last() != 0,
        ({
            let (r, s, zeta) = (
                after[before.len() as int],
                after[before.len() as int + 1],
                after.last(),
            );
            match res {
                Ok(proof) => {
                    &&& has_domain(system)
                    &&& is_invertible(system, pk@, r, s, zeta)
                    &&& is_proof_for(system, pk@, r, s, zeta, proof)
                },
                Err(e) => {
                    &&& e == SynthesisError::PolynomialDegreeTooLarge <==> !has_domain(system)
                    &&& e == SynthesisError::DivisionByZero <==> has_domain(system)
                    &&& has_domain(system) ==> !is_invertible(system, pk@, r, s, zeta)
                },
            }
        }),
{
    let n = before.len() as int;
    let two = after.take(n + 2);
    assert(two.is_prefix_of(after));
    assert forall|i: int| 0 <= i < before.len() implies #[trigger] after[i] == before[i] by {
        assert(before[i] == after.take(n)[i]);
    }
}

} // verus!
