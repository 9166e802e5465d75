//! The creation of proofs.
use crate::algebra::{
    cong, dot, lemma_cong_add, lemma_cong_mod, lemma_cong_mul, lemma_cong_sub, lemma_sum_cong,
    lemma_sum_scale, sum, views,
};
use crate::challenge::{challenge, fiat_shamir_challenge};
use crate::completeness::{is_convincing, lemma_completeness};
use crate::data_structures::{Proof, ProofModel, ProvingKey, ProvingKeyModel};
use crate::domain::Domain;
use crate::generator::{is_key, Trapdoor};
use crate::groups::{Groups, Scalar, G1, G2};
use crate::pairing::Pairing;
use crate::r1cs::{ConstraintSystem, SynthesisError};
use crate::r1cs_to_qap::{is_witness_map, lemma_witness_map_unique, R1CStoQAP};
use crate::random::{draw_nonzero, is_search, Recorded, ScalarSource};
use crate::units::{is_generator, lemma_generator_no_zero_divisors};
use crate::verify::{accepts, fits_inputs};
use vstd::arithmetic::div_mod::{lemma_mod_equivalence, lemma_small_mod};
use vstd::prelude::*;
use vstd::slice::slice_subrange;

verus! {

// ---------------------------------------------------------------------------
// The model
// ---------------------------------------------------------------------------

/// `initial`, plus the first element of the query, plus the multiples of the
/// others by `x`, plus `param`.
pub open spec fn combination(initial: int, query: Seq<int>, param: int, x: Seq<int>) -> int {
    initial + query[0] + dot(query.drop_first(), x) + param
}

/// The `delta_prime` element of a proof.
pub open spec fn proof_delta_prime<E: Groups>(pk: ProvingKeyModel, zeta: int) -> int {
    (pk.vk.delta_g2 * zeta) % E::modulus()
}

/// The `a` element of a proof for the variables `x`, the constant one left out.
pub open spec fn proof_a<E: Groups>(pk: ProvingKeyModel, x: Seq<int>, r: int, zeta: int) -> int {
    combination((pk.delta_g1 * zeta) * r, pk.a_query, pk.vk.alpha_g1, x) % E::modulus()
}

/// The `b` element of a proof.
pub open spec fn proof_b<E: Groups>(pk: ProvingKeyModel, x: Seq<int>, s: int, zeta: int) -> int {
    combination((pk.vk.delta_g2 * zeta) * s, pk.b_g2_query, pk.vk.beta_g2, x) % E::modulus()
}

/// The counterpart of the `b` element in the first group, which is left out where
/// it would not count.
pub open spec fn b_in_g1(pk: ProvingKeyModel, x: Seq<int>, r: int, s: int, zeta: int) -> int {
    if r == 0 {
        0
    } else {
        combination((pk.delta_g1 * zeta) * s, pk.b_g1_query, pk.beta_g1, x)
    }
}

/// What the `c` element of a proof is divided by: `zeta` plus the challenge.
pub open spec fn denominator<E: Groups>(
    pk: ProvingKeyModel,
    x: Seq<int>,
    r: int,
    s: int,
    zeta: int,
) -> int {
    zeta + challenge::<E>(
        proof_a::<E>(pk, x, r, zeta),
        proof_b::<E>(pk, x, s, zeta),
        proof_delta_prime::<E>(pk, zeta),
    )
}

/// The `c` element of a proof, times the denominator.
pub open spec fn numerator<E: Groups>(
    pk: ProvingKeyModel,
    x: Seq<int>,
    witness: Seq<int>,
    h: Seq<int>,
    r: int,
    s: int,
    zeta: int,
) -> int {
    (proof_a::<E>(pk, x, r, zeta) * s + b_in_g1(pk, x, r, s, zeta) * r - (pk.delta_g1 * zeta) * (r
        * s)) * zeta + dot(pk.l_query, witness) + dot(pk.h_query, h)
}

/// `proof` is the proof for the given variables, quotient and randomness.
pub open spec fn is_proof<E: Groups>(
    pk: ProvingKeyModel,
    instance: Seq<int>,
    witness: Seq<int>,
    h: Seq<int>,
    r: int,
    s: int,
    zeta: int,
    proof: ProofModel,
) -> bool {
    let x = instance.drop_first() + witness;
    &&& proof.a == proof_a::<E>(pk, x, r, zeta)
    &&& proof.b == proof_b::<E>(pk, x, s, zeta)
    &&& proof.delta_prime == proof_delta_prime::<E>(pk, zeta)
    &&& cong(
        proof.c * denominator::<E>(pk, x, r, s, zeta),
        numerator::<E>(pk, x, witness, h, r, s, zeta),
        E::modulus(),
    )
}

/// The key has the elements that a proof with the given `r` starts from.
pub open spec fn has_queries(pk: ProvingKeyModel, r: int) -> bool {
    &&& pk.a_query.len() > 0
    &&& pk.b_g2_query.len() > 0
    &&& r != 0 ==> pk.b_g1_query.len() > 0
}

// ---------------------------------------------------------------------------
// The parts of a proof
// ---------------------------------------------------------------------------

fn calculate_coeff<E: Pairing>(
    initial: &G1<E>,
    query: &Vec<G1<E>>,
    vk_param: &G1<E>,
    assignment: &Vec<Scalar<E>>,
) -> (res: G1<E>)
    requires
        query@.len() > 0,
    ensures
        res@ == combination(initial@, views(query@), vk_param@, views(assignment@))
            % E::modulus(),
{
    let ghost r = E::modulus();
    let acc = E::g1_msm(slice_subrange(query.as_slice(), 1, query.len()), assignment.as_slice());
    let first = E::g1_add(initial, &query[0]);
    let second = E::g1_add(&first, &acc);
    let third = E::g1_add(&second, vk_param);
    proof {
        E::modulus_bound();
        let rest = views(query@).drop_first();
        assert(views(query@.subrange(1, query@.len() as int)) =~= rest);
        let d = dot(rest, views(assignment@));
        let (i, e, p) = (initial@, query@[0]@, vk_param@);
        lemma_sum_of_four(i, e, d, acc@, p, first@, second@, r);
    }
    third
}

fn calculate_coeff_g2<E: Pairing>(
    initial: &G2<E>,
    query: &Vec<G2<E>>,
    vk_param: &G2<E>,
    assignment: &Vec<Scalar<E>>,
) -> (res: G2<E>)
    requires
        query@.len() > 0,
    ensures
        res@ == combination(initial@, views(query@), vk_param@, views(assignment@))
            % E::modulus(),
{
    let ghost r = E::modulus();
    let acc = E::g2_msm(slice_subrange(query.as_slice(), 1, query.len()), assignment.as_slice());
    let first = E::g2_add(initial, &query[0]);
    let second = E::g2_add(&first, &acc);
    let third = E::g2_add(&second, vk_param);
    proof {
        E::modulus_bound();
        let rest = views(query@).drop_first();
        assert(views(query@.subrange(1, query@.len() as int)) =~= rest);
        let d = dot(rest, views(assignment@));
        let (i, e, p) = (initial@, query@[0]@, vk_param@);
        lemma_sum_of_four(i, e, d, acc@, p, first@, second@, r);
    }
    third
}

/// A sum that is reduced after each step.
proof fn lemma_sum_of_four(
    i: int,
    e: int,
    d: int,
    acc: int,
    p: int,
    first: int,
    second: int,
    r: int,
)
    requires
        r > 0,
        acc == d % r,
        first == (i + e) % r,
        second == (first + acc) % r,
    ensures
        (second + p) % r == (i + e + d + p) % r,
{
    lemma_cong_mod(d, r);
    lemma_cong_mod(i + e, r);
    lemma_cong_add(first, i + e, acc, d, r);
    lemma_cong_mod(first + acc, r);
    lemma_cong_add(second, i + e + d, p, p, r);
}

/// The values, each multiplied by `k`.
fn scale<E: Pairing>(values: &Vec<Scalar<E>>, k: &Scalar<E>) -> (res: Vec<Scalar<E>>)
    ensures
        res@.len() == values@.len(),
        forall|i: int|
            0 <= i < res@.len() ==> (#[trigger] res@[i])@ == (values@[i]@ * k@) % E::modulus(),
{
    let mut res: Vec<Scalar<E>> = Vec::new();
    let mut i: usize = 0;
    while i < values.len()
        invariant
            i <= values@.len(),
            res@.len() == i,
            forall|j: int|
                0 <= j < i ==> (#[trigger] res@[j])@ == (values@[j]@ * k@) % E::modulus(),
        decreases values@.len() - i,
    {
        res.push(E::scalar_mul(&values[i], k));
        i = i + 1;
    }
    res
}

/// An inner product with scaled values is the scaled inner product.
proof fn lemma_dot_scaled(query: Seq<int>, values: Seq<int>, scaled: Seq<int>, k: int, r: int)
    requires
        r > 0,
        scaled.len() == values.len(),
        forall|i: int| 0 <= i < scaled.len() ==> #[trigger] scaled[i] == (values[i] * k) % r,
    ensures
        cong(dot(query, scaled), dot(query, values) * k, r),
{
    let n = if query.len() < values.len() {
        query.len() as int
    } else {
        values.len() as int
    };
    let f = |i: int| query[i] * scaled[i];
    let g = |i: int| query[i] * values[i];
    let h = |i: int| k * g(i);
    assert forall|i: int| 0 <= i < n implies cong(#[trigger] f(i), h(i), r) by {
        let (q, v) = (query[i], values[i]);
        assert(scaled[i] == (v * k) % r);
        lemma_cong_mod(v * k, r);
        lemma_cong_mul(q, q, scaled[i], v * k, r);
        assert(q * (v * k) == k * (q * v)) by (nonlinear_arith);
    }
    lemma_sum_cong(n, f, h, r);
    lemma_sum_scale(n, k, g);
    let d = dot(query, values);
    assert(k * d == d * k) by (nonlinear_arith);
}

proof fn lemma_combination_cong(
    i: int,
    j: int,
    query: Seq<int>,
    param: int,
    x: Seq<int>,
    modulus: int,
)
    requires
        modulus > 0,
        cong(i, j, modulus),
    ensures
        cong(combination(i, query, param, x), combination(j, query, param, x), modulus),
{
    let rest = query[0] + dot(query.drop_first(), x) + param;
    lemma_cong_add(i, j, rest, rest, modulus);
}

/// The elements of a proof that the challenge is drawn from, the challenge, and
/// what is known of them in the first group.
struct Commitments<E: Groups> {
    delta_prime_g1: G1<E>,
    delta_prime_g2: G2<E>,
    a: G1<E>,
    b_g1: G1<E>,
    b: G2<E>,
    m: Scalar<E>,
}

impl<E: Groups> Commitments<E> {
    spec fn are_for(
        &self,
        pk: ProvingKeyModel,
        x: Seq<int>,
        r: int,
        s: int,
        zeta: int,
    ) -> bool {
        &&& cong(self.delta_prime_g1@, pk.delta_g1 * zeta, E::modulus())
        &&& self.delta_prime_g2@ == proof_delta_prime::<E>(pk, zeta)
        &&& self.a@ == proof_a::<E>(pk, x, r, zeta)
        &&& cong(self.b_g1@, b_in_g1(pk, x, r, s, zeta), E::modulus())
        &&& self.b@ == proof_b::<E>(pk, x, s, zeta)
        &&& self.m@ == challenge::<E>(self.a@, self.b@, self.delta_prime_g2@)
    }
}

fn commit<E: Pairing>(
    pk: &ProvingKey<E>,
    assignment: &Vec<Scalar<E>>,
    r: &Scalar<E>,
    s: &Scalar<E>,
    zeta: &Scalar<E>,
) -> (res: Commitments<E>)
    requires
        has_queries(pk@, r@),
    ensures
        res.are_for(pk@, views(assignment@), r@, s@, zeta@),
{
    let ghost modulus = E::modulus();
    let ghost x = views(assignment@);
    proof {
        E::modulus_bound();
        let (d1, d2) = (pk@.delta_g1 * zeta@, pk@.vk.delta_g2 * zeta@);
        lemma_cong_mod(d1, modulus);
        lemma_cong_mod(d2, modulus);
        lemma_cong_mul(d1 % modulus, d1, r@, r@, modulus);
        lemma_cong_mul(d1 % modulus, d1, s@, s@, modulus);
        lemma_cong_mul(d2 % modulus, d2, s@, s@, modulus);
        lemma_cong_mod((d1 % modulus) * r@, modulus);
        lemma_cong_mod((d1 % modulus) * s@, modulus);
        lemma_cong_mod((d2 % modulus) * s@, modulus);
    }
    let delta_prime_g1 = E::g1_mul(&pk.delta_g1, zeta);
    let delta_prime_g2 = E::g2_mul(&pk.vk.delta_g2, zeta);

    let r_g1 = E::g1_mul(&delta_prime_g1, r);
    let a = calculate_coeff(&r_g1, &pk.a_query, &pk.vk.alpha_g1, assignment);

    let b_g1 = if !r.is_zero() {
        let s_g1 = E::g1_mul(&delta_prime_g1, s);
        proof {
            lemma_combination_cong(
                s_g1@,
                (pk@.delta_g1 * zeta@) * s@,
                pk@.b_g1_query,
                pk@.beta_g1,
                x,
                modulus,
            );
            lemma_cong_mod(combination(s_g1@, pk@.b_g1_query, pk@.beta_g1, x), modulus);
        }
        calculate_coeff(&s_g1, &pk.b_g1_query, &pk.beta_g1, assignment)
    } else {
        E::g1_zero()
    };

    let s_g2 = E::g2_mul(&delta_prime_g2, s);
    let b = calculate_coeff_g2(&s_g2, &pk.b_g2_query, &pk.vk.beta_g2, assignment);
    proof {
        lemma_combination_cong(
            r_g1@,
            (pk@.delta_g1 * zeta@) * r@,
            pk@.a_query,
            pk@.vk.alpha_g1,
            x,
            modulus,
        );
        lemma_combination_cong(
            s_g2@,
            (pk@.vk.delta_g2 * zeta@) * s@,
            pk@.b_g2_query,
            pk@.vk.beta_g2,
            x,
            modulus,
        );
    }
    let m = fiat_shamir_challenge(&a, &b, &delta_prime_g2);
    Commitments { delta_prime_g1, delta_prime_g2, a, b_g1, b, m }
}

/// The last element of a proof, where `inverse` is the inverse of the denominator.
fn finish<E: Pairing>(
    pk: &ProvingKey<E>,
    parts: &Commitments<E>,
    witness: &Vec<Scalar<E>>,
    h: &Vec<Scalar<E>>,
    r: &Scalar<E>,
    s: &Scalar<E>,
    zeta: &Scalar<E>,
    inverse: &Scalar<E>,
) -> (c: G1<E>)
    ensures
        cong(
            c@,
            ((parts.a@ * s@ + parts.b_g1@ * r@ - parts.delta_prime_g1@ * (r@ * s@)) * zeta@ + dot(
                pk@.l_query,
                views(witness@),
            ) + dot(pk@.h_query, views(h@))) * inverse@,
            E::modulus(),
        ),
{
    let ghost modulus = E::modulus();
    let factor = E::scalar_mul(zeta, inverse);
    let r_s = E::scalar_mul(r, s);
    let r_s_delta_g1 = E::g1_mul(&parts.delta_prime_g1, &r_s);
    let s_g_a = E::g1_mul(&parts.a, s);
    let r_g1_b = E::g1_mul(&parts.b_g1, r);

    let h_assignment = scale(h, inverse);
    let h_acc = E::g1_msm(pk.h_query.as_slice(), h_assignment.as_slice());
    let aux_assignment = scale(witness, inverse);
    let l_aux_acc = E::g1_msm(pk.l_query.as_slice(), aux_assignment.as_slice());

    let term_a = E::g1_mul(&s_g_a, &factor);
    let term_b = E::g1_mul(&r_g1_b, &factor);
    let term_delta = E::g1_mul(&r_s_delta_g1, &factor);
    let sum_ab = E::g1_add(&term_a, &term_b);
    let difference = E::g1_sub(&sum_ab, &term_delta);
    let with_l = E::g1_add(&difference, &l_aux_acc);
    let c = E::g1_add(&with_l, &h_acc);
    proof {
        E::modulus_bound();
        let i = inverse@;
        let f = zeta@ * i;
        let (xa, xb, xd) = (
            parts.a@ * s@,
            parts.b_g1@ * r@,
            parts.delta_prime_g1@ * (r@ * s@),
        );
        let (l, hh) = (dot(pk@.l_query, views(witness@)), dot(pk@.h_query, views(h@)));
        lemma_cong_mod(f, modulus);
        lemma_cong_mod(xa, modulus);
        lemma_cong_mul(s_g_a@, xa, factor@, f, modulus);
        lemma_cong_mod(s_g_a@ * factor@, modulus);
        lemma_cong_mod(xb, modulus);
        lemma_cong_mul(r_g1_b@, xb, factor@, f, modulus);
        lemma_cong_mod(r_g1_b@ * factor@, modulus);
        lemma_cong_mod(r@ * s@, modulus);
        let d1 = parts.delta_prime_g1@;
        lemma_cong_mul(d1, d1, r_s@, r@ * s@, modulus);
        lemma_cong_mod(d1 * r_s@, modulus);
        lemma_cong_mul(r_s_delta_g1@, xd, factor@, f, modulus);
        lemma_cong_mod(r_s_delta_g1@ * factor@, modulus);
        assert forall|j: int| 0 <= j < views(h_assignment@).len() implies #[trigger] views(
            h_assignment@,
        )[j] == (views(h@)[j] * i) % modulus by {
            assert(h_assignment@[j]@ == (h@[j]@ * i) % modulus);
        }
        lemma_dot_scaled(pk@.h_query, views(h@), views(h_assignment@), i, modulus);
        lemma_cong_mod(dot(pk@.h_query, views(h_assignment@)), modulus);
        assert forall|j: int| 0 <= j < views(aux_assignment@).len() implies #[trigger] views(
            aux_assignment@,
        )[j] == (views(witness@)[j] * i) % modulus by {
            assert(aux_assignment@[j]@ == (witness@[j]@ * i) % modulus);
        }
        lemma_dot_scaled(pk@.l_query, views(witness@), views(aux_assignment@), i, modulus);
        lemma_cong_mod(dot(pk@.l_query, views(aux_assignment@)), modulus);

        lemma_cong_add(term_a@, xa * f, term_b@, xb * f, modulus);
        lemma_cong_mod(term_a@ + term_b@, modulus);
        lemma_cong_sub(sum_ab@, xa * f + xb * f, term_delta@, xd * f, modulus);
        lemma_cong_mod(sum_ab@ - term_delta@, modulus);
        lemma_cong_add(difference@, xa * f + xb * f - xd * f, l_aux_acc@, l * i, modulus);
        lemma_cong_mod(difference@ + l_aux_acc@, modulus);
        lemma_cong_add(
            with_l@,
            xa * f + xb * f - xd * f + l * i,
            h_acc@,
            hh * i,
            modulus,
        );
        lemma_cong_mod(with_l@ + h_acc@, modulus);
        let z = zeta@;
        assert(xa * (z * i) + xb * (z * i) - xd * (z * i) + l * i + hh * i == ((xa + xb - xd) * z
            + l + hh) * i) by (nonlinear_arith);
    }
    c
}

/// What was divided by the denominator is the numerator once it is multiplied by
/// the denominator again.
proof fn lemma_finished<E: Groups>(
    pk: ProvingKeyModel,
    x: Seq<int>,
    witness: Seq<int>,
    h: Seq<int>,
    r: int,
    s: int,
    zeta: int,
    delta_prime_g1: int,
    b_g1: int,
    zeta_m: int,
    inverse: int,
    c: int,
)
    requires
        cong(delta_prime_g1, pk.delta_g1 * zeta, E::modulus()),
        cong(b_g1, b_in_g1(pk, x, r, s, zeta), E::modulus()),
        zeta_m == denominator::<E>(pk, x, r, s, zeta) % E::modulus(),
        (zeta_m * inverse) % E::modulus() == 1,
        cong(
            c,
            ((proof_a::<E>(pk, x, r, zeta) * s + b_g1 * r - delta_prime_g1 * (r * s)) * zeta + dot(
                pk.l_query,
                witness,
            ) + dot(pk.h_query, h)) * inverse,
            E::modulus(),
        ),
    ensures
        cong(
            c * denominator::<E>(pk, x, r, s, zeta),
            numerator::<E>(pk, x, witness, h, r, s, zeta),
            E::modulus(),
        ),
{
    let modulus = E::modulus();
    E::modulus_bound();
    let den = denominator::<E>(pk, x, r, s, zeta);
    let num = numerator::<E>(pk, x, witness, h, r, s, zeta);
    let (l, hh) = (dot(pk.l_query, witness), dot(pk.h_query, h));
    let xa = proof_a::<E>(pk, x, r, zeta) * s;
    let (xb, yb) = (b_g1 * r, b_in_g1(pk, x, r, s, zeta) * r);
    let (xd, yd) = (delta_prime_g1 * (r * s), (pk.delta_g1 * zeta) * (r * s));
    lemma_cong_mul(b_g1, b_in_g1(pk, x, r, s, zeta), r, r, modulus);
    lemma_cong_mul(delta_prime_g1, pk.delta_g1 * zeta, r * s, r * s, modulus);
    lemma_cong_add(xa, xa, xb, yb, modulus);
    lemma_cong_sub(xa + xb, xa + yb, xd, yd, modulus);
    lemma_cong_mul(xa + xb - xd, xa + yb - yd, zeta, zeta, modulus);
    lemma_cong_add((xa + xb - xd) * zeta, (xa + yb - yd) * zeta, l, l, modulus);
    let near = (xa + xb - xd) * zeta + l + hh;
    lemma_cong_add((xa + xb - xd) * zeta + l, (xa + yb - yd) * zeta + l, hh, hh, modulus);
    assert(cong(near, num, modulus));
    lemma_cong_mul(near, num, inverse, inverse, modulus);
    lemma_cong_mod(den, modulus);
    lemma_cong_mul(c, num * inverse, den, zeta_m, modulus);
    assert((num * inverse) * zeta_m == num * (zeta_m * inverse)) by (nonlinear_arith);
    lemma_small_mod(1, modulus as nat);
    lemma_cong_mul(num, num, zeta_m * inverse, 1, modulus);
}

// ---------------------------------------------------------------------------
// Proofs
// ---------------------------------------------------------------------------

/// `x` of a system: the values of all variables but the constant one.
pub open spec fn inputs_of<E: Groups>(system: ConstraintSystem<E>) -> Seq<int> {
    system.instance().drop_first() + system.witness()
}

/// There is an evaluation domain for the system.
pub open spec fn has_domain<E: Groups>(system: ConstraintSystem<E>) -> bool {
    E::domain_size(system.spec_matrices().num_points()) is Some
}

/// What can be divided by: the denominator of the proof is not zero.
pub open spec fn is_invertible<E: Groups>(
    system: ConstraintSystem<E>,
    pk: ProvingKeyModel,
    r: int,
    s: int,
    zeta: int,
) -> bool {
    denominator::<E>(pk, inputs_of(system), r, s, zeta) % E::modulus() != 0
}

/// `proof` has the elements of the proof for the system with the given randomness.
pub open spec fn is_proof_of<E: Groups>(
    system: ConstraintSystem<E>,
    pk: ProvingKeyModel,
    r: int,
    s: int,
    zeta: int,
    proof: ProofModel,
) -> bool {
    exists|h: Seq<int>| #[trigger]
        is_witness_map::<E>(system.spec_matrices(), system.assignment(), h) && is_proof::<E>(
            pk,
            system.instance(),
            system.witness(),
            h,
            r,
            s,
            zeta,
            proof,
        )
}

/// `proof` is the proof for the system with the given randomness. Where the
/// system is satisfied and its instance starts with the constant one, the proof
/// is accepted.
pub open spec fn is_proof_for<E: Groups>(
    system: ConstraintSystem<E>,
    pk: ProvingKeyModel,
    r: int,
    s: int,
    zeta: int,
    proof: ProofModel,
) -> bool {
    &&& is_proof_of(system, pk, r, s, zeta, proof)
    &&& system.is_satisfied() && system.instance()[0] == 1 ==> is_convincing::<E>(
        pk,
        system.spec_matrices(),
        system.instance(),
        proof,
    )
}

/// The system, the key and the randomness determine the proof.
pub proof fn lemma_proof_unique<E: Groups>(
    system: ConstraintSystem<E>,
    pk: ProvingKeyModel,
    r: int,
    s: int,
    zeta: int,
    proof: ProofModel,
    other: ProofModel,
)
    requires
        is_generator(E::generator(), E::modulus()),
        system.spec_matrices().wf(),
        is_invertible(system, pk, r, s, zeta),
        is_proof_of(system, pk, r, s, zeta, proof),
        is_proof_of(system, pk, r, s, zeta, other),
        0 <= proof.c < E::modulus(),
        0 <= other.c < E::modulus(),
    ensures
        proof == other,
{
    let modulus = E::modulus();
    let (cs, z) = (system.spec_matrices(), system.assignment());
    let (instance, witness) = (system.instance(), system.witness());
    let x = inputs_of(system);
    E::modulus_bound();
    let h = choose|h: Seq<int>| #[trigger]
        is_witness_map::<E>(cs, z, h) && is_proof::<E>(
            pk,
            instance,
            witness,
            h,
            r,
            s,
            zeta,
            proof,
        );
    let h2 = choose|h: Seq<int>| #[trigger]
        is_witness_map::<E>(cs, z, h) && is_proof::<E>(
            pk,
            instance,
            witness,
            h,
            r,
            s,
            zeta,
            other,
        );
    lemma_witness_map_unique::<E>(cs, z, h, h2);
    let n = if pk.h_query.len() < h.len() {
        pk.h_query.len() as int
    } else {
        h.len() as int
    };
    let f = |i: int| pk.h_query[i] * h[i];
    let f2 = |i: int| pk.h_query[i] * h2[i];
    assert forall|i: int| 0 <= i < n implies cong(#[trigger] f(i), f2(i), modulus) by {
        assert(cong(h[i], h2[i], modulus));
        lemma_cong_mul(pk.h_query[i], pk.h_query[i], h[i], h2[i], modulus);
    }
    lemma_sum_cong(n, f, f2, modulus);
    let front = numerator::<E>(pk, x, witness, h, r, s, zeta) - dot(pk.h_query, h);
    lemma_cong_add(front, front, dot(pk.h_query, h), dot(pk.h_query, h2), modulus);
    let den = denominator::<E>(pk, x, r, s, zeta);
    let (c, c2) = (proof.c, other.c);
    assert(cong(c * den, c2 * den, modulus));
    lemma_mod_equivalence(c * den, c2 * den, modulus);
    assert(c * den - c2 * den == (c - c2) * den) by (nonlinear_arith);
    lemma_generator_no_zero_divisors(E::generator(), modulus);
    assert(((c - c2) * den) % modulus == 0);
    lemma_mod_equivalence(c, c2, modulus);
    lemma_small_mod(c as nat, modulus as nat);
    lemma_small_mod(c2 as nat, modulus as nat);
}

/// Where `r` is zero, the copy of `b` in the first group is not read: keys that
/// differ in its elements alone serve on the same inputs and give the same proof.
pub proof fn lemma_b_in_g1_is_not_read<E: Groups>(
    system: ConstraintSystem<E>,
    pk: ProvingKey<E>,
    other_pk: ProvingKey<E>,
    s: int,
    zeta: int,
    proof: Proof<E>,
    other: Proof<E>,
)
    requires
        is_generator(E::generator(), E::modulus()),
        system.spec_matrices().wf(),
        other_pk@ == (ProvingKeyModel {
            b_g1_query: other_pk@.b_g1_query,
            beta_g1: other_pk@.beta_g1,
            ..pk@
        }),
    ensures
        has_queries(pk@, 0) == has_queries(other_pk@, 0),
        is_invertible(system, pk@, 0, s, zeta) == is_invertible(system, other_pk@, 0, s, zeta),
        is_invertible(system, pk@, 0, s, zeta) && is_proof_of(system, pk@, 0, s, zeta, proof@)
            && is_proof_of(system, other_pk@, 0, s, zeta, other@) ==> proof@ == other@,
{
    let (instance, witness) = (system.instance(), system.witness());
    if is_invertible(system, pk@, 0, s, zeta) && is_proof_of(system, pk@, 0, s, zeta, proof@)
        && is_proof_of(system, other_pk@, 0, s, zeta, other@) {
        let h = choose|h: Seq<int>| #[trigger]
            is_witness_map::<E>(system.spec_matrices(), system.assignment(), h) && is_proof::<E>(
                other_pk@,
                instance,
                witness,
                h,
                0,
                s,
                zeta,
                other@,
            );
        assert(is_proof::<E>(pk@, instance, witness, h, 0, s, zeta, other@));
        proof.c.view_bound();
        other.c.view_bound();
        lemma_proof_unique(system, pk@, 0, s, zeta, proof@, other@);
    }
}

/// The values of all variables but the constant one.
fn assignment_of<E: Pairing>(system: &ConstraintSystem<E>) -> (x: Vec<Scalar<E>>)
    ensures
        views(x@) == inputs_of(*system),
        system.spec_matrices().wf(),
        system.instance().len() == system.spec_matrices().num_instance,
        system.witness().len() == system.spec_matrices().num_witness,
{
    let instance = system.instance_assignment();
    let witness = system.witness_assignment();
    let mut x: Vec<Scalar<E>> = Vec::new();
    assert(views(instance@).len() == instance@.len());
    let mut i: usize = 1;
    while i < instance.len()
        invariant
            1 <= i <= instance@.len(),
            x@ =~= instance@.subrange(1, i as int),
        decreases instance@.len() - i,
    {
        x.push(instance[i]);
        i = i + 1;
    }
    let mut j: usize = 0;
    while j < witness.len()
        invariant
            j <= witness@.len(),
            instance@.len() >= 1,
            x@ =~= instance@.subrange(1, instance@.len() as int) + witness@.take(j as int),
        decreases witness@.len() - j,
    {
        x.push(witness[j]);
        j = j + 1;
    }
    assert(views(x@) =~= inputs_of(*system)) by {
        assert(views(instance@) == system.instance());
        assert(views(witness@) == system.witness());
    }
    x
}

/// The proof with the given randomness, or an error where there is none.
fn prove_with<E: Pairing>(
    system: &ConstraintSystem<E>,
    pk: &ProvingKey<E>,
    r: &Scalar<E>,
    s: &Scalar<E>,
    zeta: &Scalar<E>,
) -> (res: Result<Proof<E>, SynthesisError>)
    requires
        has_domain(*system) ==> has_queries(pk@, r@),
    ensures
        match res {
            Ok(proof) => {
                &&& has_domain(*system)
                &&& is_invertible(*system, pk@, r@, s@, zeta@)
                &&& is_proof_for(*system, pk@, r@, s@, zeta@, proof@)
            },
            Err(e) => {
                ||| !has_domain(*system) && e == SynthesisError::PolynomialDegreeTooLarge
                ||| has_domain(*system) && !is_invertible(*system, pk@, r@, s@, zeta@) && e
                    == SynthesisError::DivisionByZero
            },
        },
{
    let ghost modulus = E::modulus();
    let h = match R1CStoQAP::witness_map(system) {
        Ok(h) => h,
        Err(e) => {
            return Err(e);
        },
    };
    let assignment = assignment_of(system);
    let ghost x = inputs_of(*system);
    let parts = commit(pk, &assignment, r, s, zeta);
    let zeta_m = E::scalar_add(zeta, &parts.m);
    let zeta_m_inv = match E::scalar_inverse(&zeta_m) {
        Some(inverse) => inverse,
        None => {
            return Err(SynthesisError::DivisionByZero);
        },
    };
    let witness = system.witness_assignment();
    let c = finish(pk, &parts, witness, &h, r, s, zeta, &zeta_m_inv);
    let proof = Proof { a: parts.a, b: parts.b, c, delta_prime: parts.delta_prime_g2 };
    proof {
        E::modulus_bound();
        let matrices = system.spec_matrices();
        lemma_finished::<E>(
            pk@,
            x,
            system.witness(),
            views(h@),
            r@,
            s@,
            zeta@,
            parts.delta_prime_g1@,
            parts.b_g1@,
            zeta_m@,
            zeta_m_inv@,
            c@,
        );
        assert(is_witness_map::<E>(matrices, system.assignment(), views(h@)) && is_proof::<E>(
            pk@,
            system.instance(),
            system.witness(),
            views(h@),
            r@,
            s@,
            zeta@,
            proof@,
        ));
        if system.is_satisfied() && system.instance()[0] == 1 {
            assert forall|k: Trapdoor| #[trigger] is_key::<E>(pk@, matrices, k) implies fits_inputs(
                pk@.vk,
                system.instance().drop_first(),
            ) && accepts::<E>(pk@.vk, proof@, system.instance().drop_first()) by {
                lemma_completeness::<E>(
                    pk@,
                    matrices,
                    k,
                    system.instance(),
                    system.witness(),
                    views(h@),
                    r@,
                    s@,
                    zeta@,
                    proof@,
                );
            }
        }
    }
    Ok(proof)
}

/// The proof with the randomness `r`, `s` and `zeta`. Its denominator, `zeta` plus
/// the challenge, must not be zero: see [`try_create_proof`].
pub fn create_proof<E: Pairing>(
    circuit: &ConstraintSystem<E>,
    pk: &ProvingKey<E>,
    r: Scalar<E>,
    s: Scalar<E>,
    zeta: Scalar<E>,
) -> (res: Result<Proof<E>, SynthesisError>)
    requires
        has_domain(*circuit) ==> has_queries(pk@, r@) && is_invertible(
            *circuit,
            pk@,
            r@,
            s@,
            zeta@,
        ),
    ensures
        match res {
            Ok(proof) => has_domain(*circuit) && is_proof_for(
                *circuit,
                pk@,
                r@,
                s@,
                zeta@,
                proof@,
            ),
            Err(e) => !has_domain(*circuit) && e == SynthesisError::PolynomialDegreeTooLarge,
        },
{
    prove_with(circuit, pk, &r, &s, &zeta)
}

/// The proof without randomness, which is not zero-knowledge. Its denominator, one
/// plus the challenge, must not be zero: see [`try_create_proof_no_zk`].
pub fn create_proof_no_zk<E: Pairing>(circuit: &ConstraintSystem<E>, pk: &ProvingKey<E>) -> (res:
    Result<Proof<E>, SynthesisError>)
    requires
        has_domain(*circuit) ==> has_queries(pk@, 0) && is_invertible(*circuit, pk@, 0, 0, 1),
    ensures
        match res {
            Ok(proof) => has_domain(*circuit) && is_proof_for(*circuit, pk@, 0, 0, 1, proof@),
            Err(e) => !has_domain(*circuit) && e == SynthesisError::PolynomialDegreeTooLarge,
        },
{
    create_proof(circuit, pk, Scalar::zero(), Scalar::zero(), Scalar::one())
}

/// Whether there is an evaluation domain for the system.
pub fn finds_domain<E: Pairing>(system: &ConstraintSystem<E>) -> (b: bool)
    ensures
        b == has_domain(*system),
{
    let domain: Option<Domain<E>> = Domain::new(system.matrices().num_points());
    domain.is_some()
}

/// Whether the denominator of the proof with the given randomness is other than
/// zero.
pub fn has_proof<E: Pairing>(
    circuit: &ConstraintSystem<E>,
    pk: &ProvingKey<E>,
    r: &Scalar<E>,
    s: &Scalar<E>,
    zeta: &Scalar<E>,
) -> (b: bool)
    requires
        has_queries(pk@, r@),
    ensures
        b == is_invertible(*circuit, pk@, r@, s@, zeta@),
{
    let assignment = assignment_of(circuit);
    let parts = commit(pk, &assignment, r, s, zeta);
    !E::scalar_add(zeta, &parts.m).is_zero()
}

/// The proof with the randomness `r`, `s` and `zeta`, or an error where there is
/// none because its denominator is zero.
pub fn try_create_proof<E: Pairing>(
    circuit: &ConstraintSystem<E>,
    pk: &ProvingKey<E>,
    r: Scalar<E>,
    s: Scalar<E>,
    zeta: Scalar<E>,
) -> (res: Result<Proof<E>, SynthesisError>)
    requires
        has_domain(*circuit) ==> has_queries(pk@, r@),
    ensures
        match res {
            Ok(proof) => {
                &&& has_domain(*circuit)
                &&& is_invertible(*circuit, pk@, r@, s@, zeta@)
                &&& is_proof_for(*circuit, pk@, r@, s@, zeta@, proof@)
            },
            Err(e) => {
                ||| !has_domain(*circuit) && e == SynthesisError::PolynomialDegreeTooLarge
                ||| has_domain(*circuit) && !is_invertible(*circuit, pk@, r@, s@, zeta@) && e
                    == SynthesisError::DivisionByZero
            },
        },
{
    if !finds_domain(circuit) || has_proof(circuit, pk, &r, &s, &zeta) {
        create_proof(circuit, pk, r, s, zeta)
    } else {
        Err(SynthesisError::DivisionByZero)
    }
}

/// The proof without randomness, or an error where there is none because its
/// denominator is zero.
pub fn try_create_proof_no_zk<E: Pairing>(
    circuit: &ConstraintSystem<E>,
    pk: &ProvingKey<E>,
) -> (res: Result<Proof<E>, SynthesisError>)
    requires
        has_domain(*circuit) ==> has_queries(pk@, 0),
    ensures
        match res {
            Ok(proof) => {
                &&& has_domain(*circuit)
                &&& is_invertible(*circuit, pk@, 0, 0, 1)
                &&& is_proof_for(*circuit, pk@, 0, 0, 1, proof@)
            },
            Err(e) => {
                ||| !has_domain(*circuit) && e == SynthesisError::PolynomialDegreeTooLarge
                ||| has_domain(*circuit) && !is_invertible(*circuit, pk@, 0, 0, 1) && e
                    == SynthesisError::DivisionByZero
            },
        },
{
    if !finds_domain(circuit) || has_proof(
        circuit,
        pk,
        &Scalar::zero(),
        &Scalar::zero(),
        &Scalar::one(),
    ) {
        create_proof_no_zk(circuit, pk)
    } else {
        Err(SynthesisError::DivisionByZero)
    }
}

/// The randomness of a proof: `zeta` differs from zero.
pub open spec fn is_randomness<E: Groups>(r: int, s: int, zeta: int) -> bool {
    &&& 0 <= r < E::modulus()
    &&& 0 <= s < E::modulus()
    &&& 0 < zeta < E::modulus()
}

/// From `before` on, the randomness of a proof was drawn up to `after`: `r` first,
/// `s` second, and then `zeta`, the first scalar after them that is not zero.
pub open spec fn is_randomness_drawn(
    before: Seq<int>,
    after: Seq<int>,
    r: int,
    s: int,
    zeta: int,
) -> bool {
    let n = before.len() as int;
    &&& before.is_prefix_of(after)
    &&& n + 2 <= after.len()
    &&& r == after[n]
    &&& s == after[n + 1]
    &&& is_search(after.take(n + 2), after, |x: int| x != 0, zeta)
}

/// The randomness `r`, `s` and `zeta` of a proof, from `rng`.
pub fn draw_randomness<E: Pairing, R: ScalarSource<E>>(rng: &mut Recorded<R>) -> (res: (
    Scalar<E>,
    Scalar<E>,
    Scalar<E>,
))
    ensures
        is_randomness_drawn(old(rng).drawn(), final(rng).drawn(), res.0@, res.1@, res.2@),
        is_randomness::<E>(res.0@, res.1@, res.2@),
{
    let ghost before = rng.drawn();
    let r: Scalar<E> = rng.draw();
    let s: Scalar<E> = rng.draw();
    let ghost two = rng.drawn();
    let zeta: Scalar<E> = draw_nonzero(rng);
    proof {
        assert(rng.drawn().take(before.len() as int + 2) =~= two);
        assert(two[before.len() as int] == r@ && two[before.len() as int + 1] == s@);
        r.view_bound();
        s.view_bound();
    }
    (r, s, zeta)
}

/// The outcome of a proof with randomness that was drawn from `before` on, up to
/// `after`: the proof with that randomness, or an error where there is no domain or
/// where the denominator of that proof is zero.
pub open spec fn is_random_outcome<E: Groups>(
    system: ConstraintSystem<E>,
    pk: ProvingKeyModel,
    before: Seq<int>,
    after: Seq<int>,
    res: Result<ProofModel, SynthesisError>,
) -> bool {
    let n = before.len() as int;
    let (r, s, zeta) = (after[n], after[n + 1], after.last());
    &&& is_randomness_drawn(before, after, r, s, zeta)
    &&& is_randomness::<E>(r, s, zeta)
    &&& match res {
        Ok(proof) => {
            &&& has_domain(system)
            &&& is_invertible(system, pk, r, s, zeta)
            &&& is_proof_for(system, pk, r, s, zeta, proof)
        },
        Err(e) => {
            ||| e == SynthesisError::PolynomialDegreeTooLarge && !has_domain(system)
            ||| e == SynthesisError::DivisionByZero && has_domain(system) && !is_invertible(
                system,
                pk,
                r,
                s,
                zeta,
            )
        },
    }
}

/// A zero-knowledge proof, with randomness from `rng`.
pub fn create_random_proof<E: Pairing, R: ScalarSource<E>>(
    circuit: &ConstraintSystem<E>,
    pk: &ProvingKey<E>,
    rng: &mut Recorded<R>,
) -> (res: Result<Proof<E>, SynthesisError>)
    requires
        has_domain(*circuit) ==> has_queries(pk@, 1),
    ensures
        is_random_outcome(
            *circuit,
            pk@,
            old(rng).drawn(),
            final(rng).drawn(),
            match res {
                Ok(proof) => Ok(proof@),
                Err(e) => Err(e),
            },
        ),
{
    let (r, s, zeta) = draw_randomness(rng);
    prove_with(circuit, pk, &r, &s, &zeta)
}

} // verus!
