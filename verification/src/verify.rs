//! The verification of proofs.
use crate::algebra::{
    cong, dot, lemma_cong_add, lemma_cong_mod, lemma_cong_mul, lemma_cong_sub, lemma_sum_add,
    lemma_sum_eq, lemma_sum_single, sum, views,
};
use crate::challenge::{challenge, fiat_shamir_challenge};
use crate::data_structures::{
    PreparedVerifyingKey, Proof, ProofModel, VerifyingKey, VerifyingKeyModel,
};
use crate::groups::{Groups, Scalar, G1, G2};
use crate::pairing::Pairing;
use crate::r1cs::SynthesisError;
use crate::units::{is_generator, lemma_generator_no_zero_divisors};
use vstd::arithmetic::div_mod::{
    lemma_mod_add_multiples_vanish, lemma_mod_bound, lemma_mod_equivalence, lemma_small_mod,
};
use vstd::arithmetic::mul::lemma_mul_basics;
use vstd::prelude::*;

verus! {

// ---------------------------------------------------------------------------
// The model
// ---------------------------------------------------------------------------

/// As many inputs as the key has elements for, the constant one left out.
pub open spec fn fits_inputs(vk: VerifyingKeyModel, inputs: Seq<int>) -> bool {
    inputs.len() + 1 == vk.gamma_abc_g1.len()
}

/// The element that stands for the inputs.
pub open spec fn prepared(vk: VerifyingKeyModel, inputs: Seq<int>) -> int {
    vk.gamma_abc_g1[0] + dot(inputs, vk.gamma_abc_g1.drop_first())
}

/// `delta_prime` plus the multiple of `delta` by the challenge.
pub open spec fn delta_term<E: Groups>(vk: VerifyingKeyModel, proof: ProofModel) -> int {
    vk.delta_g2 * challenge::<E>(proof.a, proof.b, proof.delta_prime) + proof.delta_prime
}

/// The power of the pairing of the generators that the product of pairings of a
/// proof is, where `gamma_neg` is `-gamma`.
pub open spec fn exponent<E: Groups>(
    vk: VerifyingKeyModel,
    gamma_neg: int,
    proof: ProofModel,
    input: int,
) -> int {
    (proof.a * proof.b + input * gamma_neg + proof.c * -delta_term::<E>(vk, proof)) % E::modulus()
}

/// The product of pairings of a proof with the given prepared inputs equals that
/// of the key.
pub open spec fn pairing_check<E: Groups>(
    vk: VerifyingKeyModel,
    gamma_neg: int,
    proof: ProofModel,
    input: int,
) -> bool {
    E::gt_encoding(exponent::<E>(vk, gamma_neg, proof, input)) == vk.alpha_g1_beta_g2
}

/// The check is one of exponents: where the key holds a power of the pairing of the
/// generators, the check holds if and only if the product of pairings is the same
/// power.
pub open spec fn is_check_of_exponents<E: Groups>(
    vk: VerifyingKeyModel,
    gamma_neg: int,
    proof: ProofModel,
    input: int,
) -> bool {
    forall|k: int|
        0 <= k < E::modulus() && vk.alpha_g1_beta_g2 == #[trigger] E::gt_encoding(k) ==> (
        pairing_check::<E>(vk, gamma_neg, proof, input) <==> exponent::<E>(
            vk,
            gamma_neg,
            proof,
            input,
        ) == k)
}

/// `b` is the verdict on a proof: the outcome of the check, which is one of
/// exponents.
pub open spec fn is_verdict<E: Groups>(
    vk: VerifyingKeyModel,
    gamma_neg: int,
    proof: ProofModel,
    input: int,
    b: bool,
) -> bool {
    &&& b == pairing_check::<E>(vk, gamma_neg, proof, input)
    &&& is_check_of_exponents::<E>(vk, gamma_neg, proof, input)
}

/// The proof is valid for the inputs.
pub open spec fn accepts<E: Groups>(
    vk: VerifyingKeyModel,
    proof: ProofModel,
    inputs: Seq<int>,
) -> bool {
    pairing_check::<E>(vk, -vk.gamma_g2, proof, prepared(vk, inputs))
}

/// What was computed ahead belongs to the key.
pub open spec fn is_prepared<E: Groups>(pvk: PreparedVerifyingKey<E>) -> bool {
    pvk.gamma_g2_neg_pc@ == (-pvk.vk@.gamma_g2) % E::modulus()
}

/// The exponent depends on the elements modulo the order of the groups only.
proof fn lemma_exponent_cong<E: Groups>(
    vk: VerifyingKeyModel,
    gamma_neg: int,
    other_gamma_neg: int,
    proof: ProofModel,
    input: int,
    other_input: int,
)
    requires
        cong(gamma_neg, other_gamma_neg, E::modulus()),
        cong(input, other_input, E::modulus()),
    ensures
        exponent::<E>(vk, gamma_neg, proof, input) == exponent::<E>(
            vk,
            other_gamma_neg,
            proof,
            other_input,
        ),
{
    let r = E::modulus();
    E::modulus_bound();
    let (ab, cd) = (proof.a * proof.b, proof.c * -delta_term::<E>(vk, proof));
    lemma_cong_mul(input, other_input, gamma_neg, other_gamma_neg, r);
    lemma_cong_add(ab, ab, input * gamma_neg, other_input * other_gamma_neg, r);
    lemma_cong_add(
        ab + input * gamma_neg,
        ab + other_input * other_gamma_neg,
        cd,
        cd,
        r,
    );
}

// ---------------------------------------------------------------------------
// Laws
// ---------------------------------------------------------------------------

/// Sums that differ in one term differ by the difference of that term.
pub proof fn lemma_dot_changed(xs: Seq<int>, other: Seq<int>, ys: Seq<int>, i: int)
    requires
        xs.len() == ys.len(),
        other.len() == ys.len(),
        0 <= i < ys.len(),
        forall|j: int| 0 <= j < ys.len() && j != i ==> #[trigger] xs[j] == other[j],
    ensures
        dot(xs, ys) - dot(other, ys) == (xs[i] - other[i]) * ys[i],
{
    let n = ys.len() as int;
    let f = |j: int| xs[j] * ys[j];
    let g = |j: int| other[j] * ys[j];
    let d = |j: int| (xs[j] - other[j]) * ys[j];
    assert forall|j: int| 0 <= j < n implies #[trigger] f(j) == g(j) + d(j) by {
        let (x, o, y) = (xs[j], other[j], ys[j]);
        assert(x * y == o * y + (x - o) * y) by (nonlinear_arith);
    }
    lemma_sum_eq(n, f, |j: int| g(j) + d(j));
    lemma_sum_add(n, g, d);
    assert forall|j: int| 0 <= j < n && j != i implies #[trigger] d(j) == 0 by {
        lemma_mul_basics(ys[j]);
    }
    lemma_sum_single(n, i, d);
}

/// A valid proof is bound to its inputs: where one input is changed for another
/// scalar, the verdict on the same proof is a refusal. The key must tell the
/// inputs apart: neither `gamma` nor the element for that input is the identity.
pub proof fn lemma_other_input_is_refused<E: Groups>(
    pvk: PreparedVerifyingKey<E>,
    proof: Proof<E>,
    inputs: Seq<Scalar<E>>,
    other_inputs: Seq<Scalar<E>>,
    i: int,
    verdict: bool,
)
    requires
        is_generator(E::generator(), E::modulus()),
        is_prepared(pvk),
        fits_inputs(pvk.vk@, views(inputs)),
        other_inputs.len() == inputs.len(),
        0 <= i < inputs.len(),
        forall|j: int|
            0 <= j < inputs.len() && j != i ==> (#[trigger] inputs[j])@ == other_inputs[j]@,
        inputs[i]@ != other_inputs[i]@,
        pvk.vk@.gamma_g2 != 0,
        pvk.vk@.gamma_abc_g1[i + 1] != 0,
        is_verdict::<E>(
            pvk.vk@,
            pvk.gamma_g2_neg_pc@,
            proof@,
            prepared(pvk.vk@, views(inputs)),
            true,
        ),
        is_verdict::<E>(
            pvk.vk@,
            pvk.gamma_g2_neg_pc@,
            proof@,
            prepared(pvk.vk@, views(other_inputs)),
            verdict,
        ),
    ensures
        !verdict,
{
    if verdict {
        let r = E::modulus();
        let vk = pvk.vk@;
        let neg = pvk.gamma_g2_neg_pc@;
        let (xs, os) = (views(inputs), views(other_inputs));
        let rest = vk.gamma_abc_g1.drop_first();
        let (x, o) = (prepared(vk, xs), prepared(vk, os));
        E::modulus_bound();
        pvk.vk.gamma_g2.view_bound();
        pvk.vk.gamma_abc_g1@[i + 1].view_bound();
        inputs[i].view_bound();
        other_inputs[i].view_bound();
        assert forall|j: int| 0 <= j < rest.len() && j != i implies #[trigger] xs[j] == os[j] by {
            assert(inputs[j]@ == other_inputs[j]@);
        }
        lemma_dot_changed(xs, os, rest, i);
        let (dx, y) = (xs[i] - os[i], rest[i]);
        assert(x - o == dx * y);
        // The exponents are equal, so that the difference vanishes.
        let (e, f) = (exponent::<E>(vk, neg, proof@, x), exponent::<E>(vk, neg, proof@, o));
        lemma_mod_bound_of_exponent::<E>(vk, neg, proof@, x);
        lemma_mod_bound_of_exponent::<E>(vk, neg, proof@, o);
        assert(vk.alpha_g1_beta_g2 == E::gt_encoding(f));
        assert(e == f);
        let common = proof@.a * proof@.b + proof@.c * -delta_term::<E>(vk, proof@);
        assert(cong(common + x * neg, common + o * neg, r));
        lemma_cong_sub(common + x * neg, common + o * neg, common, common, r);
        lemma_mod_equivalence(x * neg, o * neg, r);
        assert(x * neg - o * neg == (x - o) * neg) by (nonlinear_arith);
        // One of the factors of the difference vanishes, but none does.
        lemma_generator_no_zero_divisors(E::generator(), r);
        assert(((dx * y) * neg) % r == 0);
        lemma_not_multiple(dx, r);
        lemma_not_multiple(y, r);
        lemma_not_multiple(-vk.gamma_g2, r);
        lemma_cong_mod(-vk.gamma_g2, r);
        assert((dx * y) % r == 0);
    }
}

/// For given elements `a`, `b` and `delta_prime` and given inputs, at most one `c`
/// makes a valid proof, where the element that `c` is paired with is not the
/// identity.
pub proof fn lemma_at_most_one_c<E: Groups>(
    pvk: PreparedVerifyingKey<E>,
    proof: Proof<E>,
    other: Proof<E>,
    prepared_inputs: G1<E>,
)
    requires
        is_generator(E::generator(), E::modulus()),
        proof@.a == other@.a,
        proof@.b == other@.b,
        proof@.delta_prime == other@.delta_prime,
        delta_term::<E>(pvk.vk@, proof@) % E::modulus() != 0,
        is_verdict::<E>(pvk.vk@, pvk.gamma_g2_neg_pc@, proof@, prepared_inputs@, true),
        is_verdict::<E>(pvk.vk@, pvk.gamma_g2_neg_pc@, other@, prepared_inputs@, true),
    ensures
        proof@.c == other@.c,
{
    let r = E::modulus();
    let vk = pvk.vk@;
    let (neg, x) = (pvk.gamma_g2_neg_pc@, prepared_inputs@);
    let dt = delta_term::<E>(vk, proof@);
    let (c, d) = (proof@.c, other@.c);
    E::modulus_bound();
    proof.c.view_bound();
    other.c.view_bound();
    let (e, f) = (exponent::<E>(vk, neg, proof@, x), exponent::<E>(vk, neg, other@, x));
    lemma_mod_bound_of_exponent::<E>(vk, neg, proof@, x);
    lemma_mod_bound_of_exponent::<E>(vk, neg, other@, x);
    assert(vk.alpha_g1_beta_g2 == E::gt_encoding(f));
    assert(e == f);
    let common = proof@.a * proof@.b + x * neg;
    lemma_cong_sub(common, common, common + c * -dt, common + d * -dt, r);
    assert(-(c * -dt) == c * dt && -(d * -dt) == d * dt) by (nonlinear_arith);
    lemma_mod_equivalence(c * dt, d * dt, r);
    assert(c * dt - d * dt == (c - d) * dt) by (nonlinear_arith);
    lemma_generator_no_zero_divisors(E::generator(), r);
    assert(((c - d) * dt) % r == 0);
    if c != d {
        lemma_not_multiple(c - d, r);
    }
}

proof fn lemma_mod_bound_of_exponent<E: Groups>(
    vk: VerifyingKeyModel,
    gamma_neg: int,
    proof: ProofModel,
    input: int,
)
    ensures
        0 <= exponent::<E>(vk, gamma_neg, proof, input) < E::modulus(),
{
    E::modulus_bound();
    lemma_mod_bound(
        proof.a * proof.b + input * gamma_neg + proof.c * -delta_term::<E>(vk, proof),
        E::modulus(),
    );
}

/// What lies less than `r` from zero, but is not zero, is no multiple of `r`.
proof fn lemma_not_multiple(x: int, r: int)
    requires
        r > 0,
        -r < x < r,
        x != 0,
    ensures
        x % r != 0,
{
    if x > 0 {
        lemma_small_mod(x as nat, r as nat);
    } else {
        lemma_mod_add_multiples_vanish(x, r);
        lemma_small_mod((x + r) as nat, r as nat);
    }
}

// ---------------------------------------------------------------------------
// Single proofs
// ---------------------------------------------------------------------------

/// Prepares the verifying key for the verification of proofs.
pub fn prepare_verifying_key<E: Pairing>(vk: &VerifyingKey<E>) -> (pvk: PreparedVerifyingKey<E>)
    ensures
        pvk.vk@ == vk@,
        is_prepared(pvk),
{
    PreparedVerifyingKey { vk: vk.clone(), gamma_g2_neg_pc: E::g2_neg(&vk.gamma_g2) }
}

/// Prepares the inputs of a proof for [`verify_proof_with_prepared_inputs`].
pub fn prepare_inputs<E: Pairing>(
    pvk: &PreparedVerifyingKey<E>,
    public_inputs: &[Scalar<E>],
) -> (res: Result<G1<E>, SynthesisError>)
    ensures
        res is Ok <==> public_inputs@.len() + 1 == pvk.vk.gamma_abc_g1@.len(),
        match res {
            Ok(g_ic) => fits_inputs(pvk.vk@, views(public_inputs@)) && g_ic@ == prepared(
                pvk.vk@,
                views(public_inputs@),
            ) % E::modulus(),
            Err(e) => !fits_inputs(pvk.vk@, views(public_inputs@)) && e
                == SynthesisError::Unsatisfiable,
        },
{
    let bases = &pvk.vk.gamma_abc_g1;
    if bases.len() == 0 || public_inputs.len() != bases.len() - 1 {
        return Err(SynthesisError::Unsatisfiable);
    }
    let ghost r = E::modulus();
    let ghost inputs = views(public_inputs@);
    let ghost rest = pvk.vk@.gamma_abc_g1.drop_first();
    let ghost term = |i: int| inputs[i] * rest[i];
    let mut g_ic = bases[0].clone();
    let mut i: usize = 0;
    while i < public_inputs.len()
        invariant
            i <= public_inputs@.len(),
            bases@.len() == public_inputs@.len() + 1,
            r == E::modulus(),
            inputs == views(public_inputs@),
            rest == views(bases@).drop_first(),
            term == (|i: int| inputs[i] * rest[i]),
            cong(g_ic@, bases@[0]@ + sum(i as int, term), r),
        decreases public_inputs@.len() - i,
    {
        let multiple = E::g1_mul(&bases[i + 1], &public_inputs[i]);
        let ghost before = g_ic@;
        g_ic = E::g1_add(&g_ic, &multiple);
        proof {
            E::modulus_bound();
            let (b, x) = (bases@[i + 1]@, public_inputs@[i as int]@);
            assert(rest[i as int] == b);
            assert(b * x == x * b) by (nonlinear_arith);
            lemma_cong_mod(b * x, r);
            lemma_cong_add(
                before,
                bases@[0]@ + sum(i as int, term),
                multiple@,
                term(i as int),
                r,
            );
            lemma_cong_mod(before + multiple@, r);
        }
        i = i + 1;
    }
    proof {
        E::modulus_bound();
        g_ic.view_bound();
        lemma_small_mod(g_ic@ as nat, r as nat);
    }
    Ok(g_ic)
}

/// The check of one proof, where `delta_term` is `delta_prime` plus the multiple
/// of `delta` by the challenge.
fn check_pairings<E: Pairing>(
    pvk: &PreparedVerifyingKey<E>,
    proof: &Proof<E>,
    prepared_inputs: &G1<E>,
    delta_term_g2: &G2<E>,
) -> (b: bool)
    requires
        cong(delta_term_g2@, delta_term::<E>(pvk.vk@, proof@), E::modulus()),
    ensures
        is_verdict::<E>(pvk.vk@, pvk.gamma_g2_neg_pc@, proof@, prepared_inputs@, b),
{
    let delta_neg = E::g2_neg(delta_term_g2);
    let mut firsts: Vec<G1<E>> = Vec::new();
    firsts.push(proof.a.clone());
    firsts.push(prepared_inputs.clone());
    firsts.push(proof.c.clone());
    let mut seconds: Vec<G2<E>> = Vec::new();
    seconds.push(proof.b.clone());
    seconds.push(pvk.gamma_g2_neg_pc.clone());
    seconds.push(delta_neg);
    let test = E::multi_pairing(firsts.as_slice(), seconds.as_slice());
    proof {
        let r = E::modulus();
        E::modulus_bound();
        let (xs, ys) = (views(firsts@), views(seconds@));
        reveal_with_fuel(sum, 4);
        let d = delta_term::<E>(pvk.vk@, proof@);
        let n = seconds@[2]@;
        assert(dot(xs, ys) == xs[0] * ys[0] + xs[1] * ys[1] + xs[2] * ys[2]);
        lemma_cong_sub(0, 0, delta_term_g2@, d, r);
        lemma_cong_mod(-delta_term_g2@, r);
        assert(cong(n, -d, r));
        lemma_cong_mul(proof.c@, proof.c@, n, -d, r);
        let front = proof.a@ * proof.b@ + prepared_inputs@ * pvk.gamma_g2_neg_pc@;
        lemma_cong_add(front, front, proof.c@ * n, proof.c@ * -d, r);
    }
    test.equals(&pvk.vk.alpha_g1_beta_g2)
}

/// Verifies a proof against the prepared verifying key and prepared inputs.
pub fn verify_proof_with_prepared_inputs<E: Pairing>(
    pvk: &PreparedVerifyingKey<E>,
    proof: &Proof<E>,
    prepared_inputs: &G1<E>,
) -> (res: Result<bool, SynthesisError>)
    ensures
        res matches Ok(b) && is_verdict::<E>(
            pvk.vk@,
            pvk.gamma_g2_neg_pc@,
            proof@,
            prepared_inputs@,
            b,
        ),
{
    let m = fiat_shamir_challenge(&proof.a, &proof.b, &proof.delta_prime);
    let delta_m = E::g2_mul(&pvk.vk.delta_g2, &m);
    let delta_prime_delta_m = E::g2_add(&delta_m, &proof.delta_prime);
    proof {
        E::modulus_bound();
        lemma_delta_term::<E>(pvk.vk@, proof@, delta_m@, delta_prime_delta_m@);
    }
    Ok(check_pairings(pvk, proof, prepared_inputs, &delta_prime_delta_m))
}

proof fn lemma_delta_term<E: Groups>(
    vk: VerifyingKeyModel,
    proof: ProofModel,
    delta_m: int,
    delta_prime_delta_m: int,
)
    requires
        delta_m == (vk.delta_g2 * challenge::<E>(proof.a, proof.b, proof.delta_prime))
            % E::modulus(),
        delta_prime_delta_m == (delta_m + proof.delta_prime) % E::modulus(),
    ensures
        cong(delta_prime_delta_m, delta_term::<E>(vk, proof), E::modulus()),
{
    let r = E::modulus();
    E::modulus_bound();
    let product = vk.delta_g2 * challenge::<E>(proof.a, proof.b, proof.delta_prime);
    lemma_cong_mod(product, r);
    lemma_cong_add(delta_m, product, proof.delta_prime, proof.delta_prime, r);
    lemma_cong_mod(delta_m + proof.delta_prime, r);
}

/// Verifies a proof against the prepared verifying key and the public inputs.
pub fn verify_proof<E: Pairing>(
    pvk: &PreparedVerifyingKey<E>,
    proof: &Proof<E>,
    public_inputs: &[Scalar<E>],
) -> (res: Result<bool, SynthesisError>)
    ensures
        res is Ok <==> public_inputs@.len() + 1 == pvk.vk.gamma_abc_g1@.len(),
        match res {
            Ok(b) => {
                &&& fits_inputs(pvk.vk@, views(public_inputs@))
                &&& is_verdict::<E>(
                    pvk.vk@,
                    pvk.gamma_g2_neg_pc@,
                    proof@,
                    prepared(pvk.vk@, views(public_inputs@)),
                    b,
                )
                &&& is_prepared(*pvk) ==> b == accepts::<E>(
                    pvk.vk@,
                    proof@,
                    views(public_inputs@),
                )
            },
            Err(e) => !fits_inputs(pvk.vk@, views(public_inputs@)) && e
                == SynthesisError::Unsatisfiable,
        },
{
    let prepared_inputs = match prepare_inputs(pvk, public_inputs) {
        Ok(prepared_inputs) => prepared_inputs,
        Err(e) => {
            return Err(e);
        },
    };
    proof {
        E::modulus_bound();
        let (x, g) = (prepared(pvk.vk@, views(public_inputs@)), pvk.gamma_g2_neg_pc@);
        lemma_cong_mod(x, E::modulus());
        lemma_exponent_cong::<E>(pvk.vk@, g, g, proof@, prepared_inputs@, x);
        if is_prepared(*pvk) {
            lemma_cong_mod(-pvk.vk@.gamma_g2, E::modulus());
            lemma_exponent_cong::<E>(pvk.vk@, g, -pvk.vk@.gamma_g2, proof@, x, x);
        }
    }
    verify_proof_with_prepared_inputs(pvk, proof, &prepared_inputs)
}

// ---------------------------------------------------------------------------
// Vectors of proofs
// ---------------------------------------------------------------------------

/// The multiples of `delta` by the challenges of the proofs.
pub fn challenge_multiples<E: Pairing>(pvk: &PreparedVerifyingKey<E>, proofs: &Vec<Proof<E>>) -> (
    elems: Vec<G2<E>>)
    ensures
        elems@.len() == proofs@.len(),
        forall|i: int|
            0 <= i < elems@.len() ==> (#[trigger] elems@[i])@ == (pvk.vk@.delta_g2 * challenge::<E>(
                proofs@[i]@.a,
                proofs@[i]@.b,
                proofs@[i]@.delta_prime,
            )) % E::modulus(),
{
    let mut m: Vec<Scalar<E>> = Vec::new();
    let mut i: usize = 0;
    while i < proofs.len()
        invariant
            i <= proofs@.len(),
            m@.len() == i,
            forall|j: int|
                0 <= j < i ==> (#[trigger] m@[j])@ == challenge::<E>(
                    proofs@[j]@.a,
                    proofs@[j]@.b,
                    proofs@[j]@.delta_prime,
                ),
        decreases proofs@.len() - i,
    {
        let proof = &proofs[i];
        m.push(fiat_shamir_challenge(&proof.a, &proof.b, &proof.delta_prime));
        i = i + 1;
    }
    E::g2_batch_mul(&pvk.vk.delta_g2, m.as_slice())
}

/// Whether the check of all proofs holds that have a multiple of `delta` and
/// prepared inputs beside them, where the multiples are those by the challenges.
pub fn check_with_multiples<E: Pairing>(
    pvk: &PreparedVerifyingKey<E>,
    proofs: &Vec<Proof<E>>,
    prepared_inputs: &Vec<G1<E>>,
    multiples: &Vec<G2<E>>,
) -> (result: bool)
    requires
        multiples@.len() == proofs@.len(),
        forall|i: int|
            0 <= i < proofs@.len() ==> (#[trigger] multiples@[i])@ == (pvk.vk@.delta_g2
                * challenge::<E>(proofs@[i]@.a, proofs@[i]@.b, proofs@[i]@.delta_prime))
                % E::modulus(),
    ensures
        result == forall|i: int|
            0 <= i < proofs@.len() && i < prepared_inputs@.len() ==> pairing_check::<E>(
                pvk.vk@,
                pvk.gamma_g2_neg_pc@,
                #[trigger] proofs@[i]@,
                prepared_inputs@[i]@,
            ),
        forall|i: int|
            0 <= i < proofs@.len() && i < prepared_inputs@.len() ==> is_check_of_exponents::<E>(
                pvk.vk@,
                pvk.gamma_g2_neg_pc@,
                #[trigger] proofs@[i]@,
                prepared_inputs@[i]@,
            ),
{
    let mut result = true;
    let mut i: usize = 0;
    while i < proofs.len() && i < prepared_inputs.len()
        invariant
            i <= proofs@.len(),
            i <= prepared_inputs@.len(),
            multiples@.len() == proofs@.len(),
            forall|i: int|
                0 <= i < proofs@.len() ==> (#[trigger] multiples@[i])@ == (pvk.vk@.delta_g2
                    * challenge::<E>(proofs@[i]@.a, proofs@[i]@.b, proofs@[i]@.delta_prime))
                    % E::modulus(),
            result == forall|j: int|
                0 <= j < i ==> pairing_check::<E>(
                    pvk.vk@,
                    pvk.gamma_g2_neg_pc@,
                    #[trigger] proofs@[j]@,
                    prepared_inputs@[j]@,
                ),
            forall|j: int|
                0 <= j < i ==> is_check_of_exponents::<E>(
                    pvk.vk@,
                    pvk.gamma_g2_neg_pc@,
                    #[trigger] proofs@[j]@,
                    prepared_inputs@[j]@,
                ),
        decreases proofs@.len() - i,
    {
        let proof = &proofs[i];
        let delta_term_g2 = E::g2_add(&multiples[i], &proof.delta_prime);
        proof {
            lemma_delta_term::<E>(pvk.vk@, proof@, multiples@[i as int]@, delta_term_g2@);
        }
        let next = check_pairings(pvk, proof, &prepared_inputs[i], &delta_term_g2);
        assert(proof@ == proofs@[i as int]@);
        result = result && next;
        i = i + 1;
    }
    result
}

/// Verifies the proofs against the prepared inputs beside them. Where there are
/// more of one than of the other, those left over are not looked at.
pub fn vec_verify_proof_with_prepared_inputs<E: Pairing>(
    pvk: &PreparedVerifyingKey<E>,
    proofs: &Vec<Proof<E>>,
    prepared_inputs: &Vec<G1<E>>,
) -> (res: Result<bool, SynthesisError>)
    requires
        proofs@.len() > 0,
    ensures
        res matches Ok(b) && b == forall|i: int|
            0 <= i < proofs@.len() && i < prepared_inputs@.len() ==> pairing_check::<E>(
                pvk.vk@,
                pvk.gamma_g2_neg_pc@,
                #[trigger] proofs@[i]@,
                prepared_inputs@[i]@,
            ),
        forall|i: int|
            0 <= i < proofs@.len() && i < prepared_inputs@.len() ==> is_check_of_exponents::<E>(
                pvk.vk@,
                pvk.gamma_g2_neg_pc@,
                #[trigger] proofs@[i]@,
                prepared_inputs@[i]@,
            ),
{
    let multiples = challenge_multiples(pvk, proofs);
    Ok(check_with_multiples(pvk, proofs, prepared_inputs, &multiples))
}

/// All the vectors of inputs fit the key.
pub open spec fn all_fit<E: Groups>(
    vk: VerifyingKeyModel,
    public_inputs: Seq<Vec<Scalar<E>>>,
) -> bool {
    forall|i: int|
        0 <= i < public_inputs.len() ==> fits_inputs(vk, views(#[trigger] public_inputs[i]@))
}

/// Prepares the inputs of proofs for [`vec_verify_proof_with_prepared_inputs`].
pub fn vec_prepare_inputs<E: Pairing>(
    pvk: &PreparedVerifyingKey<E>,
    public_inputs: &Vec<Vec<Scalar<E>>>,
) -> (res: Result<Vec<G1<E>>, SynthesisError>)
    ensures
        res is Ok <==> forall|i: int|
            0 <= i < public_inputs@.len() ==> (#[trigger] public_inputs@[i])@.len() + 1
                == pvk.vk.gamma_abc_g1@.len(),
        match res {
            Ok(elems) => {
                &&& all_fit(pvk.vk@, public_inputs@)
                &&& elems@.len() == public_inputs@.len()
                &&& forall|i: int|
                    0 <= i < elems@.len() ==> (#[trigger] elems@[i])@ == prepared(
                        pvk.vk@,
                        views(public_inputs@[i]@),
                    ) % E::modulus()
            },
            Err(e) => !all_fit(pvk.vk@, public_inputs@) && e == SynthesisError::Unsatisfiable,
        },
{
    let mut prepared_inputs: Vec<G1<E>> = Vec::new();
    let mut i: usize = 0;
    while i < public_inputs.len()
        invariant
            i <= public_inputs@.len(),
            prepared_inputs@.len() == i,
            forall|j: int|
                0 <= j < i ==> fits_inputs(pvk.vk@, views(#[trigger] public_inputs@[j]@)),
            forall|j: int|
                0 <= j < i ==> (#[trigger] prepared_inputs@[j])@ == prepared(
                    pvk.vk@,
                    views(public_inputs@[j]@),
                ) % E::modulus(),
        decreases public_inputs@.len() - i,
    {
        match prepare_inputs(pvk, public_inputs[i].as_slice()) {
            Ok(g_ic) => {
                prepared_inputs.push(g_ic);
            },
            Err(e) => {
                assert(!fits_inputs(pvk.vk@, views(public_inputs@[i as int]@)));
                return Err(e);
            },
        }
        i = i + 1;
    }
    Ok(prepared_inputs)
}

/// Verifies the proofs against the public inputs beside them. Where there are
/// more of one than of the other, those left over are not looked at, but all
/// inputs must fit the key.
pub fn vec_verify_proof<E: Pairing>(
    vk: &VerifyingKey<E>,
    proofs: &Vec<Proof<E>>,
    public_inputs: &Vec<Vec<Scalar<E>>>,
) -> (res: Result<bool, SynthesisError>)
    requires
        proofs@.len() > 0 || !all_fit(vk@, public_inputs@),
    ensures
        res is Ok <==> forall|i: int|
            0 <= i < public_inputs@.len() ==> (#[trigger] public_inputs@[i])@.len() + 1
                == vk.gamma_abc_g1@.len(),
        match res {
            Ok(b) => {
                &&& all_fit(vk@, public_inputs@)
                &&& b == forall|i: int|
                    0 <= i < proofs@.len() && i < public_inputs@.len() ==> accepts::<E>(
                        vk@,
                        #[trigger] proofs@[i]@,
                        views(public_inputs@[i]@),
                    )
                &&& forall|i: int|
                    0 <= i < proofs@.len() && i < public_inputs@.len()
                        ==> is_check_of_exponents::<E>(
                        vk@,
                        -vk@.gamma_g2,
                        #[trigger] proofs@[i]@,
                        prepared(vk@, views(public_inputs@[i]@)),
                    )
            },
            Err(e) => !all_fit(vk@, public_inputs@) && e == SynthesisError::Unsatisfiable,
        },
{
    let pvk = prepare_verifying_key(vk);
    let prepared_inputs = match vec_prepare_inputs(&pvk, public_inputs) {
        Ok(prepared_inputs) => prepared_inputs,
        Err(e) => {
            return Err(e);
        },
    };
    proof {
        E::modulus_bound();
        lemma_cong_mod(-vk@.gamma_g2, E::modulus());
        assert forall|i: int|
            0 <= i < proofs@.len() && i < public_inputs@.len() implies pairing_check::<E>(
            vk@,
            pvk.gamma_g2_neg_pc@,
            #[trigger] proofs@[i]@,
            prepared_inputs@[i]@,
        ) == accepts::<E>(vk@, proofs@[i]@, views(public_inputs@[i]@)) by {
            let x = prepared(vk@, views(public_inputs@[i]@));
            lemma_cong_mod(x, E::modulus());
            lemma_exponent_cong::<E>(
                vk@,
                pvk.gamma_g2_neg_pc@,
                -vk@.gamma_g2,
                proofs@[i]@,
                prepared_inputs@[i]@,
                x,
            );
        }
    }
    vec_verify_proof_with_prepared_inputs(&pvk, proofs, &prepared_inputs)
}

} // verus!
