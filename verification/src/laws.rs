//! What the operations are for: laws that relate their results to their inputs, or
//! two of their results to each other.
//!
//! Each law speaks of the plain numbers behind keys, proofs and inputs. It takes
//! what an operation ensures, and concludes an equation or a relation in these
//! numbers.
use crate::algebra::{cong, dot, le_value, lemma_cong_mod, lemma_sum_eq, lemma_sum_zero, sum, views};
use crate::challenge::{blake2b512, challenge};
use crate::data_structures::{PreparedVerifyingKey, Proof, ProvingKey, VerifyingKey};
use crate::groups::{limbs_value, Groups, Scalar};
use crate::polynomial::{eval, lemma_eval_is_sum};
use crate::r1cs::{row_coeff, row_eval, row_view, rows_view, ConstraintSystem, R1cs, Row};
use crate::verify::{
    accepts, all_fit, delta_term, exponent, fits_inputs, is_prepared, is_verdict,
    lemma_dot_changed, pairing_check, prepared,
};
use vstd::arithmetic::div_mod::{lemma_mod_bound, lemma_mod_equivalence, lemma_small_mod};
use vstd::arithmetic::mul::{lemma_mul_basics, lemma_mul_unary_negation};
use vstd::arithmetic::power::{lemma_pow0, lemma_pow_adds, lemma_pow1, pow};
use vstd::prelude::*;

verus! {

// ---------------------------------------------------------------------------
// Sums, numbers and polynomials
// ---------------------------------------------------------------------------

/// Numbers are congruent where their difference is a multiple of the modulus.
pub proof fn law_congruence(a: int, b: int, r: int)
    requires
        r > 0,
    ensures
        cong(a, b, r) <==> (a - b) % r == 0,
{
    lemma_mod_equivalence(a, b, r);
}

/// A sum grows by its next term, and the empty sum is zero.
pub proof fn law_sum(n: int, f: spec_fn(int) -> int)
    requires
        n >= 0,
    ensures
        sum(0, f) == 0,
        sum(n + 1, f) - sum(n, f) == f(n),
{
}

/// An inner product grows by the product of the two elements that are appended.
pub proof fn law_inner_product_grows(xs: Seq<int>, ys: Seq<int>, x: int, y: int)
    requires
        xs.len() == ys.len(),
    ensures
        dot(Seq::<int>::empty(), ys) == 0,
        dot(xs.push(x), ys.push(y)) - dot(xs, ys) == x * y,
{
    let n = xs.len() as int;
    let (xl, yl) = (xs.push(x), ys.push(y));
    let f = |i: int| xs[i] * ys[i];
    let g = |i: int| xl[i] * yl[i];
    lemma_sum_eq(n, f, g);
    assert(sum(n + 1, g) == sum(n, g) + g(n));
}

/// What is longer in one of the two sequences does not count in their inner product.
pub proof fn law_inner_product_stops(xs: Seq<int>, ys: Seq<int>, more: Seq<int>)
    requires
        xs.len() == ys.len(),
    ensures
        dot(xs, ys + more) == dot(xs, ys),
        dot(xs + more, ys) == dot(xs, ys),
{
    let n = xs.len() as int;
    let f = |i: int| xs[i] * ys[i];
    let (xl, yl) = (xs + more, ys + more);
    lemma_sum_eq(n, f, |i: int| xs[i] * yl[i]);
    lemma_sum_eq(n, f, |i: int| xl[i] * ys[i]);
}

/// The views of elements are as many, and each is that of the element in its place.
pub proof fn law_views<T: View<V = int>>(s: Seq<T>, i: int)
    ensures
        views(s).len() == s.len(),
        0 <= i < s.len() ==> views(s)[i] == s[i]@,
{
}

/// A byte that is appended counts with the next power of 256.
pub proof fn law_bytes_spell_numbers(s: Seq<u8>, b: u8)
    ensures
        le_value(Seq::<u8>::empty()) == 0,
        le_value(s.push(b)) - le_value(s) == b * pow(256, s.len()),
    decreases s.len(),
{
    let p = pow(256, s.len());
    let longer = s.push(b);
    if s.len() == 0 {
        assert(longer.drop_first() =~= Seq::<u8>::empty());
        lemma_pow0(256);
        assert(le_value(longer) == b + 256 * le_value(longer.drop_first()));
    } else {
        let rest = s.drop_first();
        law_bytes_spell_numbers(rest, b);
        assert(longer.drop_first() =~= rest.push(b));
        lemma_pow1(256);
        lemma_pow_adds(256, 1, rest.len());
        let q = pow(256, rest.len());
        let k = b as int;
        assert(p == 256 * q);
        assert(longer[0] == s[0]);
        assert(256 * (k * q) == k * (256 * q)) by (nonlinear_arith);
    }
}

/// Each limb counts 2^64 times as much as the one before it.
pub proof fn law_limbs_spell_numbers(limbs: Seq<u64>)
    requires
        limbs.len() == 4,
    ensures
        limbs_value(limbs) == limbs[0] + 0x1_0000_0000_0000_0000 * (limbs[1]
            + 0x1_0000_0000_0000_0000 * (limbs[2] + 0x1_0000_0000_0000_0000 * limbs[3])),
{
}

/// A coefficient that is appended counts with the next power of the point.
pub proof fn law_polynomial_values(p: Seq<int>, c: int, x: int)
    ensures
        eval(Seq::<int>::empty(), x) == 0,
        eval(p.push(c), x) - eval(p, x) == c * pow(x, p.len()),
{
    let n = p.len() as int;
    let longer = p.push(c);
    lemma_eval_is_sum(p, x);
    lemma_eval_is_sum(longer, x);
    let f = |i: int| p[i] * pow(x, i as nat);
    let g = |i: int| longer[i] * pow(x, i as nat);
    lemma_sum_eq(n, f, g);
    assert(sum(n + 1, g) == sum(n, g) + g(n));
}

// ---------------------------------------------------------------------------
// Constraint systems
// ---------------------------------------------------------------------------

/// A term that is appended to a linear combination adds its coefficient times its
/// variable to the value, and its coefficient to that of its variable alone.
pub proof fn law_terms_add_up(row: Row, c: int, i: int, z: Seq<int>, j: int)
    ensures
        row_eval(Seq::empty(), z) == 0,
        row_eval(row.push((c, i)), z) - row_eval(row, z) == c * z[i],
        row_coeff(Seq::empty(), j) == 0,
        row_coeff(row.push((c, i)), j) - row_coeff(row, j) == (if i == j {
            c
        } else {
            0
        }),
{
    let n = row.len() as int;
    let longer = row.push((c, i));
    let f = |k: int| row[k].0 * z[row[k].1];
    let g = |k: int| longer[k].0 * z[longer[k].1];
    lemma_sum_eq(n, f, g);
    assert(sum(n + 1, g) == sum(n, g) + g(n));
    crate::r1cs_to_qap::lemma_row_coeff_push(row, (c, i), j);
}

/// The model of a list of terms has the number and the variable of each.
pub proof fn law_rows<E: Groups>(rows: Seq<Vec<(Scalar<E>, usize)>>, i: int, k: int)
    requires
        0 <= i < rows.len(),
    ensures
        rows_view(rows).len() == rows.len(),
        rows_view(rows)[i].len() == rows[i]@.len(),
        rows_view(rows)[i] == row_view(rows[i]@),
        0 <= k < rows[i]@.len() ==> rows_view(rows)[i][k].0 == rows[i]@[k].0@ && rows_view(
            rows,
        )[i][k].1 == rows[i]@[k].1,
{
}

/// A system counts its rows and its variables. It is well-formed where its three
/// lists of rows are equally long, the instance is not empty and all variables that
/// occur exist.
pub proof fn law_system(cs: R1cs)
    ensures
        cs.num_constraints() == cs.a.len(),
        cs.num_variables() == cs.num_instance + cs.num_witness,
        cs.num_points() == cs.a.len() + cs.num_instance,
        cs.wf() <==> {
            &&& cs.a.len() == cs.b.len() == cs.c.len()
            &&& 0 < cs.num_instance
            &&& 0 <= cs.num_witness
            &&& forall|i: int, k: int|
                0 <= i < cs.a.len() && 0 <= k < cs.a[i].len() ==> 0 <= (#[trigger] cs.a[i][k]).1
                    < cs.num_instance + cs.num_witness
            &&& forall|i: int, k: int|
                0 <= i < cs.b.len() && 0 <= k < cs.b[i].len() ==> 0 <= (#[trigger] cs.b[i][k]).1
                    < cs.num_instance + cs.num_witness
            &&& forall|i: int, k: int|
                0 <= i < cs.c.len() && 0 <= k < cs.c[i].len() ==> 0 <= (#[trigger] cs.c[i][k]).1
                    < cs.num_instance + cs.num_witness
        },
        cs.fits() <==> cs.wf() && cs.num_instance + cs.num_witness <= usize::MAX && 4 * (
        cs.a.len() + cs.num_instance) <= usize::MAX,
{
}

/// A system is satisfied where each of its constraints is: the product of the values
/// of its first two rows is that of the third, up to a multiple of the modulus.
pub proof fn law_satisfied(cs: R1cs, z: Seq<int>, r: int)
    requires
        r > 0,
    ensures
        cs.is_satisfied(z, r) <==> forall|i: int|
            0 <= i < cs.a.len() ==> (row_eval(#[trigger] cs.a[i], z) * row_eval(cs.b[i], z)
                - row_eval(cs.c[i], z)) % r == 0,
{
    assert forall|i: int| 0 <= i < cs.a.len() implies (cong(
        row_eval(#[trigger] cs.a[i], z) * row_eval(cs.b[i], z),
        row_eval(cs.c[i], z),
        r,
    ) <==> (row_eval(cs.a[i], z) * row_eval(cs.b[i], z) - row_eval(cs.c[i], z)) % r == 0) by {
        lemma_mod_equivalence(
            row_eval(cs.a[i], z) * row_eval(cs.b[i], z),
            row_eval(cs.c[i], z),
            r,
        );
    }
}

/// The variables of a system are those of its instance, then those of its witness.
pub proof fn law_assignment<E: Groups>(system: ConstraintSystem<E>, j: int)
    ensures
        system.assignment().len() == system.instance().len() + system.witness().len(),
        0 <= j < system.instance().len() ==> system.assignment()[j] == system.instance()[j],
        0 <= j < system.witness().len() ==> system.assignment()[system.instance().len() + j]
            == system.witness()[j],
        system.is_satisfied() <==> system.spec_matrices().is_satisfied(
            system.assignment(),
            E::modulus(),
        ),
{
}

// ---------------------------------------------------------------------------
// Keys and proofs
// ---------------------------------------------------------------------------

/// The models of keys and proofs hold the number behind each element.
pub proof fn law_models<E: Groups>(pk: ProvingKey<E>, vk: VerifyingKey<E>, proof: Proof<E>)
    ensures
        proof@.a == proof.a@,
        proof@.b == proof.b@,
        proof@.c == proof.c@,
        proof@.delta_prime == proof.delta_prime@,
        vk@.alpha_g1 == vk.alpha_g1@,
        vk@.beta_g2 == vk.beta_g2@,
        vk@.gamma_g2 == vk.gamma_g2@,
        vk@.delta_g2 == vk.delta_g2@,
        vk@.alpha_g1_beta_g2 == vk.alpha_g1_beta_g2@,
        vk@.gamma_abc_g1.len() == vk.gamma_abc_g1@.len(),
        forall|j: int|
            0 <= j < vk.gamma_abc_g1@.len() ==> #[trigger] vk@.gamma_abc_g1[j]
                == vk.gamma_abc_g1@[j]@,
        pk@.vk == pk.vk@,
        pk@.beta_g1 == pk.beta_g1@,
        pk@.delta_g1 == pk.delta_g1@,
        pk@.a_query.len() == pk.a_query@.len(),
        pk@.b_g1_query.len() == pk.b_g1_query@.len(),
        pk@.b_g2_query.len() == pk.b_g2_query@.len(),
        pk@.h_query.len() == pk.h_query@.len(),
        pk@.l_query.len() == pk.l_query@.len(),
        forall|j: int|
            0 <= j < pk.a_query@.len() ==> #[trigger] pk@.a_query[j] == pk.a_query@[j]@,
        forall|j: int|
            0 <= j < pk.b_g1_query@.len() ==> #[trigger] pk@.b_g1_query[j] == pk.b_g1_query@[j]@,
        forall|j: int|
            0 <= j < pk.b_g2_query@.len() ==> #[trigger] pk@.b_g2_query[j] == pk.b_g2_query@[j]@,
        forall|j: int|
            0 <= j < pk.h_query@.len() ==> #[trigger] pk@.h_query[j] == pk.h_query@[j]@,
        forall|j: int|
            0 <= j < pk.l_query@.len() ==> #[trigger] pk@.l_query[j] == pk.l_query@[j]@,
{
}

// ---------------------------------------------------------------------------
// The challenge
// ---------------------------------------------------------------------------

/// The challenge is the number that the hash of one message spells, reduced: the
/// three encodings one after the other, none of them cut or left out.
pub proof fn law_challenge_is_of_all_elements<E: Groups>(
    a: int,
    b: int,
    delta_prime: int,
    message: Seq<u8>,
)
    requires
        message.len() == E::g1_compressed(a).len() + E::g2_compressed(b).len()
            + E::g2_compressed(delta_prime).len(),
        message.take(E::g1_compressed(a).len() as int) == E::g1_compressed(a),
        message.subrange(
            E::g1_compressed(a).len() as int,
            (E::g1_compressed(a).len() + E::g2_compressed(b).len()) as int,
        ) == E::g2_compressed(b),
        message.skip((E::g1_compressed(a).len() + E::g2_compressed(b).len()) as int)
            == E::g2_compressed(delta_prime),
    ensures
        (challenge::<E>(a, b, delta_prime) - le_value(blake2b512(message))) % E::modulus() == 0,
        0 <= challenge::<E>(a, b, delta_prime) < E::modulus(),
{
    let (x, y, z) = (E::g1_compressed(a), E::g2_compressed(b), E::g2_compressed(delta_prime));
    E::modulus_bound();
    assert(message =~= x + y + z) by {
        assert forall|i: int| 0 <= i < message.len() implies message[i] == (x + y + z)[i] by {
            if i < x.len() {
                assert(message.take(x.len() as int)[i] == x[i]);
            } else if i < x.len() + y.len() {
                assert(message.subrange(x.len() as int, (x.len() + y.len()) as int)[i - x.len()]
                    == y[i - x.len()]);
            } else {
                assert(message.skip((x.len() + y.len()) as int)[i - x.len() - y.len()] == z[i
                    - x.len() - y.len()]);
            }
        }
    }
    let v = le_value(blake2b512(message));
    lemma_cong_mod(v, E::modulus());
    lemma_mod_equivalence(challenge::<E>(a, b, delta_prime), v, E::modulus());
    lemma_mod_bound(v, E::modulus());
}

/// The messages of different elements differ, in whichever of the three elements the
/// difference lies, where encodings have a fixed length and differ where elements
/// do.
pub proof fn law_messages_tell_elements_apart<E: Groups>(
    a: int,
    b: int,
    delta_prime: int,
    a2: int,
    b2: int,
    delta_prime2: int,
)
    requires
        E::g1_compressed(a).len() == E::g1_compressed(a2).len(),
        E::g2_compressed(b).len() == E::g2_compressed(b2).len(),
        E::g1_compressed(a) == E::g1_compressed(a2) ==> a == a2,
        E::g2_compressed(b) == E::g2_compressed(b2) ==> b == b2,
        E::g2_compressed(delta_prime) == E::g2_compressed(delta_prime2) ==> delta_prime
            == delta_prime2,
        (a, b, delta_prime) != (a2, b2, delta_prime2),
    ensures
        E::g1_compressed(a) + E::g2_compressed(b) + E::g2_compressed(delta_prime)
            != E::g1_compressed(a2) + E::g2_compressed(b2) + E::g2_compressed(delta_prime2),
{
    let (x, y, z) = (E::g1_compressed(a), E::g2_compressed(b), E::g2_compressed(delta_prime));
    let (x2, y2, z2) = (
        E::g1_compressed(a2),
        E::g2_compressed(b2),
        E::g2_compressed(delta_prime2),
    );
    let (m, m2) = (x + y + z, x2 + y2 + z2);
    if m == m2 {
        let (i, j) = (x.len() as int, (x.len() + y.len()) as int);
        assert(m.take(i) =~= x && m2.take(i) =~= x2);
        assert(m.subrange(i, j) =~= y && m2.subrange(i, j) =~= y2);
        assert(m.skip(j) =~= z && m2.skip(j) =~= z2);
    }
}

// ---------------------------------------------------------------------------
// Verification
// ---------------------------------------------------------------------------

/// A key fits inputs of one number only: one less than it has elements for inputs.
pub proof fn law_one_number_of_inputs<E: Groups>(
    vk: VerifyingKey<E>,
    inputs: Seq<Scalar<E>>,
    other_inputs: Seq<Scalar<E>>,
)
    ensures
        fits_inputs(vk@, views(inputs)) <==> inputs.len() + 1 == vk.gamma_abc_g1@.len(),
        fits_inputs(vk@, views(inputs)) && fits_inputs(vk@, views(other_inputs)) ==> inputs.len()
            == other_inputs.len(),
{
}

/// All the vectors of inputs fit where each has one element less than the key has.
pub proof fn law_all_fit<E: Groups>(vk: VerifyingKey<E>, inputs: Seq<Vec<Scalar<E>>>)
    ensures
        all_fit(vk@, inputs) <==> forall|i: int|
            0 <= i < inputs.len() ==> (#[trigger] inputs[i])@.len() + 1 == vk.gamma_abc_g1@.len(),
{
    if all_fit(vk@, inputs) {
        assert forall|i: int| 0 <= i < inputs.len() implies (#[trigger] inputs[i])@.len() + 1
            == vk.gamma_abc_g1@.len() by {
            assert(fits_inputs(vk@, views(inputs[i]@)));
        }
    }
    if forall|i: int|
        0 <= i < inputs.len() ==> (#[trigger] inputs[i])@.len() + 1 == vk.gamma_abc_g1@.len() {
        assert forall|i: int| 0 <= i < inputs.len() implies fits_inputs(
            vk@,
            views(#[trigger] inputs[i]@),
        ) by {
            assert(inputs[i]@.len() + 1 == vk.gamma_abc_g1@.len());
        }
    }
}

/// The element that stands for inputs starts at the one for the constant one, and
/// changes by the multiple of the element for an input by which that input changes.
pub proof fn law_prepared_inputs<E: Groups>(
    vk: VerifyingKey<E>,
    inputs: Seq<Scalar<E>>,
    other_inputs: Seq<Scalar<E>>,
    i: int,
)
    requires
        inputs.len() + 1 == vk.gamma_abc_g1@.len(),
        other_inputs.len() == inputs.len(),
        0 <= i < inputs.len(),
        forall|j: int|
            0 <= j < inputs.len() && j != i ==> (#[trigger] inputs[j])@ == other_inputs[j]@,
    ensures
        prepared(vk@, views(inputs)) - prepared(vk@, views(other_inputs)) == (inputs[i]@
            - other_inputs[i]@) * vk.gamma_abc_g1@[i + 1]@,
{
    let (xs, os) = (views(inputs), views(other_inputs));
    let rest = vk@.gamma_abc_g1.drop_first();
    assert forall|j: int| 0 <= j < rest.len() && j != i implies #[trigger] xs[j] == os[j] by {
        assert(inputs[j]@ == other_inputs[j]@);
    }
    lemma_dot_changed(xs, os, rest, i);
}

/// Where all inputs are zero, the element that stands for them is that for the
/// constant one.
pub proof fn law_prepared_zeros<E: Groups>(vk: VerifyingKey<E>, inputs: Seq<Scalar<E>>)
    requires
        inputs.len() + 1 == vk.gamma_abc_g1@.len(),
        forall|j: int| 0 <= j < inputs.len() ==> (#[trigger] inputs[j])@ == 0,
    ensures
        prepared(vk@, views(inputs)) == vk.gamma_abc_g1@[0]@,
{
    let rest = vk@.gamma_abc_g1.drop_first();
    let xs = views(inputs);
    let f = |j: int| xs[j] * rest[j];
    assert forall|j: int| 0 <= j < xs.len() implies #[trigger] f(j) == 0 by {
        assert(inputs[j]@ == 0);
        lemma_mul_basics(rest[j]);
    }
    lemma_sum_zero(xs.len() as int, f);
}

/// The prepared key holds the element that `gamma` and it add up to the identity.
pub proof fn law_prepared_key<E: Groups>(pvk: PreparedVerifyingKey<E>)
    ensures
        is_prepared(pvk) <==> (pvk.gamma_g2_neg_pc@ + pvk.vk.gamma_g2@) % E::modulus() == 0,
{
    let r = E::modulus();
    let (x, g) = (pvk.gamma_g2_neg_pc@, pvk.vk.gamma_g2@);
    E::modulus_bound();
    pvk.gamma_g2_neg_pc.view_bound();
    lemma_small_mod(x as nat, r as nat);
    lemma_mod_equivalence(x, -g, r);
}

/// A proof is valid exactly where its equation holds in the target group: the
/// product of `a` and `b`, less the inputs times `gamma`, less `c` times the sum of
/// `delta_prime` and the challenge times `delta`, is the power that the key encodes.
pub proof fn law_valid_proofs<E: Groups>(
    vk: VerifyingKey<E>,
    proof: Proof<E>,
    inputs: Seq<Scalar<E>>,
    e: int,
)
    requires
        0 <= e < E::modulus(),
        (e - (proof.a@ * proof.b@ - prepared(vk@, views(inputs)) * vk.gamma_g2@ - proof.c@ * (
        proof.delta_prime@ + vk.delta_g2@ * challenge::<E>(
            proof.a@,
            proof.b@,
            proof.delta_prime@,
        )))) % E::modulus() == 0,
    ensures
        accepts::<E>(vk@, proof@, views(inputs)) <==> E::gt_encoding(e) == vk.alpha_g1_beta_g2@,
{
    let r = E::modulus();
    let x = prepared(vk@, views(inputs));
    let d = delta_term::<E>(vk@, proof@);
    let (c, g) = (proof.c@, vk.gamma_g2@);
    E::modulus_bound();
    lemma_mul_unary_negation(x, g);
    lemma_mul_unary_negation(c, d);
    let v = proof.a@ * proof.b@ + x * -g + c * -d;
    lemma_mod_equivalence(e, v, r);
    lemma_small_mod(e as nat, r as nat);
    assert(exponent::<E>(vk@, -g, proof@, x) == e);
}

/// The verdict of the check with prepared inputs: the same equation, with the
/// prepared elements in place of the inputs and of `-gamma`. Where the key encodes a
/// power of the pairing of the generators, it is the same power.
pub proof fn law_verdicts<E: Groups>(
    pvk: PreparedVerifyingKey<E>,
    proof: Proof<E>,
    input: int,
    verdict: bool,
    e: int,
    k: int,
)
    requires
        is_verdict::<E>(pvk.vk@, pvk.gamma_g2_neg_pc@, proof@, input, verdict),
        0 <= e < E::modulus(),
        (e - (proof.a@ * proof.b@ + input * pvk.gamma_g2_neg_pc@ - proof.c@ * (proof.delta_prime@
            + pvk.vk.delta_g2@ * challenge::<E>(proof.a@, proof.b@, proof.delta_prime@))))
            % E::modulus() == 0,
    ensures
        verdict <==> E::gt_encoding(e) == pvk.vk.alpha_g1_beta_g2@,
        0 <= k < E::modulus() && E::gt_encoding(k) == pvk.vk.alpha_g1_beta_g2@ ==> (verdict <==> e
            == k),
{
    let r = E::modulus();
    let vk = pvk.vk@;
    let neg = pvk.gamma_g2_neg_pc@;
    let d = delta_term::<E>(vk, proof@);
    let c = proof.c@;
    E::modulus_bound();
    lemma_mul_unary_negation(c, d);
    let v = proof.a@ * proof.b@ + input * neg + c * -d;
    lemma_mod_equivalence(e, v, r);
    lemma_small_mod(e as nat, r as nat);
    assert(exponent::<E>(vk, neg, proof@, input) == e);
    assert(verdict == pairing_check::<E>(vk, neg, proof@, input));
}

} // verus!
