//! What a generated key holds and how its secrets were drawn.
use crate::data_structures::ProvingKey;
use crate::generator::{
    are_records, has_elements, has_found, is_key, is_setup_outcome, is_trapdoor_drawn,
    is_wanted, trapdoor_of, Trapdoor,
};
use crate::groups::Groups;
use crate::r1cs::{R1cs, SynthesisError};
use crate::r1cs_to_qap::is_instance_map;
use vstd::arithmetic::div_mod::lemma_mod_equivalence;
use vstd::arithmetic::power::pow;
use vstd::prelude::*;

verus! {

/// The single elements of a key are the secrets, each times what takes the place of
/// the generator of its group. `gamma` and `delta` are not zero, and the domain of
/// the system exists.
pub proof fn law_key_secrets<E: Groups>(pk: ProvingKey<E>, cs: R1cs, k: Trapdoor)
    requires
        is_key::<E>(pk@, cs, k),
    ensures
        k.gamma % E::modulus() != 0,
        k.delta % E::modulus() != 0,
        E::domain_size(cs.a.len() + cs.num_instance) is Some,
        (pk.vk.alpha_g1@ - k.g1 * k.alpha) % E::modulus() == 0,
        (pk.beta_g1@ - k.g1 * k.beta) % E::modulus() == 0,
        (pk.delta_g1@ - k.g1 * k.delta) % E::modulus() == 0,
        (pk.vk.beta_g2@ - k.g2 * k.beta) % E::modulus() == 0,
        (pk.vk.gamma_g2@ - k.g2 * k.gamma) % E::modulus() == 0,
        (pk.vk.delta_g2@ - k.g2 * k.delta) % E::modulus() == 0,
        pk.vk.alpha_g1_beta_g2@ == E::gt_encoding(
            ((k.g1 * k.alpha) * (k.g2 * k.beta)) % E::modulus(),
        ),
{
    let r = E::modulus();
    E::modulus_bound();
    lemma_mod_equivalence(pk.vk.alpha_g1@, k.g1 * k.alpha, r);
    lemma_mod_equivalence(pk.beta_g1@, k.g1 * k.beta, r);
    lemma_mod_equivalence(pk.delta_g1@, k.g1 * k.delta, r);
    lemma_mod_equivalence(pk.vk.beta_g2@, k.g2 * k.beta, r);
    lemma_mod_equivalence(pk.vk.gamma_g2@, k.g2 * k.gamma, r);
    lemma_mod_equivalence(pk.vk.delta_g2@, k.g2 * k.delta, r);
}

/// The lists of elements of a key. There is one element for each variable in the
/// queries, one for each variable of the instance in the verifying key, and one for
/// each variable of the witness in the last query; they hold the values `a`, `b` and
/// `c` of the polynomials of the variables at the secret point, the latter two kinds
/// as `beta a + alpha b + c`, over `gamma` and over `delta`. The powers of the secret
/// point come with the value of the vanishing polynomial, over `delta`, for as many
/// powers as the domain has points but one.
pub proof fn law_key_queries<E: Groups>(pk: ProvingKey<E>, cs: R1cs, k: Trapdoor)
    requires
        is_key::<E>(pk@, cs, k),
    ensures
        pk.a_query@.len() == cs.num_instance + cs.num_witness,
        pk.b_g1_query@.len() == cs.num_instance + cs.num_witness,
        pk.b_g2_query@.len() == cs.num_instance + cs.num_witness,
        pk.vk.gamma_abc_g1@.len() == cs.num_instance,
        pk.l_query@.len() == cs.num_witness,
        E::domain_size(cs.a.len() + cs.num_instance) == Some(pk.h_query@.len() as int + 1),
        forall|i: int|
            0 <= i < pk.h_query@.len() ==> (#[trigger] pk.h_query@[i]@ * k.delta - k.g1 * ((pow(
                k.t,
                pk.h_query@.len() + 1,
            ) - 1) * pow(k.t, i as nat))) % E::modulus() == 0,
        exists|a: Seq<int>, b: Seq<int>, c: Seq<int>|
            {
                &&& #[trigger] is_instance_map::<E>(cs, k.t, pk.h_query@.len() as int + 1, a, b, c)
                &&& forall|j: int|
                    0 <= j < pk.a_query@.len() ==> (#[trigger] pk.a_query@[j]@ - k.g1 * a[j])
                        % E::modulus() == 0
                &&& forall|j: int|
                    0 <= j < pk.b_g1_query@.len() ==> (#[trigger] pk.b_g1_query@[j]@ - k.g1 * b[j])
                        % E::modulus() == 0
                &&& forall|j: int|
                    0 <= j < pk.b_g2_query@.len() ==> (#[trigger] pk.b_g2_query@[j]@ - k.g2 * b[j])
                        % E::modulus() == 0
                &&& forall|j: int|
                    0 <= j < pk.vk.gamma_abc_g1@.len() ==> (#[trigger] pk.vk.gamma_abc_g1@[j]@
                        * k.gamma - k.g1 * (k.beta * a[j] + k.alpha * b[j] + c[j])) % E::modulus()
                        == 0
                &&& forall|j: int|
                    0 <= j < pk.l_query@.len() ==> (#[trigger] pk.l_query@[j]@ * k.delta - k.g1 * (
                    k.beta * a[cs.num_instance + j] + k.alpha * b[cs.num_instance + j]
                        + c[cs.num_instance + j])) % E::modulus() == 0
            },
{
    let r = E::modulus();
    E::modulus_bound();
    let n = E::domain_size(cs.num_points())->0;
    let (a, b, c) = choose|a: Seq<int>, b: Seq<int>, c: Seq<int>| #[trigger]
        is_instance_map::<E>(cs, k.t, n, a, b, c) && has_elements::<E>(pk@, cs, k, n, a, b, c);
    let m = pk@;
    assert forall|i: int| 0 <= i < pk.h_query@.len() implies (#[trigger] pk.h_query@[i]@ * k.delta
        - k.g1 * ((pow(k.t, pk.h_query@.len() + 1) - 1) * pow(k.t, i as nat))) % r == 0 by {
        assert(m.h_query[i] == pk.h_query@[i]@);
        lemma_mod_equivalence(
            m.h_query[i] * k.delta,
            k.g1 * ((pow(k.t, n as nat) - 1) * pow(k.t, i as nat)),
            r,
        );
    }
    assert forall|j: int| 0 <= j < pk.a_query@.len() implies (#[trigger] pk.a_query@[j]@ - k.g1
        * a[j]) % r == 0 by {
        lemma_mod_equivalence(m.a_query[j], k.g1 * a[j], r);
    }
    assert forall|j: int| 0 <= j < pk.b_g1_query@.len() implies (#[trigger] pk.b_g1_query@[j]@
        - k.g1 * b[j]) % r == 0 by {
        lemma_mod_equivalence(m.b_g1_query[j], k.g1 * b[j], r);
    }
    assert forall|j: int| 0 <= j < pk.b_g2_query@.len() implies (#[trigger] pk.b_g2_query@[j]@
        - k.g2 * b[j]) % r == 0 by {
        lemma_mod_equivalence(m.b_g2_query[j], k.g2 * b[j], r);
    }
    assert forall|j: int|
        0 <= j < pk.vk.gamma_abc_g1@.len() implies (#[trigger] pk.vk.gamma_abc_g1@[j]@ * k.gamma
        - k.g1 * (k.beta * a[j] + k.alpha * b[j] + c[j])) % r == 0 by {
        lemma_mod_equivalence(
            m.vk.gamma_abc_g1[j] * k.gamma,
            k.g1 * (k.beta * a[j] + k.alpha * b[j] + c[j]),
            r,
        );
    }
    assert forall|j: int| 0 <= j < pk.l_query@.len() implies (#[trigger] pk.l_query@[j]@ * k.delta
        - k.g1 * (k.beta * a[cs.num_instance + j] + k.alpha * b[cs.num_instance + j]
        + c[cs.num_instance + j])) % r == 0 by {
        let l = cs.num_instance + j;
        lemma_mod_equivalence(
            m.l_query[j] * k.delta,
            k.g1 * (k.beta * a[l] + k.alpha * b[l] + c[l]),
            r,
        );
    }
    assert(is_instance_map::<E>(cs, k.t, pk.h_query@.len() as int + 1, a, b, c));
}

/// What the search of number `i` left in the final record: it went on from what was
/// there before, and nothing but its last scalar was wanted.
proof fn lemma_found<E: Groups>(size: int, before: Seq<int>, records: Seq<Seq<int>>, i: int)
    requires
        are_records::<E>(size, before, records),
        0 <= i < records.len() - 1,
    ensures
        records[i].len() < records[i + 1].len() <= records.last().len(),
        forall|j: int|
            0 <= j < records[i].len() ==> #[trigger] records.last()[j] == records[i][j],
        records.last()[records[i + 1].len() - 1] == records[i + 1].last(),
        is_wanted::<E>(size, i, records[i + 1].last()),
        forall|j: int|
            records[i].len() <= j < records[i + 1].len() - 1 ==> !is_wanted::<E>(
                size,
                i,
                #[trigger] records.last()[j],
            ),
    decreases records.len() - i,
{
    let (x, y) = (records[i], records[i + 1]);
    assert(has_found::<E>(size, records, i));
    assert(x == y.subrange(0, x.len() as int));
    assert forall|j: int| 0 <= j < x.len() implies #[trigger] y[j] == x[j] by {
        assert(y.subrange(0, x.len() as int)[j] == y[j]);
    }
    if i + 1 < records.len() - 1 {
        lemma_found::<E>(size, before, records, i + 1);
    }
    assert(forall|j: int| 0 <= j < y.len() ==> #[trigger] records.last()[j] == y[j]);
}

/// A setup uses the scalars of the source in a fixed order and no others. The first
/// two are `alpha` and `beta`. The next that are not zero are `gamma`, `delta` and
/// those that make the generators of the two groups, in this order. The first after
/// them that lies outside the domain is the secret point, and nothing is drawn after
/// it.
pub proof fn law_setup_draws<E: Groups>(
    pk: ProvingKey<E>,
    cs: R1cs,
    before: Seq<int>,
    after: Seq<int>,
)
    requires
        is_setup_outcome::<E>(cs, before, after, Ok(pk@)),
    ensures
        before.len() + 7 <= after.len(),
        forall|i: int| 0 <= i < before.len() ==> #[trigger] after[i] == before[i],
        exists|k: Trapdoor, n: int, gamma: int, delta: int, g1: int, g2: int|
            #![trigger
                is_key::<E>(pk@, cs, k),
                pow(k.t, n as nat),
                after[gamma],
                after[delta],
                after[g1],
                after[g2]]
            {
                &&& is_key::<E>(pk@, cs, k)
                &&& E::domain_size(cs.a.len() + cs.num_instance) == Some(n)
                &&& before.len() + 2 <= gamma < delta < g1 < g2 < after.len() - 1
                &&& k.alpha == after[before.len() as int]
                &&& k.beta == after[before.len() as int + 1]
                &&& k.gamma == after[gamma] && after[gamma] != 0
                &&& k.delta == after[delta] && after[delta] != 0
                &&& k.g1 == after[g1] && after[g1] != 0
                &&& k.g2 == after[g2] && after[g2] != 0
                &&& k.t == after.last()
                &&& (pow(k.t, n as nat) - 1) % E::modulus() != 0
                &&& forall|i: int|
                    before.len() + 2 <= i < g2 && i != gamma && i != delta && i != g1
                        ==> #[trigger] after[i] == 0
                &&& forall|i: int|
                    g2 < i < after.len() - 1 ==> (pow(#[trigger] after[i], n as nat) - 1)
                        % E::modulus() == 0
            },
{
    let n = E::domain_size(cs.num_points())->0;
    let k = choose|k: Trapdoor| #[trigger]
        is_trapdoor_drawn::<E>(n, before, after, k) && is_key::<E>(pk@, cs, k);
    let records = choose|records: Seq<Seq<int>>| #[trigger]
        are_records::<E>(n, before, records) && records.len() == 6 && records[5] == after && k
            == trapdoor_of(before, records);
    lemma_found::<E>(n, before, records, 0);
    lemma_found::<E>(n, before, records, 1);
    lemma_found::<E>(n, before, records, 2);
    lemma_found::<E>(n, before, records, 3);
    lemma_found::<E>(n, before, records, 4);
    let gamma = records[1].len() - 1;
    let delta = records[2].len() - 1;
    let g1 = records[3].len() - 1;
    let g2 = records[4].len() - 1;
    assert(forall|i: int| 0 <= i < before.len() + 2 ==> #[trigger] after[i] == records[0][i]);
    assert forall|i: int| 0 <= i < before.len() implies #[trigger] after[i] == before[i] by {
        assert(before == records[0].subrange(0, before.len() as int));
        assert(records[0].subrange(0, before.len() as int)[i] == records[0][i]);
    }
    assert(is_key::<E>(pk@, cs, k));
    assert((pow(k.t, n as nat) - 1) % E::modulus() != 0);
    assert(after[gamma] == k.gamma && after[delta] == k.delta);
    assert(after[g1] == k.g1 && after[g2] == k.g2);
}

/// A setup fails where there is no domain for the system and nowhere else. It then
/// draws nothing.
pub proof fn law_setup_fails<E: Groups>(
    cs: R1cs,
    before: Seq<int>,
    after: Seq<int>,
    e: SynthesisError,
)
    requires
        is_setup_outcome::<E>(cs, before, after, Err(e)),
    ensures
        E::domain_size(cs.a.len() + cs.num_instance) is None,
        e == SynthesisError::PolynomialDegreeTooLarge,
        after == before,
{
}

} // verus!
