//! The generation of keys.
use crate::algebra::{
    cong, dot, lemma_cong_add, lemma_cong_mod, lemma_cong_mul, sum, views,
};
use crate::data_structures::{ProvingKey, ProvingKeyModel, VerifyingKey};
use crate::domain::Domain;
use crate::groups::{Groups, Gt, Scalar, G1, G2};
use crate::pairing::Pairing;
use crate::r1cs::{ConstraintMatrices, R1cs, SynthesisError};
use crate::random::{draw_nonzero, is_search, Recorded, ScalarSource};
use crate::r1cs_to_qap::{is_instance_map, R1CStoQAP};
use vstd::arithmetic::div_mod::lemma_small_mod;
use vstd::arithmetic::power::{lemma1_pow, lemma_pow0, lemma_pow1, lemma_pow_adds, pow};
use vstd::prelude::*;

verus! {

/// What a key is made from and nobody may know: the secrets, the secret point, and
/// the elements that take the place of the generators.
pub struct Trapdoor {
    pub alpha: int,
    pub beta: int,
    pub gamma: int,
    pub delta: int,
    pub t: int,
    pub g1: int,
    pub g2: int,
}

/// What the key holds of variable `j` beside the queries: `beta a_j + alpha b_j +
/// c_j`.
pub open spec fn abc(k: Trapdoor, a: Seq<int>, b: Seq<int>, c: Seq<int>, j: int) -> int {
    k.beta * a[j] + k.alpha * b[j] + c[j]
}

/// The key has the elements that belong to the secrets and to the values `a`, `b`
/// and `c` of the polynomials of all variables at the secret point.
pub open spec fn has_elements<E: Groups>(
    pk: ProvingKeyModel,
    cs: R1cs,
    k: Trapdoor,
    n: int,
    a: Seq<int>,
    b: Seq<int>,
    c: Seq<int>,
) -> bool {
    let r = E::modulus();
    let zt = pow(k.t, n as nat) - 1;
    &&& cong(pk.vk.alpha_g1, k.g1 * k.alpha, r)
    &&& cong(pk.beta_g1, k.g1 * k.beta, r)
    &&& cong(pk.delta_g1, k.g1 * k.delta, r)
    &&& cong(pk.vk.beta_g2, k.g2 * k.beta, r)
    &&& cong(pk.vk.gamma_g2, k.g2 * k.gamma, r)
    &&& cong(pk.vk.delta_g2, k.g2 * k.delta, r)
    &&& pk.vk.alpha_g1_beta_g2 == E::gt_encoding(
        ((k.g1 * k.alpha) * (k.g2 * k.beta)) % r,
    )
    &&& pk.a_query.len() == cs.num_variables()
    &&& pk.b_g1_query.len() == cs.num_variables()
    &&& pk.b_g2_query.len() == cs.num_variables()
    &&& forall|j: int|
        0 <= j < cs.num_variables() ==> cong(#[trigger] pk.a_query[j], k.g1 * a[j], r)
    &&& forall|j: int|
        0 <= j < cs.num_variables() ==> cong(#[trigger] pk.b_g1_query[j], k.g1 * b[j], r)
    &&& forall|j: int|
        0 <= j < cs.num_variables() ==> cong(#[trigger] pk.b_g2_query[j], k.g2 * b[j], r)
    &&& pk.vk.gamma_abc_g1.len() == cs.num_instance
    &&& forall|j: int|
        0 <= j < cs.num_instance ==> cong(
            #[trigger] pk.vk.gamma_abc_g1[j] * k.gamma,
            k.g1 * abc(k, a, b, c, j),
            r,
        )
    &&& pk.l_query.len() == cs.num_witness
    &&& forall|j: int|
        0 <= j < cs.num_witness ==> cong(
            #[trigger] pk.l_query[j] * k.delta,
            k.g1 * abc(k, a, b, c, cs.num_instance + j),
            r,
        )
    &&& pk.h_query.len() == n - 1
    &&& forall|i: int|
        0 <= i < n - 1 ==> cong(
            #[trigger] pk.h_query[i] * k.delta,
            k.g1 * (zt * pow(k.t, i as nat)),
            r,
        )
}

/// The key was made for the system from the given secrets, of which `gamma` and
/// `delta` differ from zero.
pub open spec fn is_key<E: Groups>(pk: ProvingKeyModel, cs: R1cs, k: Trapdoor) -> bool {
    &&& k.gamma % E::modulus() != 0
    &&& k.delta % E::modulus() != 0
    &&& E::domain_size(cs.num_points()) matches Some(n) && exists|
        a: Seq<int>,
        b: Seq<int>,
        c: Seq<int>,
    | #[trigger]
        is_instance_map::<E>(cs, k.t, n, a, b, c) && has_elements::<E>(pk, cs, k, n, a, b, c)
}

/// The vanishing polynomial of the domain of `size` points does not vanish at `t`.
pub open spec fn is_outside<E: Groups>(size: int, t: int) -> bool {
    (pow(t, size as nat) - 1) % E::modulus() != 0
}

/// The secret point lies outside the domain of the system, and what takes the
/// place of the generators generates.
pub open spec fn is_secret<E: Groups>(cs: R1cs, k: Trapdoor) -> bool {
    &&& k.g1 % E::modulus() != 0
    &&& k.g2 % E::modulus() != 0
    &&& E::domain_size(cs.num_points()) matches Some(n) && is_outside::<E>(n, k.t)
}

// ---------------------------------------------------------------------------
// The parts of a key
// ---------------------------------------------------------------------------

/// `(beta a_j + alpha b_j + c_j) k` for the variables from `start` on, up to `end`.
fn scaled_abc<E: Pairing>(
    a: &Vec<Scalar<E>>,
    b: &Vec<Scalar<E>>,
    c: &Vec<Scalar<E>>,
    start: usize,
    end: usize,
    alpha: &Scalar<E>,
    beta: &Scalar<E>,
    k: &Scalar<E>,
) -> (res: Vec<Scalar<E>>)
    requires
        start <= end <= a@.len(),
        b@.len() == a@.len(),
        c@.len() == a@.len(),
    ensures
        res@.len() == end - start,
        forall|j: int|
            0 <= j < res@.len() ==> cong(
                (#[trigger] res@[j])@,
                (beta@ * a@[start + j]@ + alpha@ * b@[start + j]@ + c@[start + j]@) * k@,
                E::modulus(),
            ),
{
    let ghost r = E::modulus();
    let mut res: Vec<Scalar<E>> = Vec::new();
    let mut i: usize = start;
    while i < end
        invariant
            start <= i <= end <= a@.len(),
            b@.len() == a@.len(),
            c@.len() == a@.len(),
            r == E::modulus(),
            res@.len() == i - start,
            forall|j: int|
                0 <= j < res@.len() ==> cong(
                    (#[trigger] res@[j])@,
                    (beta@ * a@[start + j]@ + alpha@ * b@[start + j]@ + c@[start + j]@) * k@,
                    r,
                ),
        decreases end - i,
    {
        let beta_a = E::scalar_mul(beta, &a[i]);
        let alpha_b = E::scalar_mul(alpha, &b[i]);
        let two = E::scalar_add(&beta_a, &alpha_b);
        let three = E::scalar_add(&two, &c[i]);
        let value = E::scalar_mul(&three, k);
        proof {
            E::modulus_bound();
            let (x, y, z) = (beta@ * a@[i as int]@, alpha@ * b@[i as int]@, c@[i as int]@);
            lemma_cong_mod(x, r);
            lemma_cong_mod(y, r);
            lemma_cong_add(beta_a@, x, alpha_b@, y, r);
            lemma_cong_mod(beta_a@ + alpha_b@, r);
            lemma_cong_add(two@, x + y, z, z, r);
            lemma_cong_mod(two@ + z, r);
            lemma_cong_mul(three@, x + y + z, k@, k@, r);
            lemma_cong_mod(three@ * k@, r);
            assert(start + (i - start) == i);
        }
        res.push(value);
        i = i + 1;
    }
    res
}

/// `k t^i` for the exponents below `n`.
fn scaled_powers<E: Pairing>(k: &Scalar<E>, t: &Scalar<E>, n: usize) -> (res: Vec<Scalar<E>>)
    ensures
        res@.len() == n,
        forall|i: int|
            0 <= i < n ==> cong((#[trigger] res@[i])@, k@ * pow(t@, i as nat), E::modulus()),
{
    let ghost r = E::modulus();
    let mut res: Vec<Scalar<E>> = Vec::new();
    let mut power = *k;
    let mut i: usize = 0;
    proof {
        lemma_pow0(t@);
    }
    while i < n
        invariant
            i <= n,
            r == E::modulus(),
            res@.len() == i,
            cong(power@, k@ * pow(t@, i as nat), r),
            forall|j: int| 0 <= j < i ==> cong((#[trigger] res@[j])@, k@ * pow(t@, j as nat), r),
        decreases n - i,
    {
        res.push(power);
        let ghost before = power@;
        power = E::scalar_mul(&power, t);
        proof {
            E::modulus_bound();
            lemma_pow_adds(t@, i as nat, 1);
            lemma_pow1(t@);
            let (x, y, z) = (k@, pow(t@, i as nat), t@);
            lemma_cong_mul(before, x * y, z, z, r);
            lemma_cong_mod(before * z, r);
            assert((x * y) * z == x * (y * z)) by (nonlinear_arith);
        }
        i = i + 1;
    }
    res
}

/// The multiple of `g` by a scalar that was divided by `secret`, times `secret`.
proof fn lemma_undo_division(
    element: int,
    scalar: int,
    g: int,
    value: int,
    secret: int,
    inverse: int,
    r: int,
)
    requires
        r > 1,
        element == (g * scalar) % r,
        cong(scalar, value * inverse, r),
        (secret * inverse) % r == 1,
    ensures
        cong(element * secret, g * value, r),
{
    lemma_cong_mod(g * scalar, r);
    lemma_cong_mul(element, g * scalar, secret, secret, r);
    lemma_cong_mul(g, g, scalar, value * inverse, r);
    lemma_cong_mul(g * scalar, g * (value * inverse), secret, secret, r);
    assert((g * (value * inverse)) * secret == (g * value) * (secret * inverse))
        by (nonlinear_arith);
    lemma_small_mod(1, r as nat);
    lemma_cong_mul(g * value, g * value, secret * inverse, 1, r);
}

/// The pairing of two elements.
fn pair<E: Pairing>(a: &G1<E>, b: &G2<E>) -> (product: Gt<E>)
    ensures
        product@ == E::gt_encoding((a@ * b@) % E::modulus()),
{
    let mut firsts: Vec<G1<E>> = Vec::new();
    firsts.push(a.clone());
    let mut seconds: Vec<G2<E>> = Vec::new();
    seconds.push(b.clone());
    proof {
        reveal_with_fuel(sum, 2);
        assert(dot(views(firsts@), views(seconds@)) == a@ * b@);
    }
    E::multi_pairing(firsts.as_slice(), seconds.as_slice())
}

// ---------------------------------------------------------------------------
// Keys
// ---------------------------------------------------------------------------

/// The key for the system from the given secrets. Of these `gamma` and `delta` must
/// differ from zero.
pub fn generate_parameters<E: Pairing>(
    circuit: &ConstraintMatrices<E>,
    alpha: &Scalar<E>,
    beta: &Scalar<E>,
    gamma: &Scalar<E>,
    delta: &Scalar<E>,
    t: &Scalar<E>,
    g1_generator: &G1<E>,
    g2_generator: &G2<E>,
) -> (res: Result<ProvingKey<E>, SynthesisError>)
    ensures
        match res {
            Ok(pk) => is_key::<E>(
                pk@,
                circuit@,
                Trapdoor {
                    alpha: alpha@,
                    beta: beta@,
                    gamma: gamma@,
                    delta: delta@,
                    t: t@,
                    g1: g1_generator@,
                    g2: g2_generator@,
                },
            ),
            Err(e) => {
                ||| E::domain_size(circuit@.num_points()) is None && e
                    == SynthesisError::PolynomialDegreeTooLarge
                ||| E::domain_size(circuit@.num_points()) is Some && (gamma@ == 0 || delta@ == 0)
                    && e == SynthesisError::DivisionByZero
            },
        },
{
    let ghost r = E::modulus();
    let num_instance_variables = circuit.num_instance_variables();
    let (a, b, c, zt, qap_num_variables, domain_size) =
        match R1CStoQAP::instance_map_with_evaluation(circuit, t) {
        Ok(parts) => parts,
        Err(e) => {
            return Err(e);
        },
    };
    let ghost n = domain_size as int;
    let (gamma_inverse, delta_inverse) = match (
        E::scalar_inverse(gamma),
        E::scalar_inverse(delta),
    ) {
        (Some(x), Some(y)) => (x, y),
        _ => {
            return Err(SynthesisError::DivisionByZero);
        },
    };
    proof {
        E::modulus_bound();
        E::domain_size_bound(circuit@.num_points());
        gamma.view_bound();
        delta.view_bound();
        assert(views(a@).len() == a@.len() && views(b@).len() == b@.len() && views(c@).len()
            == c@.len());
    }
    let gamma_abc = scaled_abc(
        &a,
        &b,
        &c,
        0,
        num_instance_variables,
        alpha,
        beta,
        &gamma_inverse,
    );
    let l = scaled_abc(
        &a,
        &b,
        &c,
        num_instance_variables,
        qap_num_variables + 1,
        alpha,
        beta,
        &delta_inverse,
    );
    let zt_over_delta = E::scalar_mul(&zt, &delta_inverse);
    let h = scaled_powers(&zt_over_delta, t, domain_size - 1);

    let alpha_g1 = E::g1_mul(g1_generator, alpha);
    let beta_g2 = E::g2_mul(g2_generator, beta);
    let alpha_g1_beta_g2 = pair(&alpha_g1, &beta_g2);
    let vk = VerifyingKey {
        alpha_g1,
        beta_g2,
        gamma_g2: E::g2_mul(g2_generator, gamma),
        delta_g2: E::g2_mul(g2_generator, delta),
        gamma_abc_g1: E::g1_batch_mul(g1_generator, gamma_abc.as_slice()),
        alpha_g1_beta_g2,
    };
    let pk = ProvingKey {
        vk,
        beta_g1: E::g1_mul(g1_generator, beta),
        delta_g1: E::g1_mul(g1_generator, delta),
        a_query: E::g1_batch_mul(g1_generator, a.as_slice()),
        b_g1_query: E::g1_batch_mul(g1_generator, b.as_slice()),
        b_g2_query: E::g2_batch_mul(g2_generator, b.as_slice()),
        h_query: E::g1_batch_mul(g1_generator, h.as_slice()),
        l_query: E::g1_batch_mul(g1_generator, l.as_slice()),
    };
    proof {
        let k = Trapdoor {
            alpha: alpha@,
            beta: beta@,
            gamma: gamma@,
            delta: delta@,
            t: t@,
            g1: g1_generator@,
            g2: g2_generator@,
        };
        let (av, bv, cv) = (views(a@), views(b@), views(c@));
        let (x, y) = (k.g1 * k.alpha, k.g2 * k.beta);
        lemma_small_mod(gamma@ as nat, r as nat);
        lemma_small_mod(delta@ as nat, r as nat);
        lemma_cong_mod(x, r);
        lemma_cong_mod(y, r);
        lemma_cong_mul(x % r, x, y % r, y, r);
        lemma_cong_mod(k.g1 * k.beta, r);
        lemma_cong_mod(k.g1 * k.delta, r);
        lemma_cong_mod(k.g2 * k.gamma, r);
        lemma_cong_mod(k.g2 * k.delta, r);
        assert forall|j: int| 0 <= j < circuit@.num_variables() implies cong(
            #[trigger] pk@.a_query[j],
            k.g1 * av[j],
            r,
        ) by {
            assert(pk.a_query@[j]@ == (k.g1 * a@[j]@) % r);
            lemma_cong_mod(k.g1 * av[j], r);
        }
        assert forall|j: int| 0 <= j < circuit@.num_variables() implies cong(
            #[trigger] pk@.b_g1_query[j],
            k.g1 * bv[j],
            r,
        ) by {
            assert(pk.b_g1_query@[j]@ == (k.g1 * b@[j]@) % r);
            lemma_cong_mod(k.g1 * bv[j], r);
        }
        assert forall|j: int| 0 <= j < circuit@.num_variables() implies cong(
            #[trigger] pk@.b_g2_query[j],
            k.g2 * bv[j],
            r,
        ) by {
            assert(pk.b_g2_query@[j]@ == (k.g2 * b@[j]@) % r);
            lemma_cong_mod(k.g2 * bv[j], r);
        }
        assert forall|j: int| 0 <= j < circuit@.num_instance implies cong(
            #[trigger] pk@.vk.gamma_abc_g1[j] * k.gamma,
            k.g1 * abc(k, av, bv, cv, j),
            r,
        ) by {
            assert(pk.vk.gamma_abc_g1@[j]@ == (k.g1 * gamma_abc@[j]@) % r);
            assert(cong(gamma_abc@[j]@, abc(k, av, bv, cv, 0 + j) * gamma_inverse@, r));
            lemma_undo_division(
                pk@.vk.gamma_abc_g1[j],
                gamma_abc@[j]@,
                k.g1,
                abc(k, av, bv, cv, j),
                k.gamma,
                gamma_inverse@,
                r,
            );
        }
        assert forall|j: int| 0 <= j < circuit@.num_witness implies cong(
            #[trigger] pk@.l_query[j] * k.delta,
            k.g1 * abc(k, av, bv, cv, circuit@.num_instance + j),
            r,
        ) by {
            assert(pk.l_query@[j]@ == (k.g1 * l@[j]@) % r);
            assert(cong(
                l@[j]@,
                abc(k, av, bv, cv, num_instance_variables + j) * delta_inverse@,
                r,
            ));
            lemma_undo_division(
                pk@.l_query[j],
                l@[j]@,
                k.g1,
                abc(k, av, bv, cv, circuit@.num_instance + j),
                k.delta,
                delta_inverse@,
                r,
            );
        }
        let z = pow(k.t, n as nat) - 1;
        assert forall|i: int| 0 <= i < n - 1 implies cong(
            #[trigger] pk@.h_query[i] * k.delta,
            k.g1 * (z * pow(k.t, i as nat)),
            r,
        ) by {
            let (p, d) = (pow(k.t, i as nat), delta_inverse@);
            assert(pk.h_query@[i]@ == (k.g1 * h@[i]@) % r);
            lemma_cong_mod(z, r);
            lemma_cong_mul(zt@, z, d, d, r);
            lemma_cong_mod(zt@ * d, r);
            lemma_cong_mul(zt_over_delta@, z * d, p, p, r);
            assert((z * d) * p == (z * p) * d) by (nonlinear_arith);
            lemma_undo_division(pk@.h_query[i], h@[i]@, k.g1, z * p, k.delta, d, r);
        }
        assert(is_instance_map::<E>(circuit@, k.t, n, av, bv, cv) && has_elements::<E>(
            pk@,
            circuit@,
            k,
            n,
            av,
            bv,
            cv,
        ));
    }
    Ok(pk)
}

/// The first point outside the domain, from the source. Each point of the domain
/// before it leaves a mark, which takes no room: a vector has no limit but that the
/// number of marks fits in a `usize`.
fn draw_outside<E: Pairing, R: ScalarSource<E>>(
    domain: &Domain<E>,
    rng: &mut Recorded<R>,
) -> (t: Scalar<E>)
    requires
        domain.spec_offset() == 1,
    ensures
        is_search(
            old(rng).drawn(),
            final(rng).drawn(),
            |t: int| is_outside::<E>(domain.spec_size(), t),
            t@,
        ),
{
    let ghost before = rng.drawn();
    let mut inside: Vec<()> = Vec::new();
    proof {
        lemma1_pow(domain.spec_size() as nat);
    }
    loop
        invariant
            before == old(rng).drawn(),
            before.is_prefix_of(rng.drawn()),
            pow(domain.spec_offset(), domain.spec_size() as nat) == 1,
            forall|i: int|
                before.len() <= i < rng.drawn().len() ==> !is_outside::<E>(
                    domain.spec_size(),
                    #[trigger] rng.drawn()[i],
                ),
        decreases usize::MAX - inside.len(),
    {
        let t: Scalar<E> = rng.draw();
        if !E::evaluate_vanishing_polynomial(domain, &t).is_zero() {
            return t;
        }
        inside.push(());
    }
}

/// What the searches for the secrets look for: first `gamma`, `delta` and the two
/// scalars that make the elements in the place of the generators, which differ from
/// zero, then the point, which lies outside the domain.
pub open spec fn is_wanted<E: Groups>(size: int, i: int, x: int) -> bool {
    if i < 4 {
        x != 0
    } else {
        is_outside::<E>(size, x)
    }
}

/// The search with number `i` went on from `records[i]` to `records[i + 1]` and
/// found what it looked for.
pub open spec fn has_found<E: Groups>(size: int, records: Seq<Seq<int>>, i: int) -> bool {
    is_search(
        records[i],
        records[i + 1],
        |x: int| is_wanted::<E>(size, i, x),
        records[i + 1].last(),
    )
}

/// What was on record while the secrets were drawn: from `before` on, `alpha` and
/// `beta` first, and then, search by search, the others.
pub open spec fn are_records<E: Groups>(
    size: int,
    before: Seq<int>,
    records: Seq<Seq<int>>,
) -> bool {
    &&& 1 <= records.len()
    &&& records[0].len() == before.len() + 2
    &&& before.is_prefix_of(records[0])
    &&& forall|i: int| 0 <= i < records.len() - 1 ==> #[trigger] has_found::<E>(size, records, i)
}

/// The secrets that the records hold, once all searches have ended.
pub open spec fn trapdoor_of(before: Seq<int>, records: Seq<Seq<int>>) -> Trapdoor {
    Trapdoor {
        alpha: records[0][before.len() as int],
        beta: records[0][before.len() as int + 1],
        gamma: records[1].last(),
        delta: records[2].last(),
        g1: records[3].last(),
        g2: records[4].last(),
        t: records[5].last(),
    }
}

/// From `before` on, the secrets `k` of a key were drawn up to `after`.
pub open spec fn is_trapdoor_drawn<E: Groups>(
    size: int,
    before: Seq<int>,
    after: Seq<int>,
    k: Trapdoor,
) -> bool {
    exists|records: Seq<Seq<int>>| #[trigger]
        are_records::<E>(size, before, records) && records.len() == 6 && records[5] == after && k
            == trapdoor_of(before, records)
}

/// The secrets of a key.
struct Secrets<E: Groups> {
    alpha: Scalar<E>,
    beta: Scalar<E>,
    gamma: Scalar<E>,
    delta: Scalar<E>,
    g1: Scalar<E>,
    g2: Scalar<E>,
    t: Scalar<E>,
}

impl<E: Groups> Secrets<E> {
    spec fn trapdoor(&self) -> Trapdoor {
        Trapdoor {
            alpha: self.alpha@,
            beta: self.beta@,
            gamma: self.gamma@,
            delta: self.delta@,
            g1: self.g1@,
            g2: self.g2@,
            t: self.t@,
        }
    }
}

/// The records with one more, to which a search went on.
proof fn lemma_records_push<E: Groups>(
    size: int,
    before: Seq<int>,
    records: Seq<Seq<int>>,
    next: Seq<int>,
)
    requires
        are_records::<E>(size, before, records),
        is_search(
            records.last(),
            next,
            |x: int| is_wanted::<E>(size, records.len() - 1, x),
            next.last(),
        ),
    ensures
        are_records::<E>(size, before, records.push(next)),
{
    let longer = records.push(next);
    assert forall|i: int| 0 <= i < longer.len() - 1 implies #[trigger] has_found::<E>(
        size,
        longer,
        i,
    ) by {
        if i < records.len() - 1 {
            assert(has_found::<E>(size, records, i));
        }
    }
}

/// The secrets of a key for the domain, from `rng`.
fn draw_secrets<E: Pairing, R: ScalarSource<E>>(
    domain: &Domain<E>,
    rng: &mut Recorded<R>,
) -> (secrets: Secrets<E>)
    requires
        domain.spec_offset() == 1,
    ensures
        is_trapdoor_drawn::<E>(
            domain.spec_size(),
            old(rng).drawn(),
            final(rng).drawn(),
            secrets.trapdoor(),
        ),
{
    let ghost size = domain.spec_size();
    let ghost before = rng.drawn();
    let alpha: Scalar<E> = rng.draw();
    let beta: Scalar<E> = rng.draw();
    let ghost mut records: Seq<Seq<int>> = seq![rng.drawn()];
    assert(are_records::<E>(size, before, records));
    let gamma: Scalar<E> = draw_nonzero(rng);
    proof {
        lemma_records_push::<E>(size, before, records, rng.drawn());
        records = records.push(rng.drawn());
    }
    let delta: Scalar<E> = draw_nonzero(rng);
    proof {
        lemma_records_push::<E>(size, before, records, rng.drawn());
        records = records.push(rng.drawn());
    }
    let g1: Scalar<E> = draw_nonzero(rng);
    proof {
        lemma_records_push::<E>(size, before, records, rng.drawn());
        records = records.push(rng.drawn());
    }
    let g2: Scalar<E> = draw_nonzero(rng);
    proof {
        lemma_records_push::<E>(size, before, records, rng.drawn());
        records = records.push(rng.drawn());
    }
    let t: Scalar<E> = draw_outside(domain, rng);
    proof {
        lemma_records_push::<E>(size, before, records, rng.drawn());
        records = records.push(rng.drawn());
    }
    Secrets { alpha, beta, gamma, delta, g1, g2, t }
}

/// The outcome of a setup with secrets that were drawn from `before` on, up to
/// `after`: a key from those secrets, or an error where there is no domain, in which
/// case nothing is drawn.
pub open spec fn is_setup_outcome<E: Groups>(
    cs: R1cs,
    before: Seq<int>,
    after: Seq<int>,
    res: Result<ProvingKeyModel, SynthesisError>,
) -> bool {
    match (E::domain_size(cs.num_points()), res) {
        (Some(n), Ok(pk)) => exists|k: Trapdoor| #[trigger]
            is_trapdoor_drawn::<E>(n, before, after, k) && is_key::<E>(pk, cs, k)
                && is_secret::<E>(cs, k),
        (Some(_), Err(_)) => false,
        (None, Ok(_)) => false,
        (None, Err(e)) => e == SynthesisError::PolynomialDegreeTooLarge && after == before,
    }
}

/// A key for the system, with secrets from `rng`. The secret point lies outside the
/// domain, and `gamma`, `delta` and the elements that take the place of the
/// generators differ from zero.
pub fn generate_random_parameters<E: Pairing, R: ScalarSource<E>>(
    circuit: &ConstraintMatrices<E>,
    rng: &mut Recorded<R>,
) -> (res: Result<ProvingKey<E>, SynthesisError>)
    ensures
        is_setup_outcome::<E>(
            circuit@,
            old(rng).drawn(),
            final(rng).drawn(),
            match res {
                Ok(pk) => Ok(pk@),
                Err(e) => Err(e),
            },
        ),
{
    let domain: Domain<E> = match Domain::new(circuit.num_points()) {
        Some(domain) => domain,
        None => {
            return Err(SynthesisError::PolynomialDegreeTooLarge);
        },
    };
    let secrets = draw_secrets(&domain, rng);
    let g1_generator = E::g1_mul(&E::g1_generator(), &secrets.g1);
    let g2_generator = E::g2_mul(&E::g2_generator(), &secrets.g2);
    proof {
        let r = E::modulus();
        let k = secrets.trapdoor();
        E::modulus_bound();
        secrets.g1.view_bound();
        secrets.g2.view_bound();
        lemma_small_mod(secrets.g1@ as nat, r as nat);
        lemma_small_mod(secrets.g2@ as nat, r as nat);
        lemma_trapdoor_drawn::<E>(circuit@, old(rng).drawn(), rng.drawn(), k);
    }
    generate_parameters(
        circuit,
        &secrets.alpha,
        &secrets.beta,
        &secrets.gamma,
        &secrets.delta,
        &secrets.t,
        &g1_generator,
        &g2_generator,
    )
}

/// Secrets that were drawn are what they were drawn for.
proof fn lemma_trapdoor_drawn<E: Groups>(cs: R1cs, before: Seq<int>, after: Seq<int>, k: Trapdoor)
    requires
        E::domain_size(cs.num_points()) matches Some(n) && is_trapdoor_drawn::<E>(
            n,
            before,
            after,
            k,
        ),
    ensures
        k.gamma != 0,
        k.delta != 0,
        k.g1 != 0,
        k.g2 != 0,
        is_outside::<E>(E::domain_size(cs.num_points())->0, k.t),
{
    let n = E::domain_size(cs.num_points())->0;
    let records = choose|records: Seq<Seq<int>>| #[trigger]
        are_records::<E>(n, before, records) && records.len() == 6 && records[5] == after && k
            == trapdoor_of(before, records);
    assert(has_found::<E>(n, records, 0));
    assert(has_found::<E>(n, records, 1));
    assert(has_found::<E>(n, records, 2));
    assert(has_found::<E>(n, records, 3));
    assert(has_found::<E>(n, records, 4));
}

} // verus!
