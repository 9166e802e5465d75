//! Completeness: honest proofs of true statements are accepted.
use crate::algebra::{
    cong, dot, lemma_cong_add, lemma_cong_mod, lemma_cong_mul, lemma_cong_sub, lemma_sum_add,
    lemma_sum_cong, lemma_sum_eq, lemma_sum_scale, lemma_sum_split, lemma_sum_swap, lemma_sum_zero,
    sum,
};
use crate::challenge::challenge;
use crate::data_structures::{ProofModel, ProvingKeyModel};
use crate::domain::{domain_point, interpolates, is_lagrange, values_on_domain};
use crate::equation::{lemma_c_term, lemma_equation};
use crate::generator::{abc, has_elements, is_key, Trapdoor};
use crate::groups::Groups;
use crate::polynomial::{eval, lemma_eval_is_sum};
use crate::r1cs::{lemma_row_eval, row_coeff, row_eval, rows_within, R1cs, Row};
use crate::prover::{b_in_g1, combination, is_proof};
use crate::r1cs_to_qap::{
    column, divides_on_coset, is_instance_map, is_program, is_quotient, is_witness_map,
    left_column, left_values, row_values,
};
use crate::verify::{accepts, delta_term, fits_inputs, prepared};
use vstd::arithmetic::mul::{lemma_mul_basics, lemma_mul_unary_negation};
use vstd::arithmetic::power::pow;
use vstd::prelude::*;

verus! {

/// The proof is valid for the instance, the constant one left out, under every key
/// that was made for the system.
pub open spec fn is_convincing<E: Groups>(
    pk: ProvingKeyModel,
    cs: R1cs,
    instance: Seq<int>,
    proof: ProofModel,
) -> bool {
    forall|k: Trapdoor| #[trigger]
        is_key::<E>(pk, cs, k) ==> fits_inputs(pk.vk, instance.drop_first()) && accepts::<E>(
            pk.vk,
            proof,
            instance.drop_first(),
        )
}

// ---------------------------------------------------------------------------
// The program at the secret point
// ---------------------------------------------------------------------------

/// The inner product of the columns of the rows with the variables is that of the
/// values of the rows with the coefficients.
proof fn lemma_columns(rows: Seq<Row>, u: Seq<int>, z: Seq<int>)
    requires
        rows_within(rows, z.len() as int),
    ensures
        sum(z.len() as int, |j: int| z[j] * column(rows, u, j)) == sum(
            rows.len() as int,
            |i: int| u[i] * row_eval(rows[i], z),
        ),
{
    let m = rows.len() as int;
    let n = z.len() as int;
    let f = |i: int, j: int| u[i] * (row_coeff(rows[i], j) * z[j]);
    lemma_sum_swap(m, n, f);
    let by_row = |i: int| sum(n, |j: int| f(i, j));
    let target = |i: int| u[i] * row_eval(rows[i], z);
    assert forall|i: int| 0 <= i < m implies #[trigger] by_row(i) == target(i) by {
        assert forall|k: int| 0 <= k < rows[i].len() implies 0 <= (#[trigger] rows[i][k]).1
            < z.len() by {
        }
        lemma_row_eval(rows[i], z);
        lemma_sum_scale(n, u[i], |j: int| row_coeff(rows[i], j) * z[j]);
        let inner = |j: int| f(i, j);
        let terms = |j: int| row_coeff(rows[i], j) * z[j];
        lemma_sum_eq(n, inner, |j: int| u[i] * terms(j));
    }
    lemma_sum_eq(m, by_row, target);
    let by_column = |j: int| sum(m, |i: int| f(i, j));
    let goal = |j: int| z[j] * column(rows, u, j);
    assert forall|j: int| 0 <= j < n implies #[trigger] by_column(j) == goal(j) by {
        let inner = |i: int| f(i, j);
        let terms = |i: int| u[i] * row_coeff(rows[i], j);
        let scaled = |i: int| z[j] * terms(i);
        lemma_sum_scale(m, z[j], terms);
        assert forall|i: int| 0 <= i < m implies #[trigger] inner(i) == scaled(i) by {
            let (x, y, w) = (u[i], row_coeff(rows[i], j), z[j]);
            assert(x * (y * w) == w * (x * y)) by (nonlinear_arith);
        }
        lemma_sum_eq(m, inner, scaled);
    }
    lemma_sum_eq(n, by_column, goal);
}

/// The sum of the elements of `v`, each multiplied by a variable.
pub open spec fn weighted(v: Seq<int>, z: Seq<int>) -> int {
    sum(z.len() as int, |j: int| z[j] * v[j])
}

/// The value at `t` of a polynomial from its values on the domain.
proof fn lemma_interpolated<E: Groups>(
    u: Seq<int>,
    n: int,
    t: int,
    p: Seq<int>,
    values: Seq<int>,
)
    requires
        is_lagrange::<E>(u, n, 1, t),
        interpolates::<E>(p, n, 1, values),
    ensures
        cong(eval(p, t), sum(n, |i: int| u[i] * values[i]), E::modulus()),
{
    let r = E::modulus();
    E::modulus_bound();
    let on_domain = values_on_domain::<E>(p, n, 1);
    assert(cong(eval(p, t), dot(u, on_domain), r));
    let f = |i: int| u[i] * on_domain[i];
    let g = |i: int| u[i] * values[i];
    assert forall|i: int| 0 <= i < n implies cong(#[trigger] f(i), g(i), r) by {
        assert(on_domain[i] == eval(p, domain_point::<E>(n, 1, i)));
        lemma_cong_mul(u[i], u[i], on_domain[i], values[i], r);
    }
    lemma_sum_cong(n, f, g, r);
}

/// The weighted sum of the columns of the rows is the value at `t` of the
/// polynomial of the program.
pub proof fn lemma_weighted_rows<E: Groups>(
    rows: Seq<Row>,
    z: Seq<int>,
    n: int,
    t: int,
    u: Seq<int>,
    v: Seq<int>,
    q: Seq<int>,
)
    requires
        rows_within(rows, z.len() as int),
        rows.len() <= n,
        is_lagrange::<E>(u, n, 1, t),
        interpolates::<E>(q, n, 1, row_values(rows, z, n)),
        forall|j: int| 0 <= j < z.len() ==> cong(#[trigger] v[j], column(rows, u, j), E::modulus()),
    ensures
        cong(weighted(v, z), eval(q, t), E::modulus()),
{
    let r = E::modulus();
    let m = rows.len() as int;
    let values = row_values(rows, z, n);
    E::modulus_bound();
    lemma_interpolated::<E>(u, n, t, q, values);
    let f = |j: int| z[j] * v[j];
    let g = |j: int| z[j] * column(rows, u, j);
    assert forall|j: int| 0 <= j < z.len() implies cong(#[trigger] f(j), g(j), r) by {
        assert(cong(v[j], column(rows, u, j), r));
        lemma_cong_mul(z[j], z[j], v[j], column(rows, u, j), r);
    }
    lemma_sum_cong(z.len() as int, f, g, r);
    lemma_columns(rows, u, z);
    let all = |i: int| u[i] * values[i];
    lemma_sum_split(m, n - m, all);
    let rest = |i: int| all(m + i);
    assert forall|i: int| 0 <= i < n - m implies #[trigger] rest(i) == 0 by {
        assert(u[m + i] * 0 == 0) by (nonlinear_arith);
    }
    lemma_sum_zero(n - m, rest);
    lemma_sum_eq(m, all, |i: int| u[i] * row_eval(rows[i], z));
}

/// The same for the left factors.
pub proof fn lemma_weighted_left<E: Groups>(
    cs: R1cs,
    z: Seq<int>,
    n: int,
    t: int,
    u: Seq<int>,
    v: Seq<int>,
    p: Seq<int>,
)
    requires
        cs.wf(),
        z.len() == cs.num_variables(),
        cs.num_points() <= n,
        is_lagrange::<E>(u, n, 1, t),
        interpolates::<E>(p, n, 1, left_values(cs, z, n)),
        forall|j: int|
            0 <= j < z.len() ==> cong(#[trigger] v[j], left_column(cs, u, j), E::modulus()),
    ensures
        cong(weighted(v, z), eval(p, t), E::modulus()),
{
    let r = E::modulus();
    let m = cs.num_constraints();
    let l = cs.num_instance;
    let nv = z.len() as int;
    let values = left_values(cs, z, n);
    E::modulus_bound();
    lemma_interpolated::<E>(u, n, t, p, values);
    let f = |j: int| z[j] * v[j];
    let g = |j: int| z[j] * left_column(cs, u, j);
    assert forall|j: int| 0 <= j < nv implies cong(#[trigger] f(j), g(j), r) by {
        assert(cong(v[j], left_column(cs, u, j), r));
        lemma_cong_mul(z[j], z[j], v[j], left_column(cs, u, j), r);
    }
    lemma_sum_cong(nv, f, g, r);
    // The columns of the rows, and the points of the instance.
    let of_rows = |j: int| z[j] * column(cs.a, u, j);
    let of_instance = |j: int| z[j] * instance_point(cs, u, j);
    assert forall|j: int| 0 <= j < nv implies #[trigger] g(j) == of_rows(j) + of_instance(j) by {
        let (x, y, w) = (z[j], column(cs.a, u, j), instance_point(cs, u, j));
        assert(x * (y + w) == x * y + x * w) by (nonlinear_arith);
    }
    lemma_sum_eq(nv, g, |j: int| of_rows(j) + of_instance(j));
    lemma_sum_add(nv, of_rows, of_instance);
    lemma_columns(cs.a, u, z);
    lemma_sum_split(l, nv - l, of_instance);
    let beyond = |j: int| of_instance(l + j);
    assert forall|j: int| 0 <= j < nv - l implies #[trigger] beyond(j) == 0 by {
        assert(z[l + j] * 0 == 0) by (nonlinear_arith);
    }
    lemma_sum_zero(nv - l, beyond);
    // The values on the domain, in three stretches.
    let all = |i: int| u[i] * values[i];
    lemma_sum_split(m, n - m, all);
    let after_rows = |i: int| all(m + i);
    lemma_sum_split(l, n - m - l, after_rows);
    let after_points = |i: int| after_rows(l + i);
    assert forall|i: int| 0 <= i < n - m - l implies #[trigger] after_points(i) == 0 by {
        assert(u[m + (l + i)] * 0 == 0) by (nonlinear_arith);
    }
    lemma_sum_zero(n - m - l, after_points);
    lemma_sum_eq(m, all, |i: int| u[i] * row_eval(cs.a[i], z));
    assert forall|i: int| 0 <= i < l implies #[trigger] after_rows(i) == of_instance(i) by {
        let (x, y) = (u[m + i], z[i]);
        assert(x * y == y * x) by (nonlinear_arith);
    }
    lemma_sum_eq(l, after_rows, of_instance);
}

/// The coefficient of the point that a variable of the instance has of its own.
spec fn instance_point(cs: R1cs, u: Seq<int>, j: int) -> int {
    if j < cs.num_instance {
        u[cs.num_constraints() + j]
    } else {
        0
    }
}

// ---------------------------------------------------------------------------
// The elements of the key
// ---------------------------------------------------------------------------

/// An inner product with a query whose elements, times `k`, are multiples of `g`.
proof fn lemma_dot_query(query: Seq<int>, v: Seq<int>, z: Seq<int>, k: int, g: int, r: int)
    requires
        r > 0,
        query.len() == z.len(),
        forall|j: int| 0 <= j < z.len() ==> cong(#[trigger] query[j] * k, g * v[j], r),
    ensures
        cong(dot(query, z) * k, g * weighted(v, z), r),
{
    let n = z.len() as int;
    let f = |j: int| query[j] * z[j];
    let fk = |j: int| k * f(j);
    let h = |j: int| z[j] * v[j];
    let gh = |j: int| g * h(j);
    assert forall|j: int| 0 <= j < n implies cong(#[trigger] fk(j), gh(j), r) by {
        let (q, x, y) = (query[j], z[j], v[j]);
        assert(cong(query[j] * k, g * v[j], r));
        lemma_cong_mul(q * k, g * y, x, x, r);
        assert(k * (q * x) == (q * k) * x) by (nonlinear_arith);
        assert(g * (x * y) == (g * y) * x) by (nonlinear_arith);
    }
    lemma_sum_cong(n, fk, gh, r);
    lemma_sum_scale(n, k, f);
    lemma_sum_scale(n, g, h);
    let d = dot(query, z);
    assert(k * d == d * k) by (nonlinear_arith);
}

proof fn lemma_dot_commutes(xs: Seq<int>, ys: Seq<int>)
    requires
        xs.len() == ys.len(),
    ensures
        dot(xs, ys) == dot(ys, xs),
{
    let f = |j: int| xs[j] * ys[j];
    let g = |j: int| ys[j] * xs[j];
    assert forall|j: int| 0 <= j < xs.len() implies #[trigger] f(j) == g(j) by {
        let (x, y) = (xs[j], ys[j]);
        assert(x * y == y * x) by (nonlinear_arith);
    }
    lemma_sum_eq(xs.len() as int, f, g);
}

/// The first element of a query, plus the multiples of the others by all variables
/// but the constant one.
proof fn lemma_first_and_rest(query: Seq<int>, z: Seq<int>)
    requires
        query.len() == z.len(),
        z.len() > 0,
        z[0] == 1,
    ensures
        query[0] + dot(query.drop_first(), z.drop_first()) == dot(query, z),
{
    let n = z.len() - 1;
    let f = |j: int| query[j] * z[j];
    lemma_sum_split(1, n, f);
    assert(sum(1, f) == sum(0, f) + f(0));
    let shifted = |j: int| f(1 + j);
    let (qs, zs) = (query.drop_first(), z.drop_first());
    lemma_sum_eq(n, shifted, |j: int| qs[j] * zs[j]);
}

/// The weighted sum of what the key holds of all variables.
proof fn lemma_weighted_abc(
    k: Trapdoor,
    a: Seq<int>,
    b: Seq<int>,
    c: Seq<int>,
    instance: Seq<int>,
    witness: Seq<int>,
)
    ensures
        ({
            let l = instance.len();
            let z = instance + witness;
            let of_instance = Seq::new(l, |j: int| abc(k, a, b, c, j));
            let of_witness = Seq::new(witness.len(), |j: int| abc(k, a, b, c, l + j));
            weighted(of_instance, instance) + weighted(of_witness, witness) == k.beta * weighted(
                a,
                z,
            ) + k.alpha * weighted(b, z) + weighted(c, z)
        }),
{
    let l = instance.len() as int;
    let m = witness.len() as int;
    let z = instance + witness;
    let of_instance = Seq::new(instance.len(), |j: int| abc(k, a, b, c, j));
    let of_witness = Seq::new(witness.len(), |j: int| abc(k, a, b, c, l + j));
    let fa = |j: int| z[j] * a[j];
    let fb = |j: int| z[j] * b[j];
    let fc = |j: int| z[j] * c[j];
    let ka = |j: int| k.beta * fa(j);
    let kb = |j: int| k.alpha * fb(j);
    let kab = |j: int| ka(j) + kb(j);
    let all = |j: int| z[j] * abc(k, a, b, c, j);
    let parts = |j: int| kab(j) + fc(j);
    assert forall|j: int| 0 <= j < l + m implies #[trigger] all(j) == parts(j) by {
        let (x, p, q, s, be, al) = (z[j], a[j], b[j], c[j], k.beta, k.alpha);
        assert(x * (be * p + al * q + s) == be * (x * p) + al * (x * q) + x * s)
            by (nonlinear_arith);
    }
    lemma_sum_eq(l + m, all, parts);
    lemma_sum_add(l + m, kab, fc);
    lemma_sum_add(l + m, ka, kb);
    lemma_sum_scale(l + m, k.beta, fa);
    lemma_sum_scale(l + m, k.alpha, fb);
    lemma_sum_split(l, m, all);
    lemma_sum_eq(l, all, |j: int| instance[j] * of_instance[j]);
    let rest = |j: int| all(l + j);
    lemma_sum_eq(m, rest, |j: int| witness[j] * of_witness[j]);
}

/// The inner product of the quotient with its query.
proof fn lemma_dot_quotient(
    h_query: Seq<int>,
    h: Seq<int>,
    t: int,
    zt: int,
    delta: int,
    g: int,
    r: int,
)
    requires
        r > 0,
        h.len() > 0,
        h_query.len() == h.len() - 1,
        h[h.len() - 1] == 0,
        forall|i: int|
            0 <= i < h_query.len() ==> cong(
                #[trigger] h_query[i] * delta,
                g * (zt * pow(t, i as nat)),
                r,
            ),
    ensures
        cong(dot(h_query, h) * delta, g * (zt * eval(h, t)), r),
{
    let n = h.len() - 1;
    let low = h.take(n);
    let powers = Seq::new(n as nat, |i: int| zt * pow(t, i as nat));
    assert forall|i: int| 0 <= i < low.len() implies cong(
        #[trigger] h_query[i] * delta,
        g * powers[i],
        r,
    ) by {
    }
    lemma_dot_query(h_query, powers, low, delta, g, r);
    lemma_sum_eq(n, |i: int| h_query[i] * h[i], |i: int| h_query[i] * low[i]);
    lemma_eval_is_sum(h, t);
    let term = |i: int| h[i] * pow(t, i as nat);
    assert(sum(n + 1, term) == sum(n, term) + term(n));
    assert(0 * pow(t, n as nat) == 0) by (nonlinear_arith);
    lemma_sum_scale(n, zt, term);
    let scaled = |i: int| zt * term(i);
    let weights = |i: int| low[i] * powers[i];
    assert forall|i: int| 0 <= i < n implies #[trigger] weights(i) == scaled(i) by {
        let (x, y) = (h[i], pow(t, i as nat));
        assert(x * (zt * y) == zt * (x * y)) by (nonlinear_arith);
    }
    lemma_sum_eq(n, weights, scaled);
}

/// What the `a` and `b` elements of a proof are multiples of.
proof fn lemma_combination(
    el_delta: int,
    delta: int,
    zeta: int,
    rr: int,
    query: Seq<int>,
    v: Seq<int>,
    el_param: int,
    param: int,
    z: Seq<int>,
    g: int,
    r: int,
)
    requires
        r > 0,
        z.len() > 0,
        z[0] == 1,
        query.len() == z.len(),
        forall|j: int| 0 <= j < z.len() ==> cong(#[trigger] query[j], g * v[j], r),
        cong(el_delta, g * delta, r),
        cong(el_param, g * param, r),
    ensures
        cong(
            combination((el_delta * zeta) * rr, query, el_param, z.drop_first()),
            g * (param + weighted(v, z) + rr * (zeta * delta)),
            r,
        ),
{
    assert forall|j: int| 0 <= j < z.len() implies cong(#[trigger] query[j] * 1, g * v[j], r) by {
        assert(cong(query[j], g * v[j], r));
    }
    lemma_dot_query(query, v, z, 1, g, r);
    lemma_first_and_rest(query, z);
    let (d, w) = (dot(query, z), weighted(v, z));
    lemma_cong_mul(el_delta, g * delta, zeta, zeta, r);
    lemma_cong_mul(el_delta * zeta, (g * delta) * zeta, rr, rr, r);
    lemma_cong_add((el_delta * zeta) * rr, ((g * delta) * zeta) * rr, d, g * w, r);
    lemma_cong_add(
        (el_delta * zeta) * rr + d,
        ((g * delta) * zeta) * rr + g * w,
        el_param,
        g * param,
        r,
    );
    assert(((g * delta) * zeta) * rr == g * (rr * (zeta * delta))) by (nonlinear_arith);
    let e = rr * (zeta * delta);
    assert(g * e + g * w + g * param == g * (param + w + e)) by (nonlinear_arith);
}

/// The instance map and the witness map agree at every point: the weighted values of
/// the polynomials of all variables at `t` satisfy the equation of the program, with
/// the value of the quotient there.
pub proof fn lemma_program_at_point<E: Groups>(
    cs: R1cs,
    z: Seq<int>,
    h: Seq<int>,
    n: int,
    t: int,
    a: Seq<int>,
    b: Seq<int>,
    c: Seq<int>,
)
    requires
        cs.wf(),
        z.len() == cs.num_variables(),
        E::domain_size(cs.num_points()) == Some(n),
        is_instance_map::<E>(cs, t, n, a, b, c),
        is_witness_map::<E>(cs, z, h),
        is_quotient::<E>(cs, z, h),
    ensures
        cong(
            weighted(a, z) * weighted(b, z) - weighted(c, z),
            (pow(t, n as nat) - 1) * eval(h, t),
            E::modulus(),
        ),
{
    let r = E::modulus();
    E::modulus_bound();
    E::domain_size_bound(cs.num_points());
    let u = choose|u: Seq<int>| #[trigger]
        is_lagrange::<E>(u, n, 1, t) && forall|j: int|
            0 <= j < cs.num_variables() ==> {
                &&& cong(#[trigger] a[j], left_column(cs, u, j), r)
                &&& cong(b[j], column(cs.b, u, j), r)
                &&& cong(c[j], column(cs.c, u, j), r)
            };
    let (p, q, s) = choose|p: Seq<int>, q: Seq<int>, s: Seq<int>| #[trigger]
        is_program::<E>(cs, z, n, p, q, s) && divides_on_coset::<E>(n, p, q, s, h);
    assert forall|j: int| 0 <= j < z.len() implies cong(#[trigger] b[j], column(cs.b, u, j), r) by {
        assert(cong(a[j], left_column(cs, u, j), r));
    }
    assert forall|j: int| 0 <= j < z.len() implies cong(#[trigger] c[j], column(cs.c, u, j), r) by {
        assert(cong(a[j], left_column(cs, u, j), r));
    }
    lemma_weighted_left::<E>(cs, z, n, t, u, a, p);
    lemma_weighted_rows::<E>(cs.b, z, n, t, u, b, q);
    lemma_weighted_rows::<E>(cs.c, z, n, t, u, c, s);
    lemma_cong_mul(weighted(a, z), eval(p, t), weighted(b, z), eval(q, t), r);
    lemma_cong_sub(
        weighted(a, z) * weighted(b, z),
        eval(p, t) * eval(q, t),
        weighted(c, z),
        eval(s, t),
        r,
    );
    let (x, y) = (eval(h, t), pow(t, n as nat) - 1);
    assert(cong(eval(p, t) * eval(q, t) - eval(s, t), x * y, r));
    assert(x * y == y * x) by (nonlinear_arith);
}

/// An honest proof of a true statement is accepted: where the key was made for the
/// system, the instance starts with the constant one and `h` is the quotient of
/// the program, the proof is valid for the rest of the instance, whatever the
/// randomness.
pub proof fn lemma_completeness<E: Groups>(
    pk: ProvingKeyModel,
    cs: R1cs,
    k: Trapdoor,
    instance: Seq<int>,
    witness: Seq<int>,
    h: Seq<int>,
    rr: int,
    ss: int,
    zeta: int,
    proof: ProofModel,
)
    requires
        cs.wf(),
        instance.len() == cs.num_instance,
        witness.len() == cs.num_witness,
        instance[0] == 1,
        is_key::<E>(pk, cs, k),
        is_witness_map::<E>(cs, instance + witness, h),
        is_quotient::<E>(cs, instance + witness, h),
        is_proof::<E>(pk, instance, witness, h, rr, ss, zeta, proof),
    ensures
        fits_inputs(pk.vk, instance.drop_first()),
        accepts::<E>(pk.vk, proof, instance.drop_first()),
{
    let r = E::modulus();
    let z = instance + witness;
    let inputs = instance.drop_first();
    let x = inputs + witness;
    assert(x =~= z.drop_first());
    E::modulus_bound();
    let n = E::domain_size(cs.num_points())->0;
    E::domain_size_bound(cs.num_points());
    let (a, b, c) = choose|a: Seq<int>, b: Seq<int>, c: Seq<int>| #[trigger]
        is_instance_map::<E>(cs, k.t, n, a, b, c) && has_elements::<E>(pk, cs, k, n, a, b, c);
    let (sa, sb, sc) = (weighted(a, z), weighted(b, z), weighted(c, z));
    let zt = pow(k.t, n as nat) - 1;
    let q = zt * eval(h, k.t);
    lemma_program_at_point::<E>(cs, z, h, n, k.t, a, b, c);

    // The elements of the proof.
    let d = zeta * k.delta;
    let (bar_a, bar_b) = (k.alpha + sa + rr * d, k.beta + sb + ss * d);
    lemma_combination(
        pk.delta_g1,
        k.delta,
        zeta,
        rr,
        pk.a_query,
        a,
        pk.vk.alpha_g1,
        k.alpha,
        z,
        k.g1,
        r,
    );
    lemma_combination(
        pk.vk.delta_g2,
        k.delta,
        zeta,
        ss,
        pk.b_g2_query,
        b,
        pk.vk.beta_g2,
        k.beta,
        z,
        k.g2,
        r,
    );
    lemma_combination(
        pk.delta_g1,
        k.delta,
        zeta,
        ss,
        pk.b_g1_query,
        b,
        pk.beta_g1,
        k.beta,
        z,
        k.g1,
        r,
    );
    lemma_cong_mod(combination((pk.delta_g1 * zeta) * rr, pk.a_query, pk.vk.alpha_g1, x), r);
    lemma_cong_mod(
        combination((pk.vk.delta_g2 * zeta) * ss, pk.b_g2_query, pk.vk.beta_g2, x),
        r,
    );
    let el_b1 = b_in_g1(pk, x, rr, ss, zeta);
    if rr == 0 {
        lemma_mul_basics(el_b1);
        lemma_mul_basics(k.g1 * bar_b);
    } else {
        lemma_cong_mul(el_b1, k.g1 * bar_b, rr, rr, r);
    }

    // What the key holds of the instance, of the witness and for the quotient.
    let l = instance.len() as int;
    let of_instance = Seq::new(instance.len(), |j: int| abc(k, a, b, c, j));
    let of_witness = Seq::new(witness.len(), |j: int| abc(k, a, b, c, l + j));
    let (pi, pw) = (weighted(of_instance, instance), weighted(of_witness, witness));
    lemma_weighted_abc(k, a, b, c, instance, witness);
    assert forall|j: int| 0 <= j < instance.len() implies cong(
        #[trigger] pk.vk.gamma_abc_g1[j] * k.gamma,
        k.g1 * of_instance[j],
        r,
    ) by {
    }
    lemma_dot_query(pk.vk.gamma_abc_g1, of_instance, instance, k.gamma, k.g1, r);
    lemma_first_and_rest(pk.vk.gamma_abc_g1, instance);
    lemma_dot_commutes(pk.vk.gamma_abc_g1.drop_first(), inputs);
    assert forall|j: int| 0 <= j < witness.len() implies cong(
        #[trigger] pk.l_query[j] * k.delta,
        k.g1 * of_witness[j],
        r,
    ) by {
    }
    lemma_dot_query(pk.l_query, of_witness, witness, k.delta, k.g1, r);
    lemma_dot_quotient(pk.h_query, h, k.t, zt, k.delta, k.g1, r);

    // The equation.
    let m = challenge::<E>(proof.a, proof.b, proof.delta_prime);
    let dt = delta_term::<E>(pk.vk, proof);
    lemma_c_term(
        r,
        k.g1,
        k.g2,
        k.delta,
        zeta,
        m,
        rr,
        ss,
        bar_a,
        bar_b,
        pw,
        q,
        proof.a,
        el_b1,
        pk.delta_g1,
        dot(pk.l_query, witness),
        dot(pk.h_query, h),
        proof.c,
        pk.vk.delta_g2,
        proof.delta_prime,
    );
    let input = prepared(pk.vk, inputs);
    lemma_equation(
        r,
        k.g1,
        k.g2,
        k.alpha,
        k.beta,
        k.gamma,
        sa,
        sb,
        sc,
        q,
        pi,
        pw,
        d,
        rr,
        ss,
        proof.a,
        proof.b,
        input,
        pk.vk.gamma_g2,
        proof.c * dt,
    );
    let (pc, gamma_g2) = (proof.c, pk.vk.gamma_g2);
    lemma_mul_unary_negation(input, gamma_g2);
    lemma_mul_unary_negation(pc, dt);
}

} // verus!
