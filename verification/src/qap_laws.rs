//! What the reduction to a quadratic arithmetic program is for: laws on the values
//! of its polynomials at the points of the domain and elsewhere.
use crate::algebra::{
    cong, dot, lemma_cong_add, lemma_cong_mod, lemma_cong_mul, lemma_cong_mul_zero,
    lemma_cong_sub, lemma_sum_cong, lemma_sum_single, lemma_sum_split, lemma_sum_zero,
    lemma_zero_mod, sum, views,
};
use crate::completeness::{lemma_weighted_left, lemma_weighted_rows, weighted};
use crate::data_structures::ProvingKey;
use crate::domain::{domain_point, is_lagrange, values_on_domain};
use crate::generator::{has_elements, is_key, Trapdoor};
use crate::groups::{Groups, Scalar};
use crate::lagrange::{lemma_column_at_point, lemma_lagrange_at_point, lemma_lagrange_outside};
use crate::laws::law_terms_add_up;
use crate::polynomial::eval;
use crate::r1cs::{row_coeff, row_eval, row_view, R1cs, Row};
use crate::r1cs_to_qap::{
    column, constraint_value, divides_on_coset, is_instance_map, is_program, is_witness_map,
    left_column, left_values, lemma_witness_map_is_quotient, row_values,
};
use crate::units::{
    is_generator, lemma_generator_no_zero_divisors, lemma_points_distinct, lemma_root_of_unity,
    points, root_of_unity,
};
use vstd::arithmetic::div_mod::{lemma_mod_bound, lemma_mod_equivalence};
use vstd::arithmetic::mul::lemma_mul_basics;
use vstd::arithmetic::power::{lemma_pow0, lemma_pow1, lemma_pow_adds, pow};
use vstd::prelude::*;

verus! {

// ---------------------------------------------------------------------------
// The domain
// ---------------------------------------------------------------------------

/// A domain has at least as many points as were asked for. They start at one, each
/// is the one before times the root of unity, no two of them are the same, and the
/// power of each by the number of points is one. The points of a coset are those of
/// the domain times the offset.
pub proof fn law_domain_points<E: Groups>(k: int, n: int, i: int, j: int, offset: int)
    requires
        is_generator(E::generator(), E::modulus()),
        0 <= k,
        E::domain_size(k) == Some(n),
        0 <= i < j < n,
    ensures
        k <= n,
        domain_point::<E>(n, 1, 0) == 1,
        domain_point::<E>(n, 1, i + 1) == domain_point::<E>(n, 1, i) * root_of_unity(
            E::generator(),
            E::modulus(),
            n,
        ),
        (domain_point::<E>(n, 1, i) - domain_point::<E>(n, 1, j)) % E::modulus() != 0,
        (pow(domain_point::<E>(n, 1, i), n as nat) - 1) % E::modulus() == 0,
        domain_point::<E>(n, offset, i) == offset * domain_point::<E>(n, 1, i),
{
    let (g, r) = (E::generator(), E::modulus());
    let w = root_of_unity(g, r, n);
    E::modulus_bound();
    E::domain_size_bound(k);
    lemma_pow0(w);
    lemma_pow1(w);
    lemma_pow_adds(w, i as nat, 1);
    lemma_mul_basics(pow(w, 0));
    lemma_mul_basics(pow(w, i as nat));
    lemma_mul_basics(pow(w, (i + 1) as nat));
    lemma_mul_basics(pow(w, j as nat));
    lemma_points_distinct(g, r, n);
    assert(points(g, r, n)[i] == pow(w, i as nat));
    assert(points(g, r, n)[j] == pow(w, j as nat));
    lemma_root_of_unity(g, r, n, i as nat);
    lemma_mod_equivalence(pow(pow(w, i as nat), n as nat), 1, r);
}

// ---------------------------------------------------------------------------
// The program and its quotient
// ---------------------------------------------------------------------------

/// The polynomials of the program take the values of the rows at the first points of
/// the domain. At the points after them the first takes the variables of the
/// instance, one each, and vanishes at the others; the other two vanish at both.
pub proof fn law_program_values<E: Groups>(
    cs: R1cs,
    z: Seq<int>,
    n: int,
    p: Seq<int>,
    q: Seq<int>,
    s: Seq<int>,
    i: int,
)
    requires
        is_program::<E>(cs, z, n, p, q, s),
        cs.wf(),
        0 <= i < n,
    ensures
        ({
            let w = pow(root_of_unity(E::generator(), E::modulus(), n), i as nat);
            let (m, l) = (cs.a.len(), cs.num_instance);
            &&& i < m ==> (eval(p, w) - row_eval(cs.a[i], z)) % E::modulus() == 0
            &&& i < m ==> (eval(q, w) - row_eval(cs.b[i], z)) % E::modulus() == 0
            &&& i < m ==> (eval(s, w) - row_eval(cs.c[i], z)) % E::modulus() == 0
            &&& m <= i < m + l ==> (eval(p, w) - z[i - m]) % E::modulus() == 0
            &&& m + l <= i ==> eval(p, w) % E::modulus() == 0
            &&& m <= i ==> eval(q, w) % E::modulus() == 0 && eval(s, w) % E::modulus() == 0
        }),
{
    let r = E::modulus();
    let w = pow(root_of_unity(E::generator(), r, n), i as nat);
    E::modulus_bound();
    lemma_mul_basics(w);
    assert(domain_point::<E>(n, 1, i) == w);
    let (a, b, c) = (
        left_values(cs, z, n)[i],
        row_values(cs.b, z, n)[i],
        row_values(cs.c, z, n)[i],
    );
    assert(cong(eval(p, domain_point::<E>(n, 1, i)), a, r));
    lemma_mod_equivalence(eval(p, w), a, r);
    lemma_mod_equivalence(eval(q, w), b, r);
    lemma_mod_equivalence(eval(s, w), c, r);
    lemma_zero_mod(r);
}

/// The witness map holds as many coefficients as the domain has points. On the coset
/// it takes the values of `p q - s` over `g^n - 1`, for a program of the variables.
pub proof fn law_witness_map_on_coset<E: Groups>(cs: R1cs, z: Seq<int>, h: Seq<int>)
    requires
        is_witness_map::<E>(cs, z, h),
    ensures
        E::domain_size(cs.a.len() + cs.num_instance) == Some(h.len() as int),
        exists|p: Seq<int>, q: Seq<int>, s: Seq<int>| #[trigger]
            is_program::<E>(cs, z, h.len() as int, p, q, s) && forall|i: int|
                0 <= i < h.len() ==> ({
                    let x = E::generator() * #[trigger] pow(
                        root_of_unity(E::generator(), E::modulus(), h.len() as int),
                        i as nat,
                    );
                    (eval(h, x) * (pow(E::generator(), h.len()) - 1) - (eval(p, x) * eval(q, x)
                        - eval(s, x))) % E::modulus() == 0
                }),
{
    let r = E::modulus();
    let n = h.len() as int;
    E::modulus_bound();
    let (p, q, s) = choose|p: Seq<int>, q: Seq<int>, s: Seq<int>| #[trigger]
        is_program::<E>(cs, z, n, p, q, s) && divides_on_coset::<E>(n, p, q, s, h);
    assert forall|i: int| 0 <= i < n implies ({
        let x = E::generator() * #[trigger] pow(root_of_unity(E::generator(), r, n), i as nat);
        (eval(h, x) * (pow(E::generator(), n as nat) - 1) - (eval(p, x) * eval(q, x) - eval(s, x)))
            % r == 0
    }) by {
        let x = domain_point::<E>(n, E::generator(), i);
        lemma_mod_equivalence(
            eval(h, x) * (pow(E::generator(), n as nat) - 1),
            eval(p, x) * eval(q, x) - eval(s, x),
            r,
        );
    }
}

/// Where the variables satisfy each constraint, the witness map is the quotient:
/// `p q - s = h (x^n - 1)` at every point and for every program of the variables, and
/// its last coefficient is zero.
pub proof fn law_witness_map_divides<E: Groups>(
    cs: R1cs,
    z: Seq<int>,
    h: Seq<int>,
    p: Seq<int>,
    q: Seq<int>,
    s: Seq<int>,
    x: int,
)
    requires
        is_generator(E::generator(), E::modulus()),
        cs.wf(),
        is_witness_map::<E>(cs, z, h),
        is_program::<E>(cs, z, h.len() as int, p, q, s),
        forall|i: int| 0 <= i < h.len() ==> 0 <= #[trigger] h[i] < E::modulus(),
        forall|i: int|
            0 <= i < cs.a.len() ==> (row_eval(#[trigger] cs.a[i], z) * row_eval(cs.b[i], z)
                - row_eval(cs.c[i], z)) % E::modulus() == 0,
    ensures
        h.len() > 0,
        h.last() == 0,
        (eval(p, x) * eval(q, x) - eval(s, x) - eval(h, x) * (pow(x, h.len()) - 1)) % E::modulus()
            == 0,
{
    let r = E::modulus();
    E::modulus_bound();
    E::domain_size_bound(cs.num_points());
    crate::laws::law_satisfied(cs, z, r);
    lemma_witness_map_is_quotient::<E>(cs, z, h);
    let (u, v) = (
        eval(p, x) * eval(q, x) - eval(s, x),
        eval(h, x) * (pow(x, h.len()) - 1),
    );
    assert(cong(u, v, r));
    lemma_mod_equivalence(u, v, r);
}

// ---------------------------------------------------------------------------
// The instance map
// ---------------------------------------------------------------------------

/// The instance map evaluates polynomials at the secret point. The one of variable
/// `j` among the left factors is the polynomial, of lower degree than the domain has
/// points, that takes the coefficient of `j` in each row at the point of that row,
/// one at the point that belongs to `j` where `j` is in the instance, and zero at all
/// other points. Those among the right factors and the products take the
/// coefficients, and zero elsewhere.
pub proof fn law_instance_map_evaluates<E: Groups>(
    cs: R1cs,
    t: int,
    n: int,
    a: Seq<int>,
    b: Seq<int>,
    c: Seq<int>,
    j: int,
    p: Seq<int>,
    q: Seq<int>,
    s: Seq<int>,
)
    requires
        cs.wf(),
        cs.a.len() + cs.num_instance <= n,
        is_instance_map::<E>(cs, t, n, a, b, c),
        0 <= j < cs.num_instance + cs.num_witness,
        p.len() <= n,
        q.len() <= n,
        s.len() <= n,
        forall|i: int|
            0 <= i < n ==> ({
                let w = #[trigger] pow(
                    root_of_unity(E::generator(), E::modulus(), n),
                    i as nat,
                );
                &&& i < cs.a.len() ==> (eval(p, w) - row_coeff(cs.a[i], j)) % E::modulus() == 0
                &&& i >= cs.a.len() && j < cs.num_instance && i == cs.a.len() + j ==> (eval(p, w)
                    - 1) % E::modulus() == 0
                &&& i >= cs.a.len() && !(j < cs.num_instance && i == cs.a.len() + j) ==> eval(p, w)
                    % E::modulus() == 0
                &&& i < cs.a.len() ==> (eval(q, w) - row_coeff(cs.b[i], j)) % E::modulus() == 0
                &&& i >= cs.a.len() ==> eval(q, w) % E::modulus() == 0
                &&& i < cs.a.len() ==> (eval(s, w) - row_coeff(cs.c[i], j)) % E::modulus() == 0
                &&& i >= cs.a.len() ==> eval(s, w) % E::modulus() == 0
            }),
    ensures
        a.len() == cs.num_instance + cs.num_witness,
        b.len() == cs.num_instance + cs.num_witness,
        c.len() == cs.num_instance + cs.num_witness,
        (a[j] - eval(p, t)) % E::modulus() == 0,
        (b[j] - eval(q, t)) % E::modulus() == 0,
        (c[j] - eval(s, t)) % E::modulus() == 0,
{
    let r = E::modulus();
    let m = cs.a.len() as int;
    E::modulus_bound();
    let u = choose|u: Seq<int>| #[trigger]
        is_lagrange::<E>(u, n, 1, t) && forall|j: int|
            0 <= j < cs.num_variables() ==> {
                &&& cong(#[trigger] a[j], left_column(cs, u, j), r)
                &&& cong(b[j], column(cs.b, u, j), r)
                &&& cong(c[j], column(cs.c, u, j), r)
            };
    assert(cong(a[j], left_column(cs, u, j), r));
    let extra = if j < cs.num_instance {
        m + j
    } else {
        -1
    };
    lemma_from_values::<E>(u, n, t, cs.a, j, extra, p);
    lemma_from_values::<E>(u, n, t, cs.b, j, -1, q);
    lemma_from_values::<E>(u, n, t, cs.c, j, -1, s);
    lemma_mod_equivalence(a[j], eval(p, t), r);
    lemma_mod_equivalence(b[j], eval(q, t), r);
    lemma_mod_equivalence(c[j], eval(s, t), r);
}

/// The value at `t` of a polynomial with the coefficients of a variable as values at
/// the points of the rows, and one at the point `extra`, if there is such a point.
proof fn lemma_from_values<E: Groups>(
    u: Seq<int>,
    n: int,
    t: int,
    rows: Seq<Row>,
    j: int,
    extra: int,
    p: Seq<int>,
)
    requires
        is_lagrange::<E>(u, n, 1, t),
        rows.len() <= n,
        p.len() <= n,
        extra == -1 || rows.len() <= extra < n,
        forall|i: int|
            0 <= i < n ==> ({
                let w = #[trigger] pow(
                    root_of_unity(E::generator(), E::modulus(), n),
                    i as nat,
                );
                &&& i < rows.len() ==> (eval(p, w) - row_coeff(rows[i], j)) % E::modulus() == 0
                &&& i >= rows.len() && i == extra ==> (eval(p, w) - 1) % E::modulus() == 0
                &&& i >= rows.len() && i != extra ==> eval(p, w) % E::modulus() == 0
            }),
    ensures
        cong(
            column(rows, u, j) + (if extra >= 0 {
                u[extra]
            } else {
                0
            }),
            eval(p, t),
            E::modulus(),
        ),
{
    let r = E::modulus();
    let m = rows.len() as int;
    E::modulus_bound();
    lemma_zero_mod(r);
    let vals = values_on_domain::<E>(p, n, 1);
    let f = |i: int| u[i] * vals[i];
    let in_rows = |i: int| u[i] * row_coeff(rows[i], j);
    lemma_sum_split(m, n - m, f);
    assert forall|i: int| 0 <= i < n implies #[trigger] vals[i] == eval(
        p,
        pow(root_of_unity(E::generator(), r, n), i as nat),
    ) by {
        lemma_mul_basics(pow(root_of_unity(E::generator(), r, n), i as nat));
    }
    assert forall|i: int| 0 <= i < m implies cong(#[trigger] f(i), in_rows(i), r) by {
        let v = eval(p, pow(root_of_unity(E::generator(), r, n), i as nat));
        assert(vals[i] == v);
        lemma_mod_equivalence(v, row_coeff(rows[i], j), r);
        lemma_cong_mul(u[i], u[i], vals[i], row_coeff(rows[i], j), r);
    }
    lemma_sum_cong(m, f, in_rows, r);
    let rest = |i: int| f(m + i);
    let unit = |i: int| if m + i == extra { u[extra] } else { 0 };
    assert forall|i: int| 0 <= i < n - m implies cong(#[trigger] rest(i), unit(i), r) by {
        let v = eval(p, pow(root_of_unity(E::generator(), r, n), (m + i) as nat));
        assert(vals[m + i] == v);
        lemma_mul_basics(u[m + i]);
        if m + i == extra {
            lemma_mod_equivalence(v, 1, r);
            lemma_cong_mul(u[m + i], u[m + i], v, 1, r);
        } else {
            lemma_cong_mul_zero(u[m + i], v, r);
        }
    }
    lemma_sum_cong(n - m, rest, unit, r);
    if extra >= 0 {
        lemma_sum_single(n - m, extra - m, unit);
    } else {
        lemma_sum_zero(n - m, unit);
    }
    lemma_cong_add(sum(m, f), sum(m, in_rows), sum(n - m, rest), sum(n - m, unit), r);
    assert(cong(eval(p, t), dot(u, vals), r));
}

/// The two maps agree: weighted with the variables, the values that the instance map
/// gives for them add up to those of the polynomials of the program at the same
/// point, whatever the variables are.
pub proof fn law_maps_agree<E: Groups>(
    cs: R1cs,
    z: Seq<int>,
    t: int,
    n: int,
    a: Seq<int>,
    b: Seq<int>,
    c: Seq<int>,
    p: Seq<int>,
    q: Seq<int>,
    s: Seq<int>,
)
    requires
        cs.wf(),
        cs.a.len() + cs.num_instance <= n,
        z.len() == cs.num_instance + cs.num_witness,
        is_instance_map::<E>(cs, t, n, a, b, c),
        is_program::<E>(cs, z, n, p, q, s),
    ensures
        (sum(z.len() as int, |j: int| z[j] * a[j]) - eval(p, t)) % E::modulus() == 0,
        (sum(z.len() as int, |j: int| z[j] * b[j]) - eval(q, t)) % E::modulus() == 0,
        (sum(z.len() as int, |j: int| z[j] * c[j]) - eval(s, t)) % E::modulus() == 0,
{
    let r = E::modulus();
    E::modulus_bound();
    let u = choose|u: Seq<int>| #[trigger]
        is_lagrange::<E>(u, n, 1, t) && forall|j: int|
            0 <= j < cs.num_variables() ==> {
                &&& cong(#[trigger] a[j], left_column(cs, u, j), r)
                &&& cong(b[j], column(cs.b, u, j), r)
                &&& cong(c[j], column(cs.c, u, j), r)
            };
    assert forall|j: int| 0 <= j < z.len() implies cong(#[trigger] b[j], column(cs.b, u, j), r) by {
        assert(cong(a[j], left_column(cs, u, j), r));
    }
    assert forall|j: int| 0 <= j < z.len() implies cong(#[trigger] c[j], column(cs.c, u, j), r) by {
        assert(cong(a[j], left_column(cs, u, j), r));
    }
    lemma_weighted_left::<E>(cs, z, n, t, u, a, p);
    lemma_weighted_rows::<E>(cs.b, z, n, t, u, b, q);
    lemma_weighted_rows::<E>(cs.c, z, n, t, u, c, s);
    lemma_mod_equivalence(weighted(a, z), eval(p, t), r);
    lemma_mod_equivalence(weighted(b, z), eval(q, t), r);
    lemma_mod_equivalence(weighted(c, z), eval(s, t), r);
}

/// Input consistency. At the point of number `i` of the domain, the polynomials of a
/// variable take the coefficients of the variable in the row of that number, if there
/// is one. Among the left factors, the polynomial of the variable `j` of the instance
/// takes the value one at the point that comes `j` after those of the rows, and there
/// the polynomials of all other variables are zero.
pub proof fn law_input_consistency<E: Groups>(
    cs: R1cs,
    t: int,
    n: int,
    a: Seq<int>,
    b: Seq<int>,
    c: Seq<int>,
    i: int,
    j: int,
)
    requires
        is_generator(E::generator(), E::modulus()),
        cs.wf(),
        E::domain_size(cs.a.len() + cs.num_instance) == Some(n),
        is_instance_map::<E>(cs, t, n, a, b, c),
        0 <= i < n,
        (t - pow(root_of_unity(E::generator(), E::modulus(), n), i as nat)) % E::modulus() == 0,
        0 <= j < cs.num_instance + cs.num_witness,
    ensures
        i < cs.a.len() ==> (a[j] - row_coeff(cs.a[i], j)) % E::modulus() == 0,
        i < cs.a.len() ==> (b[j] - row_coeff(cs.b[i], j)) % E::modulus() == 0,
        i < cs.a.len() ==> (c[j] - row_coeff(cs.c[i], j)) % E::modulus() == 0,
        j < cs.num_instance && i == cs.a.len() + j ==> (a[j] - 1) % E::modulus() == 0,
        cs.a.len() <= i && !(j < cs.num_instance && i == cs.a.len() + j) ==> a[j] % E::modulus()
            == 0,
        cs.a.len() <= i ==> b[j] % E::modulus() == 0 && c[j] % E::modulus() == 0,
{
    let r = E::modulus();
    let m = cs.a.len() as int;
    E::modulus_bound();
    E::domain_size_bound(m + cs.num_instance);
    lemma_zero_mod(r);
    let u = choose|u: Seq<int>| #[trigger]
        is_lagrange::<E>(u, n, 1, t) && forall|j: int|
            0 <= j < cs.num_variables() ==> {
                &&& cong(#[trigger] a[j], left_column(cs, u, j), r)
                &&& cong(b[j], column(cs.b, u, j), r)
                &&& cong(c[j], column(cs.c, u, j), r)
            };
    assert(cong(a[j], left_column(cs, u, j), r));
    lemma_lagrange_at_point::<E>(u, n, t, i);
    lemma_column_at_point(cs.a, u, j, n, i, r);
    lemma_column_at_point(cs.b, u, j, n, i, r);
    lemma_column_at_point(cs.c, u, j, n, i, r);
    let extra = if j < cs.num_instance {
        u[m + j]
    } else {
        0
    };
    let at_extra: int = if j < cs.num_instance && i == m + j {
        1
    } else {
        0
    };
    let in_rows = if i < m {
        row_coeff(cs.a[i], j)
    } else {
        0
    };
    lemma_mod_equivalence(u[i], 1, r);
    lemma_cong_add(column(cs.a, u, j), in_rows, extra, at_extra, r);
    lemma_mod_equivalence(a[j], in_rows + at_extra, r);
    if i < m {
        lemma_mod_equivalence(b[j], row_coeff(cs.b[i], j), r);
        lemma_mod_equivalence(c[j], row_coeff(cs.c[i], j), r);
    }
}

/// Each variable `j` of the instance is bound by its element of the verifying key,
/// whatever constraints mention it: up to `gamma`, that element is the value at the
/// secret point of `beta p + alpha q + s`, where `p`, `q` and `s` are the polynomials
/// of the variable. That polynomial is not zero: at the point of its own that `j` has
/// in the domain it takes the value `beta`. So the element is the identity at no other
/// secret points than the roots of a polynomial that is not zero.
pub proof fn law_input_is_bound<E: Groups>(
    pk: ProvingKey<E>,
    cs: R1cs,
    k: Trapdoor,
    n: int,
    j: int,
    p: Seq<int>,
    q: Seq<int>,
    s: Seq<int>,
)
    requires
        is_generator(E::generator(), E::modulus()),
        cs.wf(),
        E::domain_size(cs.a.len() + cs.num_instance) == Some(n),
        is_key::<E>(pk@, cs, k),
        k.g1 % E::modulus() != 0,
        0 <= j < cs.num_instance,
        p.len() <= n,
        q.len() <= n,
        s.len() <= n,
        forall|i: int|
            0 <= i < n ==> ({
                let w = #[trigger] pow(
                    root_of_unity(E::generator(), E::modulus(), n),
                    i as nat,
                );
                &&& i < cs.a.len() ==> (eval(p, w) - row_coeff(cs.a[i], j)) % E::modulus() == 0
                &&& i == cs.a.len() + j ==> (eval(p, w) - 1) % E::modulus() == 0
                &&& i >= cs.a.len() && i != cs.a.len() + j ==> eval(p, w) % E::modulus() == 0
                &&& i < cs.a.len() ==> (eval(q, w) - row_coeff(cs.b[i], j)) % E::modulus() == 0
                &&& i >= cs.a.len() ==> eval(q, w) % E::modulus() == 0
                &&& i < cs.a.len() ==> (eval(s, w) - row_coeff(cs.c[i], j)) % E::modulus() == 0
                &&& i >= cs.a.len() ==> eval(s, w) % E::modulus() == 0
            }),
    ensures
        pk.vk.gamma_abc_g1@[j]@ % E::modulus() == 0 <==> (k.beta * eval(p, k.t) + k.alpha * eval(
            q,
            k.t,
        ) + eval(s, k.t)) % E::modulus() == 0,
        ({
            let w = pow(
                root_of_unity(E::generator(), E::modulus(), n),
                (cs.a.len() + j) as nat,
            );
            (k.beta * eval(p, w) + k.alpha * eval(q, w) + eval(s, w) - k.beta) % E::modulus() == 0
        }),
{
    let r = E::modulus();
    let m = cs.a.len() as int;
    E::modulus_bound();
    E::domain_size_bound(m + cs.num_instance);
    lemma_generator_no_zero_divisors(E::generator(), r);
    let (a, b, c) = choose|a: Seq<int>, b: Seq<int>, c: Seq<int>| #[trigger]
        is_instance_map::<E>(cs, k.t, n, a, b, c) && has_elements::<E>(pk@, cs, k, n, a, b, c);
    law_instance_map_evaluates::<E>(cs, k.t, n, a, b, c, j, p, q, s);
    let (pt, qt, st) = (eval(p, k.t), eval(q, k.t), eval(s, k.t));
    lemma_mod_equivalence(a[j], pt, r);
    lemma_mod_equivalence(b[j], qt, r);
    lemma_mod_equivalence(c[j], st, r);
    lemma_combined(k.beta, k.alpha, a[j], pt, b[j], qt, c[j], st, r);
    let all = k.beta * a[j] + k.alpha * b[j] + c[j];
    let x = pk.vk.gamma_abc_g1@[j]@;
    assert(pk@.vk.gamma_abc_g1[j] == x);
    assert(cong(pk@.vk.gamma_abc_g1[j] * k.gamma, k.g1 * all, r));
    if x % r == 0 {
        lemma_cong_mul_zero(k.gamma, x, r);
        assert((k.g1 * all) % r == 0);
    }
    if all % r == 0 {
        lemma_cong_mul_zero(k.g1, all, r);
        assert((x * k.gamma) % r == 0);
    }
    let w = pow(root_of_unity(E::generator(), r, n), (m + j) as nat);
    lemma_zero_mod(r);
    lemma_mod_equivalence(eval(p, w), 1, r);
    lemma_combined(k.beta, k.alpha, eval(p, w), 1, eval(q, w), 0, eval(s, w), 0, r);
    lemma_mul_basics(k.beta);
    lemma_mul_basics(k.alpha);
    lemma_mod_equivalence(
        k.beta * eval(p, w) + k.alpha * eval(q, w) + eval(s, w),
        k.beta,
        r,
    );
}

/// Combinations of congruent numbers are congruent.
proof fn lemma_combined(
    beta: int,
    alpha: int,
    a: int,
    a2: int,
    b: int,
    b2: int,
    c: int,
    c2: int,
    r: int,
)
    requires
        r > 0,
        cong(a, a2, r),
        cong(b, b2, r),
        cong(c, c2, r),
    ensures
        cong(beta * a + alpha * b + c, beta * a2 + alpha * b2 + c2, r),
{
    lemma_cong_mul(beta, beta, a, a2, r);
    lemma_cong_mul(alpha, alpha, b, b2, r);
    lemma_cong_add(beta * a, beta * a2, alpha * b, alpha * b2, r);
    lemma_cong_add(beta * a + alpha * b, beta * a2 + alpha * b2, c, c2, r);
}

/// A variable of the instance that no constraint mentions is bound all the same: for
/// a secret point outside the domain its element of the verifying key is not the
/// identity.
pub proof fn law_unmentioned_input_is_bound<E: Groups>(
    pk: ProvingKey<E>,
    cs: R1cs,
    k: Trapdoor,
    j: int,
)
    requires
        is_generator(E::generator(), E::modulus()),
        cs.wf(),
        is_key::<E>(pk@, cs, k),
        forall|n: int|
            E::domain_size(cs.a.len() + cs.num_instance) == Some(n) ==> (#[trigger] pow(
                k.t,
                n as nat,
            ) - 1) % E::modulus() != 0,
        k.g1 % E::modulus() != 0,
        k.beta % E::modulus() != 0,
        0 <= j < cs.num_instance,
        forall|i: int|
            0 <= i < cs.a.len() ==> row_coeff(#[trigger] cs.a[i], j) % E::modulus() == 0,
        forall|i: int|
            0 <= i < cs.b.len() ==> row_coeff(#[trigger] cs.b[i], j) % E::modulus() == 0,
        forall|i: int|
            0 <= i < cs.c.len() ==> row_coeff(#[trigger] cs.c[i], j) % E::modulus() == 0,
    ensures
        pk.vk.gamma_abc_g1@[j]@ % E::modulus() != 0,
{
    let r = E::modulus();
    let m = cs.a.len() as int;
    E::modulus_bound();
    E::domain_size_bound(m + cs.num_instance);
    lemma_generator_no_zero_divisors(E::generator(), r);
    lemma_zero_mod(r);
    let n = E::domain_size(cs.num_points())->0;
    let (a, b, c) = choose|a: Seq<int>, b: Seq<int>, c: Seq<int>| #[trigger]
        is_instance_map::<E>(cs, k.t, n, a, b, c) && has_elements::<E>(pk@, cs, k, n, a, b, c);
    let u = choose|u: Seq<int>| #[trigger]
        is_lagrange::<E>(u, n, 1, k.t) && forall|j: int|
            0 <= j < cs.num_variables() ==> {
                &&& cong(#[trigger] a[j], left_column(cs, u, j), r)
                &&& cong(b[j], column(cs.b, u, j), r)
                &&& cong(c[j], column(cs.c, u, j), r)
            };
    assert(cong(a[j], left_column(cs, u, j), r));
    assert((pow(k.t, n as nat) - 1) % r != 0);
    lemma_lagrange_outside::<E>(u, n, k.t, m + j);
    lemma_unmentioned_column(cs.a, u, j, r);
    lemma_unmentioned_column(cs.b, u, j, r);
    lemma_unmentioned_column(cs.c, u, j, r);
    let v = u[m + j];
    lemma_cong_add(column(cs.a, u, j), 0, v, v, r);
    lemma_combined(k.beta, k.alpha, a[j], v, b[j], 0, c[j], 0, r);
    lemma_mul_basics(k.alpha);
    let all = k.beta * a[j] + k.alpha * b[j] + c[j];
    assert((k.beta * v) % r != 0);
    assert(all % r != 0);
    assert((k.g1 * all) % r != 0);
    let x = pk.vk.gamma_abc_g1@[j]@;
    assert(pk@.vk.gamma_abc_g1[j] == x);
    assert(cong(pk@.vk.gamma_abc_g1[j] * k.gamma, k.g1 * all, r));
    if x % r == 0 {
        lemma_cong_mul_zero(k.gamma, x, r);
    }
}

/// A column of a variable that no row mentions is zero.
proof fn lemma_unmentioned_column(rows: Seq<Row>, u: Seq<int>, j: int, r: int)
    requires
        r > 0,
        forall|i: int| 0 <= i < rows.len() ==> row_coeff(#[trigger] rows[i], j) % r == 0,
    ensures
        column(rows, u, j) % r == 0,
{
    let m = rows.len() as int;
    let f = |i: int| u[i] * row_coeff(rows[i], j);
    let zero = |i: int| 0int;
    lemma_zero_mod(r);
    assert forall|i: int| 0 <= i < m implies cong(#[trigger] f(i), zero(i), r) by {
        lemma_cong_mul_zero(u[i], row_coeff(rows[i], j), r);
    }
    lemma_sum_cong(m, f, zero, r);
    lemma_sum_zero(m, zero);
    assert(column(rows, u, j) == sum(m, f));
}

// ---------------------------------------------------------------------------
// The evaluation of a linear combination
// ---------------------------------------------------------------------------

/// No terms evaluate to zero, and one more term adds its coefficient times its
/// variable. The value is reduced.
pub proof fn law_evaluation<E: Groups>(
    terms: Seq<(Scalar<E>, usize)>,
    assignment: Seq<Scalar<E>>,
    k: Scalar<E>,
    j: usize,
)
    requires
        j < assignment.len(),
    ensures
        0 <= constraint_value::<E>(terms, assignment) < E::modulus(),
        terms.len() == 0 ==> constraint_value::<E>(terms, assignment) == 0,
        (constraint_value::<E>(terms.push((k, j)), assignment) - constraint_value::<E>(
            terms,
            assignment,
        ) - k@ * assignment[j as int]@) % E::modulus() == 0,
{
    let r = E::modulus();
    E::modulus_bound();
    let z = views(assignment);
    let row = row_view(terms);
    assert(row_view(terms.push((k, j))) =~= row.push((k@, j as int)));
    law_terms_add_up(row, k@, j as int, z, 0);
    let (v, w, d) = (row_eval(row.push((k@, j as int)), z), row_eval(row, z), k@ * z[j as int]);
    lemma_mod_bound(w, r);
    lemma_zero_mod(r);
    lemma_cong_mod(v, r);
    lemma_cong_mod(w, r);
    lemma_cong_sub(v % r, v, w % r, w, r);
    lemma_cong_sub(v % r - w % r, v - w, d, d, r);
}

} // verus!
