//! The reduction of a rank-one constraint system to a quadratic arithmetic
//! program: to polynomials, of which one must be divisible by another exactly
//! where the system is satisfied.
use crate::algebra::{
    cong, lemma_cong_add, lemma_cong_mod, lemma_cong_mul, lemma_cong_sub, lemma_sum_eq,
    lemma_zero_mod, sum, views,
};
use crate::domain::{domain_point, interpolates, is_lagrange, Domain};
use crate::groups::{Groups, Scalar};
use crate::pairing::Pairing;
use crate::polynomial::eval;
use crate::r1cs::{
    lemma_row_eval_linear, lemma_row_eval_permuted, row_coeff, row_eval, row_view, rows_view,
    rows_within, term_coeff, ConstraintMatrices, ConstraintSystem, R1cs, Row, SynthesisError,
};
use crate::units::{
    is_generator, lemma_generator_no_zero_divisors, lemma_generator_nonzero,
    lemma_generator_power_not_one, lemma_interpolation_unique, lemma_quotient, points,
};
use vstd::arithmetic::div_mod::{lemma_mod_equivalence, lemma_small_mod};
use vstd::arithmetic::power::{lemma1_pow, pow};
use vstd::prelude::*;

verus! {

// ---------------------------------------------------------------------------
// The model
// ---------------------------------------------------------------------------

/// The values on a domain of `n` points of the polynomial for the left factors:
/// one for each constraint, then the instance itself, then zeros.
pub open spec fn left_values(cs: R1cs, z: Seq<int>, n: int) -> Seq<int> {
    Seq::new(
        n as nat,
        |i: int|
            if i < cs.num_constraints() {
                row_eval(cs.a[i], z)
            } else if i < cs.num_points() {
                z[i - cs.num_constraints()]
            } else {
                0
            },
    )
}

/// The values on a domain of `n` points of a polynomial that has one for each of
/// the rows, then zeros.
pub open spec fn row_values(rows: Seq<Row>, z: Seq<int>, n: int) -> Seq<int> {
    Seq::new(
        n as nat,
        |i: int|
            if i < rows.len() {
                row_eval(rows[i], z)
            } else {
                0
            },
    )
}

/// `p`, `q` and `s` are the three polynomials of the program for the variables
/// `z` on a domain of `n` points.
pub open spec fn is_program<E: Groups>(
    cs: R1cs,
    z: Seq<int>,
    n: int,
    p: Seq<int>,
    q: Seq<int>,
    s: Seq<int>,
) -> bool {
    &&& interpolates::<E>(p, n, 1, left_values(cs, z, n))
    &&& interpolates::<E>(q, n, 1, row_values(cs.b, z, n))
    &&& interpolates::<E>(s, n, 1, row_values(cs.c, z, n))
}

/// `h` takes the values of `(p q - s) / (x^n - 1)` on the coset of the domain
/// that the generator of the field starts.
pub open spec fn divides_on_coset<E: Groups>(
    n: int,
    p: Seq<int>,
    q: Seq<int>,
    s: Seq<int>,
    h: Seq<int>,
) -> bool {
    forall|i: int|
        0 <= i < n ==> {
            let x = #[trigger] domain_point::<E>(n, E::generator(), i);
            cong(
                eval(h, x) * (pow(E::generator(), n as nat) - 1),
                eval(p, x) * eval(q, x) - eval(s, x),
                E::modulus(),
            )
        }
}

/// `h` are the coefficients of the polynomial, of degree below the size of the
/// domain, that takes the values of the quotient of the program on the coset.
pub open spec fn is_witness_map<E: Groups>(cs: R1cs, z: Seq<int>, h: Seq<int>) -> bool {
    E::domain_size(cs.num_points()) matches Some(n) && h.len() == n && exists|
        p: Seq<int>,
        q: Seq<int>,
        s: Seq<int>,
    | #[trigger]
        is_program::<E>(cs, z, n, p, q, s) && divides_on_coset::<E>(n, p, q, s, h)
}

/// `h` is the quotient of the program: `p q - s = h (x^n - 1)` everywhere, and it
/// has degree below `n - 1`.
pub open spec fn is_quotient<E: Groups>(cs: R1cs, z: Seq<int>, h: Seq<int>) -> bool {
    E::domain_size(cs.num_points()) matches Some(n) && h.len() == n && h[n - 1] == 0 && forall|
        p: Seq<int>,
        q: Seq<int>,
        s: Seq<int>,
        x: int,
    | #[trigger]
        is_program::<E>(cs, z, n, p, q, s) ==> cong(
            eval(p, x) * eval(q, x) - eval(s, x),
            #[trigger] eval(h, x) * (pow(x, n as nat) - 1),
            E::modulus(),
        )
}

/// The value at the point that `u` belongs to of the polynomial for variable `j`
/// in the given rows.
pub open spec fn column(rows: Seq<Row>, u: Seq<int>, j: int) -> int {
    sum(rows.len() as int, |i: int| u[i] * row_coeff(rows[i], j))
}

/// The same for the left factors, where each variable of the instance has a point
/// of its own.
pub open spec fn left_column(cs: R1cs, u: Seq<int>, j: int) -> int {
    column(cs.a, u, j) + if j < cs.num_instance {
        u[cs.num_constraints() + j]
    } else {
        0
    }
}

/// `a`, `b` and `c` are the values at `t` of the polynomials of all variables on
/// a domain of `n` points.
pub open spec fn is_instance_map<E: Groups>(
    cs: R1cs,
    t: int,
    n: int,
    a: Seq<int>,
    b: Seq<int>,
    c: Seq<int>,
) -> bool {
    &&& a.len() == cs.num_variables()
    &&& b.len() == cs.num_variables()
    &&& c.len() == cs.num_variables()
    &&& exists|u: Seq<int>| #[trigger]
        is_lagrange::<E>(u, n, 1, t) && forall|j: int|
            0 <= j < cs.num_variables() ==> {
                &&& cong(#[trigger] a[j], left_column(cs, u, j), E::modulus())
                &&& cong(b[j], column(cs.b, u, j), E::modulus())
                &&& cong(c[j], column(cs.c, u, j), E::modulus())
            }
}

/// Where `h` takes the values `(a b - c) k` on the coset, with `k` the inverse of
/// `g^n - 1`, it takes those of the quotient.
proof fn lemma_divides_on_coset<E: Groups>(
    n: int,
    p: Seq<int>,
    q: Seq<int>,
    s: Seq<int>,
    h: Seq<int>,
    a: Seq<int>,
    b: Seq<int>,
    c: Seq<int>,
    ab: Seq<int>,
    k: int,
)
    requires
        cong((pow(E::generator(), n as nat) - 1) * k, 1, E::modulus()),
        interpolates::<E>(p, n, E::generator(), a),
        interpolates::<E>(q, n, E::generator(), b),
        interpolates::<E>(s, n, E::generator(), c),
        interpolates::<E>(h, n, E::generator(), ab),
        forall|i: int|
            0 <= i < n ==> cong(#[trigger] ab[i], (a[i] * b[i] - c[i]) * k, E::modulus()),
    ensures
        divides_on_coset::<E>(n, p, q, s, h),
{
    let r = E::modulus();
    let v = pow(E::generator(), n as nat) - 1;
    E::modulus_bound();
    assert forall|i: int| 0 <= i < n implies {
        let x = #[trigger] domain_point::<E>(n, E::generator(), i);
        cong(eval(h, x) * v, eval(p, x) * eval(q, x) - eval(s, x), r)
    } by {
        let x = domain_point::<E>(n, E::generator(), i);
        let (y, u) = (eval(p, x) * eval(q, x) - eval(s, x), a[i] * b[i] - c[i]);
        lemma_cong_mul(eval(p, x), a[i], eval(q, x), b[i], r);
        lemma_cong_sub(eval(p, x) * eval(q, x), a[i] * b[i], eval(s, x), c[i], r);
        assert(cong(ab[i], u * k, r));
        lemma_cong_mul(eval(h, x), u * k, v, v, r);
        assert((u * k) * v == u * (v * k)) by (nonlinear_arith);
        lemma_cong_mul(u, y, v * k, 1, r);
    }
}

/// Where the variables satisfy the constraints, the program vanishes on the
/// domain.
proof fn lemma_program_vanishes<E: Groups>(
    cs: R1cs,
    z: Seq<int>,
    n: int,
    p: Seq<int>,
    q: Seq<int>,
    s: Seq<int>,
)
    requires
        cs.wf(),
        cs.is_satisfied(z, E::modulus()),
        is_program::<E>(cs, z, n, p, q, s),
    ensures
        forall|i: int|
            0 <= i < n ==> {
                let x = #[trigger] domain_point::<E>(n, 1, i);
                (eval(p, x) * eval(q, x) - eval(s, x)) % E::modulus() == 0
            },
{
    let r = E::modulus();
    E::modulus_bound();
    assert forall|i: int| 0 <= i < n implies {
        let x = #[trigger] domain_point::<E>(n, 1, i);
        (eval(p, x) * eval(q, x) - eval(s, x)) % r == 0
    } by {
        let x = domain_point::<E>(n, 1, i);
        let (a, b, c) = (
            left_values(cs, z, n)[i],
            row_values(cs.b, z, n)[i],
            row_values(cs.c, z, n)[i],
        );
        lemma_cong_mul(eval(p, x), a, eval(q, x), b, r);
        lemma_cong_sub(eval(p, x) * eval(q, x), a * b, eval(s, x), c, r);
        if i < cs.num_constraints() {
            assert(cong(row_eval(cs.a[i], z) * row_eval(cs.b[i], z), row_eval(cs.c[i], z), r));
            lemma_cong_sub(a * b, c, c, c, r);
        } else {
            assert(a * 0 == 0) by (nonlinear_arith);
        }
        lemma_zero_mod(r);
    }
}

/// Polynomials with the same values on the domain have the same values everywhere.
proof fn lemma_same_values<E: Groups>(n: int, p: Seq<int>, q: Seq<int>, values: Seq<int>)
    requires
        is_generator(E::generator(), E::modulus()),
        E::domain_size(n) == Some(n),
        n > 0,
        interpolates::<E>(p, n, 1, values),
        interpolates::<E>(q, n, 1, values),
    ensures
        forall|x: int| cong(#[trigger] eval(p, x), eval(q, x), E::modulus()),
{
    let xs = points(E::generator(), E::modulus(), n);
    E::modulus_bound();
    E::domain_size_bound(n);
    assert forall|i: int| 0 <= i < n implies {
        let x = #[trigger] xs[i];
        cong(eval(p, x), eval(q, x), E::modulus())
    } by {
        assert(xs[i] == domain_point::<E>(n, 1, i));
    }
    lemma_interpolation_unique(E::generator(), E::modulus(), n, 0, p, q);
}

/// Programs for the same variables have the same values everywhere.
proof fn lemma_same_program<E: Groups>(
    cs: R1cs,
    z: Seq<int>,
    n: int,
    p: Seq<int>,
    q: Seq<int>,
    s: Seq<int>,
    p2: Seq<int>,
    q2: Seq<int>,
    s2: Seq<int>,
    x: int,
)
    requires
        is_generator(E::generator(), E::modulus()),
        E::domain_size(n) == Some(n),
        n > 0,
        is_program::<E>(cs, z, n, p, q, s),
        is_program::<E>(cs, z, n, p2, q2, s2),
    ensures
        cong(
            eval(p, x) * eval(q, x) - eval(s, x),
            eval(p2, x) * eval(q2, x) - eval(s2, x),
            E::modulus(),
        ),
{
    let r = E::modulus();
    E::modulus_bound();
    lemma_same_values::<E>(n, p, p2, left_values(cs, z, n));
    lemma_same_values::<E>(n, q, q2, row_values(cs.b, z, n));
    lemma_same_values::<E>(n, s, s2, row_values(cs.c, z, n));
    assert(cong(eval(p, x), eval(p2, x), r));
    assert(cong(eval(q, x), eval(q2, x), r));
    assert(cong(eval(s, x), eval(s2, x), r));
    lemma_cong_mul(eval(p, x), eval(p2, x), eval(q, x), eval(q2, x), r);
    lemma_cong_sub(
        eval(p, x) * eval(q, x),
        eval(p2, x) * eval(q2, x),
        eval(s, x),
        eval(s2, x),
        r,
    );
}

/// The variables determine the witness map, up to multiples of the modulus.
pub proof fn lemma_witness_map_unique<E: Groups>(
    cs: R1cs,
    z: Seq<int>,
    h: Seq<int>,
    h2: Seq<int>,
)
    requires
        is_generator(E::generator(), E::modulus()),
        cs.wf(),
        is_witness_map::<E>(cs, z, h),
        is_witness_map::<E>(cs, z, h2),
    ensures
        h.len() == h2.len(),
        forall|i: int| 0 <= i < h.len() ==> cong(#[trigger] h[i], h2[i], E::modulus()),
{
    let r = E::modulus();
    let g = E::generator();
    let n = E::domain_size(cs.num_points())->0;
    E::modulus_bound();
    E::domain_size_bound(cs.num_points());
    let (p, q, s) = choose|p: Seq<int>, q: Seq<int>, s: Seq<int>| #[trigger]
        is_program::<E>(cs, z, n, p, q, s) && divides_on_coset::<E>(n, p, q, s, h);
    let (p2, q2, s2) = choose|p: Seq<int>, q: Seq<int>, s: Seq<int>| #[trigger]
        is_program::<E>(cs, z, n, p, q, s) && divides_on_coset::<E>(n, p, q, s, h2);
    let xs = points(g, r, n);
    let v = pow(g, n as nat) - 1;
    lemma_generator_power_not_one(g, r, n);
    lemma_generator_no_zero_divisors(g, r);
    assert forall|i: int| n <= i < n + n implies {
        let x = #[trigger] xs[i];
        cong(eval(h, x), eval(h2, x), r)
    } by {
        let x = xs[i];
        assert(x == domain_point::<E>(n, g, i - n));
        lemma_same_program::<E>(cs, z, n, p, q, s, p2, q2, s2, x);
        let (y, y2) = (eval(h, x), eval(h2, x));
        assert(cong(y * v, y2 * v, r));
        lemma_mod_equivalence(y * v, y2 * v, r);
        assert(y * v - y2 * v == (y - y2) * v) by (nonlinear_arith);
        assert(((y - y2) * v) % r == 0);
        lemma_mod_equivalence(y, y2, r);
    }
    lemma_interpolation_unique(g, r, n, n, h, h2);
}

/// Where the variables satisfy the constraints, the witness map is the quotient of
/// the program.
pub proof fn lemma_witness_map_is_quotient<E: Groups>(cs: R1cs, z: Seq<int>, h: Seq<int>)
    requires
        is_generator(E::generator(), E::modulus()),
        cs.wf(),
        cs.is_satisfied(z, E::modulus()),
        is_witness_map::<E>(cs, z, h),
        forall|i: int| 0 <= i < h.len() ==> 0 <= #[trigger] h[i] < E::modulus(),
    ensures
        is_quotient::<E>(cs, z, h),
{
    let r = E::modulus();
    let g = E::generator();
    let n = E::domain_size(cs.num_points())->0;
    E::modulus_bound();
    E::domain_size_bound(cs.num_points());
    let (p, q, s) = choose|p: Seq<int>, q: Seq<int>, s: Seq<int>| #[trigger]
        is_program::<E>(cs, z, n, p, q, s) && divides_on_coset::<E>(n, p, q, s, h);
    lemma_program_vanishes::<E>(cs, z, n, p, q, s);
    let xs = points(g, r, n);
    assert forall|i: int| 0 <= i < n implies {
        let x = #[trigger] xs[i];
        (eval(p, x) * eval(q, x) - eval(s, x)) % r == 0
    } by {
        assert(xs[i] == domain_point::<E>(n, 1, i));
    }
    assert forall|i: int| n <= i < 2 * n implies {
        let x = #[trigger] xs[i];
        cong(
            eval(h, x) * (pow(g, n as nat) - 1),
            eval(p, x) * eval(q, x) - eval(s, x),
            r,
        )
    } by {
        assert(xs[i] == domain_point::<E>(n, g, i - n));
    }
    lemma_quotient(g, r, n, p, q, s, h);
    lemma_small_mod(h[n - 1] as nat, r as nat);
    assert forall|p2: Seq<int>, q2: Seq<int>, s2: Seq<int>, x: int| #[trigger]
        is_program::<E>(cs, z, n, p2, q2, s2) implies cong(
        eval(p2, x) * eval(q2, x) - eval(s2, x),
        #[trigger] eval(h, x) * (pow(x, n as nat) - 1),
        r,
    ) by {
        lemma_same_program::<E>(cs, z, n, p, q, s, p2, q2, s2, x);
    }
}

pub proof fn lemma_row_coeff_push(row: Row, term: (int, int), j: int)
    ensures
        row_coeff(row.push(term), j) == row_coeff(row, j) + term_coeff(term, j),
{
    let longer = row.push(term);
    let f = |k: int| term_coeff(row[k], j);
    let g = |k: int| term_coeff(longer[k], j);
    lemma_sum_eq(row.len() as int, f, g);
}

proof fn lemma_column_push(rows: Seq<Row>, row: Row, u: Seq<int>, j: int)
    ensures
        column(rows.push(row), u, j) == column(rows, u, j) + u[rows.len() as int] * row_coeff(
            row,
            j,
        ),
{
    let f = |i: int| u[i] * row_coeff(rows[i], j);
    let longer = rows.push(row);
    let g = |i: int| u[i] * row_coeff(longer[i], j);
    lemma_sum_eq(rows.len() as int, f, g);
}

// ---------------------------------------------------------------------------
// The reduction
// ---------------------------------------------------------------------------

/// What the evaluation of a linear combination gives.
pub open spec fn constraint_value<E: Groups>(
    terms: Seq<(Scalar<E>, usize)>,
    assignment: Seq<Scalar<E>>,
) -> int {
    row_eval(row_view(terms), views(assignment)) % E::modulus()
}

/// The evaluation is linear in the assignment: for `k x + y` it gives `k` times what
/// it gives for `x`, plus what it gives for `y`.
pub proof fn lemma_constraint_value_linear<E: Groups>(
    terms: Seq<(Scalar<E>, usize)>,
    k: Scalar<E>,
    x: Seq<Scalar<E>>,
    y: Seq<Scalar<E>>,
    z: Seq<Scalar<E>>,
)
    requires
        x.len() == y.len(),
        z.len() == x.len(),
        forall|j: int| 0 <= j < terms.len() ==> (#[trigger] terms[j]).1 < x.len(),
        forall|i: int|
            0 <= i < x.len() ==> (#[trigger] z[i])@ == (k@ * x[i]@ + y[i]@) % E::modulus(),
    ensures
        constraint_value(terms, z) == (k@ * constraint_value(terms, x) + constraint_value(terms, y))
            % E::modulus(),
{
    let r = E::modulus();
    let row = row_view(terms);
    let (xs, ys, zs) = (views(x), views(y), views(z));
    E::modulus_bound();
    assert forall|j: int| 0 <= j < row.len() implies 0 <= (#[trigger] row[j]).1 < xs.len() by {
        assert(terms[j].1 < x.len());
    }
    assert forall|i: int| 0 <= i < xs.len() implies cong(
        #[trigger] zs[i],
        k@ * xs[i] + ys[i],
        r,
    ) by {
        assert(z[i]@ == (k@ * x[i]@ + y[i]@) % r);
        lemma_cong_mod(k@ * xs[i] + ys[i], r);
    }
    lemma_row_eval_linear(row, k@, xs, ys, zs, r);
    let (u, v) = (row_eval(row, xs), row_eval(row, ys));
    lemma_cong_mod(u, r);
    lemma_cong_mod(v, r);
    lemma_cong_mul(k@, k@, u % r, u, r);
    lemma_cong_add(k@ * (u % r), k@ * u, v % r, v, r);
}

/// The evaluation does not depend on the order of the terms.
pub proof fn lemma_constraint_value_permuted<E: Groups>(
    terms: Seq<(Scalar<E>, usize)>,
    permuted: Seq<(Scalar<E>, usize)>,
    x: Seq<Scalar<E>>,
)
    requires
        row_view(terms).to_multiset() == row_view(permuted).to_multiset(),
    ensures
        constraint_value(terms, x) == constraint_value(permuted, x),
{
    lemma_row_eval_permuted(row_view(terms), row_view(permuted), views(x));
}

/// The value of a linear combination.
pub fn evaluate_constraint<E: Pairing>(
    terms: &Vec<(Scalar<E>, usize)>,
    assignment: &Vec<Scalar<E>>,
) -> (value: Scalar<E>)
    requires
        forall|k: int|
            0 <= k < terms@.len() ==> (#[trigger] row_view(terms@)[k]).1 < assignment@.len(),
    ensures
        value@ == constraint_value(terms@, assignment@),
{
    serial_evaluate_constraint(terms, assignment)
}

/// The value of a linear combination, term by term.
pub fn serial_evaluate_constraint<E: Pairing>(
    terms: &Vec<(Scalar<E>, usize)>,
    assignment: &Vec<Scalar<E>>,
) -> (value: Scalar<E>)
    requires
        forall|k: int|
            0 <= k < terms@.len() ==> (#[trigger] row_view(terms@)[k]).1 < assignment@.len(),
    ensures
        value@ == constraint_value(terms@, assignment@),
{
    let ghost r = E::modulus();
    let ghost row = row_view(terms@);
    let ghost z = views(assignment@);
    let ghost term = |k: int| row[k].0 * z[row[k].1];
    let mut total: Scalar<E> = Scalar::zero();
    let mut k: usize = 0;
    proof {
        E::modulus_bound();
        lemma_zero_mod(r);
    }
    while k < terms.len()
        invariant
            k <= terms@.len(),
            r == E::modulus(),
            r > 0,
            row == row_view(terms@),
            z == views(assignment@),
            term == (|k: int| row[k].0 * z[row[k].1]),
            forall|k: int| 0 <= k < terms@.len() ==> (#[trigger] row[k]).1 < assignment@.len(),
            total@ == sum(k as int, term) % r,
        decreases terms@.len() - k,
    {
        let (coeff, index) = terms[k];
        assert(row[k as int] == (coeff@, index as int));
        let val = assignment[index];
        let product = if coeff.is_one() {
            val
        } else {
            E::scalar_mul(&val, &coeff)
        };
        let ghost before = total@;
        total = E::scalar_add(&total, &product);
        proof {
            val.view_bound();
            let (x, y) = (val@, coeff@);
            assert(x * y == y * x && 1 * x == x) by (nonlinear_arith);
            lemma_cong_mod(x * y, r);
            assert(cong(product@, term(k as int), r));
            lemma_cong_mod(sum(k as int, term), r);
            lemma_cong_add(before, sum(k as int, term), product@, term(k as int), r);
        }
        k = k + 1;
    }
    total
}

/// The values of the rows, then the first `num_rest` variables, then as many zeros
/// as it takes to make `n` values.
fn evaluate_rows<E: Pairing>(
    rows: &Vec<Vec<(Scalar<E>, usize)>>,
    assignment: &Vec<Scalar<E>>,
    num_rest: usize,
    n: usize,
) -> (values: Vec<Scalar<E>>)
    requires
        rows@.len() + num_rest <= n,
        num_rest <= assignment@.len(),
        forall|i: int, k: int|
            0 <= i < rows@.len() && 0 <= k < rows_view(rows@)[i].len() ==> 0 <= (
            #[trigger] rows_view(rows@)[i][k]).1 < assignment@.len(),
    ensures
        values@.len() == n,
        forall|i: int|
            0 <= i < n ==> (#[trigger] values@[i])@ == (if i < rows@.len() {
                row_eval(rows_view(rows@)[i], views(assignment@)) % E::modulus()
            } else if i < rows@.len() + num_rest {
                assignment@[i - rows@.len()]@
            } else {
                0
            }),
{
    let mut values: Vec<Scalar<E>> = Vec::new();
    let mut i: usize = 0;
    while i < n
        invariant
            i <= n,
            values@.len() == i,
            rows@.len() + num_rest <= n,
            num_rest <= assignment@.len(),
            forall|i: int, k: int|
                0 <= i < rows@.len() && 0 <= k < rows_view(rows@)[i].len() ==> 0 <= (
                #[trigger] rows_view(rows@)[i][k]).1 < assignment@.len(),
            forall|j: int|
                0 <= j < i ==> (#[trigger] values@[j])@ == (if j < rows@.len() {
                    row_eval(rows_view(rows@)[j], views(assignment@)) % E::modulus()
                } else if j < rows@.len() + num_rest {
                    assignment@[j - rows@.len()]@
                } else {
                    0
                }),
        decreases n - i,
    {
        let value = if i < rows.len() {
            assert(rows_view(rows@)[i as int] == row_view(rows@[i as int]@));
            assert forall|k: int| 0 <= k < rows@[i as int]@.len() implies (#[trigger] row_view(
                rows@[i as int]@,
            )[k]).1 < assignment@.len() by {
                assert(rows_view(rows@)[i as int][k].1 < assignment@.len());
            }
            evaluate_constraint(&rows[i], assignment)
        } else if i - rows.len() < num_rest {
            assignment[i - rows.len()]
        } else {
            Scalar::zero()
        };
        values.push(value);
        i = i + 1;
    }
    values
}

/// The elements of both vectors, one after the other.
fn concat<E: Groups>(first: &Vec<Scalar<E>>, second: &Vec<Scalar<E>>) -> (res: Vec<Scalar<E>>)
    ensures
        res@ == first@ + second@,
{
    let mut res: Vec<Scalar<E>> = Vec::new();
    let mut i: usize = 0;
    while i < first.len()
        invariant
            i <= first@.len(),
            res@ =~= first@.take(i as int),
        decreases first@.len() - i,
    {
        res.push(first[i]);
        i = i + 1;
    }
    let mut j: usize = 0;
    while j < second.len()
        invariant
            j <= second@.len(),
            res@ =~= first@ + second@.take(j as int),
        decreases second@.len() - j,
    {
        res.push(second[j]);
        j = j + 1;
    }
    res
}

/// `(a b - c) k` at each point.
fn divide_pointwise<E: Pairing>(
    a: &Vec<Scalar<E>>,
    b: &Vec<Scalar<E>>,
    c: &Vec<Scalar<E>>,
    k: &Scalar<E>,
) -> (res: Vec<Scalar<E>>)
    requires
        a@.len() == b@.len(),
        a@.len() == c@.len(),
    ensures
        res@.len() == a@.len(),
        forall|i: int|
            0 <= i < res@.len() ==> cong(
                (#[trigger] res@[i])@,
                (a@[i]@ * b@[i]@ - c@[i]@) * k@,
                E::modulus(),
            ),
{
    let ghost r = E::modulus();
    let mut res: Vec<Scalar<E>> = Vec::new();
    let mut i: usize = 0;
    proof {
        E::modulus_bound();
    }
    while i < a.len()
        invariant
            i <= a@.len(),
            a@.len() == b@.len(),
            a@.len() == c@.len(),
            res@.len() == i,
            r == E::modulus(),
            r > 0,
            forall|j: int|
                0 <= j < i ==> cong(
                    (#[trigger] res@[j])@,
                    (a@[j]@ * b@[j]@ - c@[j]@) * k@,
                    r,
                ),
        decreases a@.len() - i,
    {
        let ab = E::scalar_mul(&a[i], &b[i]);
        let numerator = E::scalar_sub(&ab, &c[i]);
        let value = E::scalar_mul(&numerator, k);
        proof {
            let (x, y, w) = (a@[i as int]@, b@[i as int]@, c@[i as int]@);
            lemma_cong_mod(x * y, r);
            lemma_cong_sub(ab@, x * y, w, w, r);
            lemma_cong_mod(ab@ - w, r);
            lemma_cong_mul(numerator@, x * y - w, k@, k@, r);
            lemma_cong_mod(numerator@ * k@, r);
        }
        res.push(value);
        i = i + 1;
    }
    res
}

/// The values on the coset of the polynomial that has the given values on the
/// domain.
fn extend_to_coset<E: Pairing>(
    domain: &Domain<E>,
    coset: &Domain<E>,
    values: &Vec<Scalar<E>>,
    Ghost(model): Ghost<Seq<int>>,
) -> (res: (Vec<Scalar<E>>, Ghost<Seq<int>>))
    requires
        coset.spec_size() == domain.spec_size(),
        values@.len() == domain.spec_size(),
        model.len() == domain.spec_size(),
        forall|i: int|
            0 <= i < model.len() ==> cong(
                (#[trigger] values@[i])@,
                model[i],
                E::modulus(),
            ),
    ensures
        interpolates::<E>(res.1@, domain.spec_size(), domain.spec_offset(), model),
        interpolates::<E>(
            res.1@,
            coset.spec_size(),
            coset.spec_offset(),
            views(res.0@),
        ),
{
    let coeffs = E::ifft(domain, values.as_slice());
    let evals = E::fft(coset, coeffs.as_slice());
    assert(forall|i: int| 0 <= i < model.len() ==> views(values@)[i] == (#[trigger] values@[i])@);
    (evals, Ghost(views(coeffs@)))
}

/// The vector of `n` zeros.
fn zeros<E: Groups>(n: usize) -> (res: Vec<Scalar<E>>)
    ensures
        res@.len() == n,
        forall|j: int| 0 <= j < n ==> (#[trigger] res@[j])@ == 0,
{
    let mut res: Vec<Scalar<E>> = Vec::new();
    let mut i: usize = 0;
    while i < n
        invariant
            i <= n,
            res@.len() == i,
            forall|j: int| 0 <= j < i ==> (#[trigger] res@[j])@ == 0,
        decreases n - i,
    {
        res.push(Scalar::zero());
        i = i + 1;
    }
    res
}

/// Adds to each of the `columns` the value of the polynomial of its variable.
fn add_columns<E: Pairing>(
    columns: &mut Vec<Scalar<E>>,
    rows: &Vec<Vec<(Scalar<E>, usize)>>,
    u: &Vec<Scalar<E>>,
)
    requires
        rows@.len() <= u@.len(),
        rows_within(rows_view(rows@), old(columns)@.len() as int),
    ensures
        final(columns)@.len() == old(columns)@.len(),
        forall|j: int|
            0 <= j < final(columns)@.len() ==> cong(
                (#[trigger] final(columns)@[j])@,
                old(columns)@[j]@ + column(rows_view(rows@), views(u@), j),
                E::modulus(),
            ),
{
    let ghost r = E::modulus();
    let ghost init = columns@;
    let ghost model = rows_view(rows@);
    let ghost uv = views(u@);
    let mut i: usize = 0;
    proof {
        E::modulus_bound();
    }
    while i < rows.len()
        invariant
            i <= rows@.len() <= u@.len(),
            r == E::modulus(),
            r > 0,
            model == rows_view(rows@),
            uv == views(u@),
            rows_within(model, init.len() as int),
            columns@.len() == init.len(),
            forall|j: int|
                0 <= j < init.len() ==> cong(
                    (#[trigger] columns@[j])@,
                    init[j]@ + column(model.take(i as int), uv, j),
                    r,
                ),
        decreases rows@.len() - i,
    {
        let row = &rows[i];
        let ghost before = columns@;
        let mut k: usize = 0;
        assert(model[i as int] == row_view(row@));
        while k < row.len()
            invariant
                i < rows@.len() <= u@.len(),
                k <= row@.len(),
                r == E::modulus(),
                r > 0,
                model == rows_view(rows@),
                uv == views(u@),
                model[i as int] == row_view(row@),
                rows_within(model, init.len() as int),
                columns@.len() == init.len(),
                before.len() == init.len(),
                forall|j: int|
                    0 <= j < init.len() ==> cong(
                        (#[trigger] columns@[j])@,
                        before[j]@ + uv[i as int] * row_coeff(row_view(row@).take(k as int), j),
                        r,
                    ),
            decreases row@.len() - k,
        {
            let (coeff, index) = row[k];
            assert(model[i as int][k as int] == (coeff@, index as int));
            let ghost inner = columns@;
            let product = E::scalar_mul(&u[i], &coeff);
            let value = E::scalar_add(&columns[index], &product);
            columns.set(index, value);
            proof {
                let ui = uv[i as int];
                assert(ui == u@[i as int]@);
                let done = row_view(row@).take(k as int);
                let more = row_view(row@).take(k + 1);
                assert(more =~= done.push((coeff@, index as int)));
                assert forall|j: int| 0 <= j < init.len() implies cong(
                    (#[trigger] columns@[j])@,
                    before[j]@ + ui * row_coeff(more, j),
                    r,
                ) by {
                    lemma_row_coeff_push(done, (coeff@, index as int), j);
                    assert(cong(inner[j]@, before[j]@ + ui * row_coeff(done, j), r));
                    let (x, y, old_coeff) = (coeff@, before[j]@, row_coeff(done, j));
                    if j == index {
                        lemma_cong_mod(ui * x, r);
                        lemma_cong_add(inner[j]@, y + ui * old_coeff, product@, ui * x, r);
                        lemma_cong_mod(inner[j]@ + product@, r);
                        assert(ui * (old_coeff + x) == ui * old_coeff + ui * x)
                            by (nonlinear_arith);
                    }
                }
            }
            k = k + 1;
        }
        proof {
            assert(row_view(row@).take(row@.len() as int) =~= row_view(row@));
            assert(model.take(i + 1) =~= model.take(i as int).push(model[i as int]));
            assert forall|j: int| 0 <= j < init.len() implies cong(
                (#[trigger] columns@[j])@,
                init[j]@ + column(model.take(i + 1), uv, j),
                r,
            ) by {
                lemma_column_push(model.take(i as int), model[i as int], uv, j);
                let (x, y) = (
                    init[j]@ + column(model.take(i as int), uv, j),
                    uv[i as int] * row_coeff(row_view(row@), j),
                );
                assert(cong(before[j]@, x, r));
                assert(cong(columns@[j]@, before[j]@ + y, r));
                lemma_cong_add(before[j]@, x, y, y, r);
            }
        }
        i = i + 1;
    }
    assert(model.take(rows@.len() as int) =~= model);
}

/// The reduction of a constraint system to a quadratic arithmetic program.
pub struct R1CStoQAP;

impl R1CStoQAP {
    /// The values at `t` of the polynomials of all variables and of the vanishing
    /// polynomial, with the number of variables beside the constant one and the
    /// size of the domain.
    pub fn instance_map_with_evaluation<E: Pairing>(
        cs: &ConstraintMatrices<E>,
        t: &Scalar<E>,
    ) -> (res: Result<
        (Vec<Scalar<E>>, Vec<Scalar<E>>, Vec<Scalar<E>>, Scalar<E>, usize, usize),
        SynthesisError,
    >)
        ensures
            match res {
                Ok((a, b, c, zt, qap_num_variables, domain_size)) => {
                    &&& E::domain_size(cs@.num_points()) == Some(domain_size as int)
                    &&& is_instance_map::<E>(
                        cs@,
                        t@,
                        domain_size as int,
                        views(a@),
                        views(b@),
                        views(c@),
                    )
                    &&& zt@ == (pow(t@, domain_size as nat) - 1) % E::modulus()
                    &&& qap_num_variables == cs@.num_variables() - 1
                },
                Err(e) => {
                    &&& e == SynthesisError::PolynomialDegreeTooLarge
                    &&& E::domain_size(cs@.num_points()) is None
                },
            },
    {
        let num_points = cs.num_points();
        let num_constraints = cs.num_constraints();
        let num_instance_variables = cs.num_instance_variables();
        let domain: Domain<E> = match Domain::new(num_points) {
            Some(domain) => domain,
            None => {
                return Err(SynthesisError::PolynomialDegreeTooLarge);
            },
        };
        let domain_size = domain.size();
        proof {
            E::modulus_bound();
            E::domain_size_bound(cs@.num_points());
            lemma1_pow(domain_size as nat);
        }
        let zt = E::evaluate_vanishing_polynomial(&domain, t);
        let u = E::evaluate_all_lagrange_coefficients(&domain, t);
        assert(views(u@).len() == u@.len());

        let qap_num_variables: usize = (num_instance_variables - 1) + cs.num_witness_variables();
        let mut a: Vec<Scalar<E>> = zeros(qap_num_variables + 1);
        let mut b: Vec<Scalar<E>> = zeros(qap_num_variables + 1);
        let mut c: Vec<Scalar<E>> = zeros(qap_num_variables + 1);

        let mut j: usize = 0;
        while j < num_instance_variables
            invariant
                j <= num_instance_variables <= a@.len(),
                num_constraints + num_instance_variables <= u@.len(),
                num_constraints + num_instance_variables <= usize::MAX,
                a@.len() == qap_num_variables + 1,
                forall|l: int|
                    0 <= l < a@.len() ==> (#[trigger] a@[l])@ == (if l < j {
                        u@[num_constraints + l]@
                    } else {
                        0
                    }),
            decreases num_instance_variables - j,
        {
            a.set(j, u[num_constraints + j]);
            j = j + 1;
        }
        let ghost instance = a@;
        let (a_rows, b_rows, c_rows) = (cs.a(), cs.b(), cs.c());
        assert(rows_view(a_rows@).len() == a_rows@.len());
        assert(rows_view(b_rows@).len() == b_rows@.len());
        assert(rows_view(c_rows@).len() == c_rows@.len());
        add_columns(&mut a, a_rows, &u);
        add_columns(&mut b, b_rows, &u);
        add_columns(&mut c, c_rows, &u);
        proof {
            let uv = views(u@);
            assert forall|j: int| 0 <= j < cs@.num_variables() implies {
                &&& cong(#[trigger] views(a@)[j], left_column(cs@, uv, j), E::modulus())
                &&& cong(views(b@)[j], column(cs@.b, uv, j), E::modulus())
                &&& cong(views(c@)[j], column(cs@.c, uv, j), E::modulus())
            } by {
                assert(cong(a@[j]@, instance[j]@ + column(cs@.a, uv, j), E::modulus()));
                assert(cong(b@[j]@, 0 + column(cs@.b, uv, j), E::modulus()));
                assert(cong(c@[j]@, 0 + column(cs@.c, uv, j), E::modulus()));
                assert(j < num_instance_variables ==> uv[num_constraints + j]
                    == u@[num_constraints + j]@);
            }
            assert(is_lagrange::<E>(uv, domain_size as int, 1, t@));
        }
        Ok((a, b, c, zt, qap_num_variables, domain_size))
    }

    /// The coefficients of the quotient of the program for the assignment of the
    /// system.
    pub fn witness_map<E: Pairing>(prover: &ConstraintSystem<E>) -> (res: Result<
        Vec<Scalar<E>>,
        SynthesisError,
    >)
        ensures
            match res {
                Ok(h) => {
                    &&& is_witness_map::<E>(
                        prover.spec_matrices(),
                        prover.assignment(),
                        views(h@),
                    )
                    &&& prover.is_satisfied() ==> is_quotient::<E>(
                        prover.spec_matrices(),
                        prover.assignment(),
                        views(h@),
                    )
                },
                Err(e) => {
                    &&& e == SynthesisError::PolynomialDegreeTooLarge
                    &&& E::domain_size(prover.spec_matrices().num_points()) is None
                },
            },
    {
        let ghost cs = prover.spec_matrices();
        let ghost z = prover.assignment();
        let ghost r = E::modulus();
        let matrices = prover.matrices();
        let num_inputs = matrices.num_instance_variables();
        let num_points = matrices.num_points();

        let full_assignment = concat(prover.instance_assignment(), prover.witness_assignment());
        assert(views(full_assignment@) =~= z);

        let domain: Domain<E> = match Domain::new(num_points) {
            Some(domain) => domain,
            None => {
                return Err(SynthesisError::PolynomialDegreeTooLarge);
            },
        };
        let domain_size = domain.size();
        let ghost n = domain_size as int;
        proof {
            E::modulus_bound();
            E::domain_size_bound(cs.num_points());
        }

        let (a_rows, b_rows, c_rows) = (matrices.a(), matrices.b(), matrices.c());
        assert(rows_view(a_rows@).len() == a_rows@.len());
        assert(rows_view(b_rows@).len() == b_rows@.len());
        assert(rows_view(c_rows@).len() == c_rows@.len());
        let a = evaluate_rows(a_rows, &full_assignment, num_inputs, domain_size);
        let b = evaluate_rows(b_rows, &full_assignment, 0, domain_size);
        let c = evaluate_rows(c_rows, &full_assignment, 0, domain_size);
        proof {
            assert forall|i: int| 0 <= i < n implies cong(
                (#[trigger] a@[i])@,
                left_values(cs, z, n)[i],
                r,
            ) by {
                lemma_cong_mod(left_values(cs, z, n)[i], r);
                if cs.num_constraints() <= i < cs.num_points() {
                    let j = i - cs.num_constraints();
                    assert(views(full_assignment@)[j] == full_assignment@[j]@);
                }
            }
            assert forall|i: int| 0 <= i < n implies cong(
                (#[trigger] b@[i])@,
                row_values(cs.b, z, n)[i],
                r,
            ) by {
                lemma_cong_mod(row_values(cs.b, z, n)[i], r);
            }
            assert forall|i: int| 0 <= i < n implies cong(
                (#[trigger] c@[i])@,
                row_values(cs.c, z, n)[i],
                r,
            ) by {
                lemma_cong_mod(row_values(cs.c, z, n)[i], r);
            }
        }

        let generator = E::multiplicative_generator();
        let vanishing = E::evaluate_vanishing_polynomial(&domain, &generator);
        proof {
            lemma1_pow(n as nat);
            lemma_generator_power_not_one(E::generator(), r, n);
        }
        let (coset_domain, vanishing_inverse) = match (
            domain.get_coset(generator),
            E::scalar_inverse(&vanishing),
        ) {
            (Some(coset), Some(inverse)) => (coset, inverse),
            _ => {
                proof {
                    generator.view_bound();
                    lemma_generator_nonzero(E::generator(), r);
                    assert(false);
                }
                return Err(SynthesisError::PolynomialDegreeTooLarge);
            },
        };

        let (a, Ghost(p)) = extend_to_coset(
            &domain,
            &coset_domain,
            &a,
            Ghost(left_values(cs, z, n)),
        );
        let (b, Ghost(q)) = extend_to_coset(
            &domain,
            &coset_domain,
            &b,
            Ghost(row_values(cs.b, z, n)),
        );
        let (c, Ghost(s)) = extend_to_coset(
            &domain,
            &coset_domain,
            &c,
            Ghost(row_values(cs.c, z, n)),
        );
        assert(is_program::<E>(cs, z, n, p, q, s));
        let ab = divide_pointwise(&a, &b, &c, &vanishing_inverse);
        let h = E::ifft(&coset_domain, ab.as_slice());
        proof {
            let k = vanishing_inverse@;
            let v = pow(E::generator(), n as nat) - 1;
            lemma_cong_mod(v, r);
            lemma_cong_mul(vanishing@, v, k, k, r);
            lemma_small_mod(1, r as nat);
            lemma_divides_on_coset::<E>(
                n,
                p,
                q,
                s,
                views(h@),
                views(a@),
                views(b@),
                views(c@),
                views(ab@),
                k,
            );
            if prover.is_satisfied() {
                assert forall|i: int| 0 <= i < views(h@).len() implies 0 <= #[trigger] views(
                    h@,
                )[i] < r by {
                    h@[i].view_bound();
                }
                lemma_witness_map_is_quotient::<E>(cs, z, views(h@));
            }
        }
        Ok(h)
    }
}

} // verus!
