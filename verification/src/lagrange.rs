//! What the Lagrange coefficients of a domain are, from the values that they give.
use crate::algebra::{
    cong, dot, lemma_cong_mul, lemma_cong_mul_zero, lemma_sum_cong, lemma_sum_single,
    lemma_sum_zero, lemma_zero_mod, no_zero_divisors, sum,
};
use crate::domain::{is_lagrange, values_on_domain};
use crate::groups::Groups;
use crate::polynomial::{eval, lemma_eval_mul, lemma_mul_len, poly_mul};
use crate::r1cs::{row_coeff, Row};
use crate::r1cs_to_qap::column;
use crate::units::{
    is_generator, lemma_generator_no_zero_divisors, lemma_points_distinct, lemma_root_of_unity,
    points, root_of_unity,
};
use vstd::arithmetic::div_mod::{lemma_mod_equivalence, lemma_small_mod};
use vstd::arithmetic::mul::lemma_mul_basics;
use vstd::arithmetic::power::{lemma_pow_mod_noop, pow};
use vstd::prelude::*;

verus! {

/// The polynomial with exactly the given roots.
spec fn with_roots(xs: Seq<int>) -> Seq<int>
    decreases xs.len(),
{
    if xs.len() == 0 {
        seq![1int]
    } else {
        poly_mul(seq![-xs.last(), 1int], with_roots(xs.drop_last()))
    }
}

proof fn lemma_with_roots_len(xs: Seq<int>)
    ensures
        with_roots(xs).len() == xs.len() + 1,
    decreases xs.len(),
{
    if xs.len() > 0 {
        lemma_with_roots_len(xs.drop_last());
        lemma_mul_len(seq![-xs.last(), 1int], with_roots(xs.drop_last()));
    }
}

proof fn lemma_with_roots_step(xs: Seq<int>, x: int)
    requires
        xs.len() > 0,
    ensures
        eval(with_roots(xs), x) == (x - xs.last()) * eval(with_roots(xs.drop_last()), x),
{
    let p = seq![-xs.last(), 1int];
    lemma_eval_mul(p, with_roots(xs.drop_last()), x);
    assert(eval(p, x) == x - xs.last()) by {
        let q = p.drop_first();
        assert(q.len() == 1 && q[0] == 1);
        assert(q.drop_first().len() == 0);
        assert(eval(q.drop_first(), x) == 0);
        lemma_mul_basics(x);
        assert(eval(q, x) == 1);
    }
}

proof fn lemma_root(xs: Seq<int>, i: int, x: int, r: int)
    requires
        r > 0,
        0 <= i < xs.len(),
        (x - xs[i]) % r == 0,
    ensures
        eval(with_roots(xs), x) % r == 0,
    decreases xs.len(),
{
    lemma_with_roots_step(xs, x);
    if i == xs.len() - 1 {
        lemma_cong_mul_zero(eval(with_roots(xs.drop_last()), x), x - xs.last(), r);
    } else {
        assert(xs.drop_last()[i] == xs[i]);
        lemma_root(xs.drop_last(), i, x, r);
        lemma_cong_mul_zero(x - xs.last(), eval(with_roots(xs.drop_last()), x), r);
    }
}

proof fn lemma_not_root(xs: Seq<int>, x: int, r: int)
    requires
        r > 1,
        no_zero_divisors(r),
        forall|i: int| 0 <= i < xs.len() ==> (x - #[trigger] xs[i]) % r != 0,
    ensures
        eval(with_roots(xs), x) % r != 0,
    decreases xs.len(),
{
    if xs.len() == 0 {
        let p = with_roots(xs);
        assert(eval(p.drop_first(), x) == 0);
        lemma_mul_basics(x);
        assert(eval(p, x) == 1);
        lemma_small_mod(1, r as nat);
    } else {
        lemma_with_roots_step(xs, x);
        let rest = xs.drop_last();
        assert forall|i: int| 0 <= i < rest.len() implies (x - #[trigger] rest[i]) % r != 0 by {
            assert(rest[i] == xs[i]);
        }
        lemma_not_root(rest, x, r);
        assert((x - xs[xs.len() - 1]) % r != 0);
        assert(((x - xs.last()) * eval(with_roots(rest), x)) % r != 0);
    }
}

/// The points of the domain of `n` points.
spec fn domain_points<E: Groups>(n: int) -> Seq<int> {
    Seq::new(n as nat, |i: int| pow(root_of_unity(E::generator(), E::modulus(), n), i as nat))
}

/// The polynomial that vanishes at all points of the domain but the one of number
/// `k`.
spec fn without<E: Groups>(n: int, k: int) -> Seq<int> {
    with_roots(domain_points::<E>(n).remove(k))
}

spec fn is_domain<E: Groups>(n: int) -> bool {
    &&& is_generator(E::generator(), E::modulus())
    &&& 0 < n
    &&& 2 * n <= E::modulus() - 1
    &&& (E::modulus() - 1) % n == 0
}

proof fn lemma_without<E: Groups>(n: int, k: int)
    requires
        is_domain::<E>(n),
        0 <= k < n,
    ensures
        without::<E>(n, k).len() == n,
        eval(without::<E>(n, k), domain_points::<E>(n)[k]) % E::modulus() != 0,
{
    let (g, r) = (E::generator(), E::modulus());
    let ws = domain_points::<E>(n);
    let xs = ws.remove(k);
    E::modulus_bound();
    lemma_with_roots_len(xs);
    lemma_points_distinct(g, r, n);
    lemma_generator_no_zero_divisors(g, r);
    assert forall|i: int| 0 <= i < xs.len() implies (ws[k] - #[trigger] xs[i]) % r != 0 by {
        let j = if i < k {
            i
        } else {
            i + 1
        };
        assert(xs[i] == ws[j]);
        assert(ws[j] == points(g, r, n)[j] && ws[k] == points(g, r, n)[k]);
        if k < j {
            assert((points(g, r, n)[k] - points(g, r, n)[j]) % r != 0);
        } else {
            assert((points(g, r, n)[j] - points(g, r, n)[k]) % r != 0);
            lemma_mod_equivalence(ws[k], ws[j], r);
            lemma_mod_equivalence(ws[j], ws[k], r);
        }
    }
    lemma_not_root(xs, ws[k], r);
}

/// A polynomial that vanishes on the domain but at one point leaves one coefficient.
proof fn lemma_coefficient<E: Groups>(u: Seq<int>, n: int, t: int, k: int, p: Seq<int>)
    requires
        is_lagrange::<E>(u, n, 1, t),
        0 <= k < n,
        p.len() <= n,
        forall|i: int|
            0 <= i < n && i != k ==> eval(p, #[trigger] domain_points::<E>(n)[i]) % E::modulus()
                == 0,
    ensures
        cong(u[k] * eval(p, domain_points::<E>(n)[k]), eval(p, t), E::modulus()),
{
    let r = E::modulus();
    let ws = domain_points::<E>(n);
    E::modulus_bound();
    lemma_zero_mod(r);
    let vals = values_on_domain::<E>(p, n, 1);
    let f = |i: int| u[i] * vals[i];
    let single = |i: int| if i == k { f(i) } else { 0 };
    assert forall|i: int| 0 <= i < n implies #[trigger] vals[i] == eval(p, ws[i]) by {
        lemma_mul_basics(ws[i]);
    }
    assert forall|i: int| 0 <= i < n implies cong(#[trigger] f(i), single(i), r) by {
        assert(vals[i] == eval(p, ws[i]));
        if i != k {
            lemma_cong_mul_zero(u[i], vals[i], r);
        }
    }
    lemma_sum_cong(n, f, single, r);
    lemma_sum_single(n, k, single);
    assert(vals[k] == eval(p, ws[k]));
    assert(cong(eval(p, t), dot(u, vals), r));
}

proof fn lemma_coefficient_without<E: Groups>(u: Seq<int>, n: int, t: int, k: int)
    requires
        is_domain::<E>(n),
        is_lagrange::<E>(u, n, 1, t),
        0 <= k < n,
    ensures
        cong(
            u[k] * eval(without::<E>(n, k), domain_points::<E>(n)[k]),
            eval(without::<E>(n, k), t),
            E::modulus(),
        ),
{
    let r = E::modulus();
    let ws = domain_points::<E>(n);
    let xs = ws.remove(k);
    E::modulus_bound();
    lemma_without::<E>(n, k);
    assert forall|i: int| 0 <= i < n && i != k implies eval(
        without::<E>(n, k),
        #[trigger] ws[i],
    ) % r == 0 by {
        let j = if i < k {
            i
        } else {
            i - 1
        };
        assert(xs[j] == ws[i]);
        lemma_zero_mod(r);
        lemma_root(xs, j, ws[i], r);
    }
    lemma_coefficient::<E>(u, n, t, k, without::<E>(n, k));
}

/// At a point of the domain, the coefficient of that point is one and the others
/// are zero.
pub proof fn lemma_lagrange_at_point<E: Groups>(u: Seq<int>, n: int, t: int, i: int)
    requires
        is_generator(E::generator(), E::modulus()),
        0 < n,
        2 * n <= E::modulus() - 1,
        (E::modulus() - 1) % n == 0,
        is_lagrange::<E>(u, n, 1, t),
        0 <= i < n,
        (t - pow(root_of_unity(E::generator(), E::modulus(), n), i as nat)) % E::modulus() == 0,
    ensures
        forall|k: int|
            0 <= k < n && k != i ==> #[trigger] u[k] % E::modulus() == 0,
        (u[i] - 1) % E::modulus() == 0,
{
    let r = E::modulus();
    let ws = domain_points::<E>(n);
    E::modulus_bound();
    lemma_generator_no_zero_divisors(E::generator(), r);
    assert forall|k: int| 0 <= k < n && k != i implies #[trigger] u[k] % r == 0 by {
        let p = without::<E>(n, k);
        let xs = ws.remove(k);
        let j = if i < k {
            i
        } else {
            i - 1
        };
        assert(xs[j] == ws[i]);
        lemma_root(xs, j, t, r);
        lemma_without::<E>(n, k);
        lemma_coefficient_without::<E>(u, n, t, k);
        assert((u[k] * eval(p, ws[k])) % r == 0);
    }
    let one = seq![1int];
    let vals = values_on_domain::<E>(one, n, 1);
    assert forall|x: int| #[trigger] eval(one, x) == 1 by {
        assert(eval(one.drop_first(), x) == 0);
        lemma_mul_basics(x);
    }
    let f = |k: int| u[k] * vals[k];
    let single = |k: int| if k == i { u[i] } else { 0 };
    lemma_zero_mod(r);
    assert forall|k: int| 0 <= k < n implies cong(#[trigger] f(k), single(k), r) by {
        assert(vals[k] == 1);
        lemma_mul_basics(u[k]);
    }
    lemma_sum_cong(n, f, single, r);
    lemma_sum_single(n, i, single);
    assert(cong(eval(one, t), dot(u, vals), r));
    lemma_mod_equivalence(u[i], 1, r);
}

/// Outside the domain, no coefficient is zero.
pub proof fn lemma_lagrange_outside<E: Groups>(u: Seq<int>, n: int, t: int, k: int)
    requires
        is_generator(E::generator(), E::modulus()),
        0 < n,
        2 * n <= E::modulus() - 1,
        (E::modulus() - 1) % n == 0,
        is_lagrange::<E>(u, n, 1, t),
        0 <= k < n,
        (pow(t, n as nat) - 1) % E::modulus() != 0,
    ensures
        u[k] % E::modulus() != 0,
{
    let (g, r) = (E::generator(), E::modulus());
    let ws = domain_points::<E>(n);
    let xs = ws.remove(k);
    E::modulus_bound();
    lemma_generator_no_zero_divisors(g, r);
    assert forall|i: int| 0 <= i < xs.len() implies (t - #[trigger] xs[i]) % r != 0 by {
        let j = if i < k {
            i
        } else {
            i + 1
        };
        assert(xs[i] == ws[j]);
        if (t - ws[j]) % r == 0 {
            lemma_mod_equivalence(t, ws[j], r);
            lemma_root_of_unity(g, r, n, j as nat);
            lemma_pow_mod_noop(t, n as nat, r);
            lemma_pow_mod_noop(ws[j], n as nat, r);
            lemma_mod_equivalence(pow(t, n as nat), 1, r);
        }
    }
    lemma_not_root(xs, t, r);
    lemma_coefficient_without::<E>(u, n, t, k);
    if u[k] % r == 0 {
        lemma_cong_mul_zero(eval(without::<E>(n, k), ws[k]), u[k], r);
    }
}

/// What the coefficients of a point of the domain leave of a column of the rows.
pub proof fn lemma_column_at_point(rows: Seq<Row>, u: Seq<int>, j: int, n: int, i: int, r: int)
    requires
        r > 0,
        rows.len() <= n,
        0 <= i < n,
        forall|k: int| 0 <= k < n && k != i ==> #[trigger] u[k] % r == 0,
        (u[i] - 1) % r == 0,
    ensures
        i < rows.len() ==> cong(column(rows, u, j), row_coeff(rows[i], j), r),
        rows.len() <= i ==> column(rows, u, j) % r == 0,
{
    let m = rows.len() as int;
    let f = |k: int| u[k] * row_coeff(rows[k], j);
    let single = |k: int| if k == i { row_coeff(rows[k], j) } else { 0 };
    lemma_zero_mod(r);
    assert forall|k: int| 0 <= k < m implies cong(#[trigger] f(k), single(k), r) by {
        let v = row_coeff(rows[k], j);
        if k == i {
            lemma_mod_equivalence(u[i], 1, r);
            lemma_cong_mul(u[k], 1, v, v, r);
            lemma_mul_basics(v);
        } else {
            lemma_cong_mul_zero(v, u[k], r);
        }
    }
    lemma_sum_cong(m, f, single, r);
    if i < m {
        lemma_sum_single(m, i, single);
    } else {
        lemma_sum_zero(m, single);
    }
    assert(column(rows, u, j) == sum(m, f));
}

} // verus!
