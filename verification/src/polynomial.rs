//! Polynomials with integer coefficients, and how many roots they can have
//! modulo a number without zero divisors.
//!
//! A polynomial is the sequence of its coefficients, the constant one first.
use crate::algebra::{
    lemma_cong_add, lemma_cong_mul_zero, lemma_cong_sub, lemma_sum_eq, lemma_sum_scale,
    lemma_sum_split, lemma_zero_mod, no_zero_divisors, sum,
};
use vstd::arithmetic::power::{lemma_pow0, lemma_pow1, lemma_pow_adds, pow};
use vstd::prelude::*;

verus! {

/// The value of the polynomial `p` at `x`.
pub open spec fn eval(p: Seq<int>, x: int) -> int
    decreases p.len(),
{
    if p.len() == 0 {
        0
    } else {
        p[0] + x * eval(p.drop_first(), x)
    }
}

/// The value of a polynomial is the sum of its terms.
pub proof fn lemma_eval_is_sum(p: Seq<int>, x: int)
    ensures
        eval(p, x) == sum(p.len() as int, |i: int| p[i] * pow(x, i as nat)),
    decreases p.len(),
{
    if p.len() > 0 {
        let q = p.drop_first();
        let n = q.len() as int;
        lemma_eval_is_sum(q, x);
        let term = |i: int| p[i] * pow(x, i as nat);
        let tail = |i: int| q[i] * pow(x, i as nat);
        lemma_sum_split(1, n, term);
        lemma_sum_scale(n, x, tail);
        let shifted = |i: int| term(1 + i);
        assert forall|i: int| 0 <= i < n implies #[trigger] shifted(i) == x * tail(i) by {
            lemma_pow1(x);
            lemma_pow_adds(x, 1, i as nat);
            assert(p[1 + i] * (x * pow(x, i as nat)) == x * (q[i] * pow(x, i as nat)))
                by (nonlinear_arith)
                requires
                    p[1 + i] == q[i],
            ;
        }
        lemma_sum_eq(n, shifted, |i: int| x * tail(i));
        lemma_pow0(x);
        assert(sum(1, term) == sum(0, term) + term(0));
    }
}

// ---------------------------------------------------------------------------
// Sums, multiples and products
// ---------------------------------------------------------------------------

/// The coefficient of `x^i`, zero beyond the end.
pub open spec fn coefficient(p: Seq<int>, i: int) -> int {
    if 0 <= i < p.len() {
        p[i]
    } else {
        0
    }
}

/// `p - q`.
pub open spec fn poly_sub(p: Seq<int>, q: Seq<int>) -> Seq<int> {
    Seq::new(
        if p.len() < q.len() {
            q.len()
        } else {
            p.len()
        },
        |i: int| coefficient(p, i) - coefficient(q, i),
    )
}

/// `p + q`.
pub open spec fn poly_add(p: Seq<int>, q: Seq<int>) -> Seq<int> {
    Seq::new(
        if p.len() < q.len() {
            q.len()
        } else {
            p.len()
        },
        |i: int| coefficient(p, i) + coefficient(q, i),
    )
}

/// `k * p`.
pub open spec fn poly_scale(k: int, p: Seq<int>) -> Seq<int> {
    Seq::new(p.len(), |i: int| k * p[i])
}

/// `p * q`.
pub open spec fn poly_mul(p: Seq<int>, q: Seq<int>) -> Seq<int>
    decreases p.len(),
{
    if p.len() == 0 {
        Seq::empty()
    } else {
        poly_add(poly_scale(p[0], q), seq![0int] + poly_mul(p.drop_first(), q))
    }
}

/// `x^n * p`.
pub open spec fn poly_shift(n: int, p: Seq<int>) -> Seq<int> {
    Seq::new(n as nat, |i: int| 0int) + p
}

proof fn lemma_eval_add(p: Seq<int>, q: Seq<int>, x: int)
    ensures
        eval(poly_add(p, q), x) == eval(p, x) + eval(q, x),
    decreases p.len() + q.len(),
{
    let s = poly_add(p, q);
    if s.len() == 0 {
    } else if p.len() == 0 {
        assert(s =~= q);
    } else if q.len() == 0 {
        assert(s =~= p);
    } else {
        lemma_eval_add(p.drop_first(), q.drop_first(), x);
        assert(s.drop_first() =~= poly_add(p.drop_first(), q.drop_first()));
        let (u, v) = (eval(p.drop_first(), x), eval(q.drop_first(), x));
        assert(x * (u + v) == x * u + x * v) by (nonlinear_arith);
    }
}

pub proof fn lemma_eval_sub(p: Seq<int>, q: Seq<int>, x: int)
    ensures
        eval(poly_sub(p, q), x) == eval(p, x) - eval(q, x),
    decreases p.len() + q.len(),
{
    let s = poly_sub(p, q);
    lemma_eval_add(s, q, x);
    let t = poly_add(s, q);
    assert(t.len() >= p.len());
    assert(t =~= p + Seq::new((t.len() - p.len()) as nat, |i: int| 0int));
    lemma_eval_pad(p, t.len() - p.len(), x);
}

/// Zeros behind the last coefficient change no value.
proof fn lemma_eval_pad(p: Seq<int>, n: int, x: int)
    requires
        n >= 0,
    ensures
        eval(p + Seq::new(n as nat, |i: int| 0int), x) == eval(p, x),
    decreases p.len() + n,
{
    let zeros = Seq::new(n as nat, |i: int| 0int);
    let s = p + zeros;
    if p.len() > 0 {
        lemma_eval_pad(p.drop_first(), n, x);
        assert(s.drop_first() =~= p.drop_first() + zeros);
    } else if n > 0 {
        lemma_eval_pad(p, n - 1, x);
        assert(s.drop_first() =~= p + Seq::new((n - 1) as nat, |i: int| 0int));
        assert(x * 0 == 0) by (nonlinear_arith);
    }
}

proof fn lemma_eval_scale(k: int, p: Seq<int>, x: int)
    ensures
        eval(poly_scale(k, p), x) == k * eval(p, x),
    decreases p.len(),
{
    if p.len() == 0 {
        assert(k * 0 == 0) by (nonlinear_arith);
    } else {
        lemma_eval_scale(k, p.drop_first(), x);
        assert(poly_scale(k, p).drop_first() =~= poly_scale(k, p.drop_first()));
        let (a, u) = (p[0], eval(p.drop_first(), x));
        assert(k * a + x * (k * u) == k * (a + x * u)) by (nonlinear_arith);
    }
}

/// The product of polynomials has the product of their values.
pub proof fn lemma_eval_mul(p: Seq<int>, q: Seq<int>, x: int)
    ensures
        eval(poly_mul(p, q), x) == eval(p, x) * eval(q, x),
    decreases p.len(),
{
    let v = eval(q, x);
    if p.len() == 0 {
        assert(0 * v == 0) by (nonlinear_arith);
    } else {
        let rest = poly_mul(p.drop_first(), q);
        lemma_eval_mul(p.drop_first(), q, x);
        lemma_eval_add(poly_scale(p[0], q), seq![0int] + rest, x);
        lemma_eval_scale(p[0], q, x);
        assert((seq![0int] + rest).drop_first() =~= rest);
        let (a, u) = (p[0], eval(p.drop_first(), x));
        assert(a * v + x * (u * v) == (a + x * u) * v) by (nonlinear_arith);
    }
}

/// A product of two polynomials of `m` and `n` coefficients has `m + n - 1`.
pub proof fn lemma_mul_len(p: Seq<int>, q: Seq<int>)
    requires
        p.len() > 0,
        q.len() > 0,
    ensures
        poly_mul(p, q).len() == p.len() + q.len() - 1,
    decreases p.len(),
{
    if p.len() > 1 {
        lemma_mul_len(p.drop_first(), q);
    } else {
        assert(poly_mul(p.drop_first(), q).len() == 0);
    }
}

pub proof fn lemma_eval_shift(n: int, p: Seq<int>, x: int)
    requires
        n >= 0,
    ensures
        eval(poly_shift(n, p), x) == pow(x, n as nat) * eval(p, x),
    decreases n,
{
    let v = eval(p, x);
    if n == 0 {
        assert(poly_shift(n, p) =~= p);
        lemma_pow0(x);
    } else {
        lemma_eval_shift(n - 1, p, x);
        assert(poly_shift(n, p).drop_first() =~= poly_shift(n - 1, p));
        lemma_pow1(x);
        lemma_pow_adds(x, 1, (n - 1) as nat);
        let w = pow(x, (n - 1) as nat);
        assert(x * (w * v) == (x * w) * v) by (nonlinear_arith);
    }
}

// ---------------------------------------------------------------------------
// Roots
// ---------------------------------------------------------------------------

/// The quotient of `p` by `x - a`.
spec fn quotient_by_root(p: Seq<int>, a: int) -> Seq<int>
    decreases p.len(),
{
    if p.len() <= 1 {
        Seq::empty()
    } else {
        seq![eval(p.drop_first(), a)] + quotient_by_root(p.drop_first(), a)
    }
}

proof fn lemma_quotient_by_root(p: Seq<int>, a: int, x: int)
    ensures
        eval(p, x) - eval(p, a) == (x - a) * eval(quotient_by_root(p, a), x),
        p.len() > 0 ==> quotient_by_root(p, a).len() == p.len() - 1,
    decreases p.len(),
{
    let q = quotient_by_root(p, a);
    if p.len() <= 1 {
        if p.len() == 1 {
            assert(eval(p.drop_first(), x) == 0 && eval(p.drop_first(), a) == 0);
            assert(x * 0 == 0 && a * 0 == 0) by (nonlinear_arith);
        }
        assert(eval(q, x) == 0);
        assert((x - a) * 0 == 0) by (nonlinear_arith);
    } else {
        let t = p.drop_first();
        lemma_quotient_by_root(t, a, x);
        assert(q.drop_first() =~= quotient_by_root(t, a));
        let (tx, ta, qx) = (eval(t, x), eval(t, a), eval(quotient_by_root(t, a), x));
        assert(x * tx - a * ta == (x - a) * (ta + x * qx)) by (nonlinear_arith)
            requires
                tx - ta == (x - a) * qx,
        {
            assert(x * tx - a * ta == (x - a) * ta + x * (tx - ta)) by (nonlinear_arith);
            assert(x * ((x - a) * qx) == (x - a) * (x * qx)) by (nonlinear_arith);
            assert((x - a) * (ta + x * qx) == (x - a) * ta + (x - a) * (x * qx))
                by (nonlinear_arith);
        }
    }
}

/// Where the quotient's coefficients and the remainder vanish modulo `r`, so do
/// the coefficients of the polynomial.
proof fn lemma_coefficients_from_quotient(p: Seq<int>, a: int, r: int)
    requires
        r > 0,
        eval(p, a) % r == 0,
        forall|i: int|
            0 <= i < quotient_by_root(p, a).len() ==> #[trigger] quotient_by_root(p, a)[i] % r == 0,
    ensures
        forall|i: int| 0 <= i < p.len() ==> #[trigger] p[i] % r == 0,
    decreases p.len(),
{
    if p.len() > 0 {
        let t = p.drop_first();
        let q = quotient_by_root(p, a);
        if p.len() == 1 {
            assert(t.len() == 0);
            assert(a * 0 == 0) by (nonlinear_arith);
        } else {
            let qt = quotient_by_root(t, a);
            assert(q =~= seq![eval(t, a)] + qt);
            assert(q[0] % r == 0);
            assert forall|i: int| 0 <= i < qt.len() implies #[trigger] qt[i] % r == 0 by {
                assert(q[i + 1] == qt[i]);
            }
            lemma_coefficients_from_quotient(t, a, r);
            lemma_cong_mul_zero(a, eval(t, a), r);
            lemma_cong_sub(eval(p, a), 0, a * eval(t, a), 0, r);
            assert(p[0] == eval(p, a) - a * eval(t, a));
        }
        assert forall|i: int| 0 <= i < p.len() implies #[trigger] p[i] % r == 0 by {
            if i > 0 {
                assert(p[i] == t[i - 1]);
            }
        }
    }
}

/// A polynomial with as many roots as coefficients, no two of them congruent,
/// has no coefficient that differs from zero.
pub proof fn lemma_too_many_roots(p: Seq<int>, roots: Seq<int>, r: int)
    requires
        r > 0,
        no_zero_divisors(r),
        p.len() <= roots.len(),
        forall|i: int| 0 <= i < roots.len() ==> eval(p, #[trigger] roots[i]) % r == 0,
        forall|i: int, j: int|
            0 <= i < j < roots.len() ==> (#[trigger] roots[i] - #[trigger] roots[j]) % r != 0,
    ensures
        forall|i: int| 0 <= i < p.len() ==> #[trigger] p[i] % r == 0,
    decreases p.len(),
{
    if p.len() > 0 {
        let a = roots.last();
        let q = quotient_by_root(p, a);
        let rest = roots.drop_last();
        lemma_quotient_by_root(p, a, a);
        assert forall|i: int| 0 <= i < rest.len() implies eval(q, #[trigger] rest[i]) % r == 0 by {
            let x = roots[i];
            lemma_quotient_by_root(p, a, x);
            lemma_cong_sub(eval(p, x), 0, eval(p, a), 0, r);
            assert(((x - a) * eval(q, x)) % r == 0);
            assert((roots[i] - roots[roots.len() - 1]) % r != 0);
        }
        lemma_too_many_roots(q, rest, r);
        lemma_coefficients_from_quotient(p, a, r);
    }
}

/// A polynomial whose coefficients vanish modulo `r` vanishes everywhere.
pub proof fn lemma_eval_of_zero(p: Seq<int>, x: int, r: int)
    requires
        r > 0,
        forall|i: int| 0 <= i < p.len() ==> #[trigger] p[i] % r == 0,
    ensures
        eval(p, x) % r == 0,
    decreases p.len(),
{
    lemma_zero_mod(r);
    if p.len() > 0 {
        let t = p.drop_first();
        assert forall|i: int| 0 <= i < t.len() implies #[trigger] t[i] % r == 0 by {
            assert(t[i] == p[i + 1]);
        }
        lemma_eval_of_zero(t, x, r);
        lemma_cong_mul_zero(x, eval(t, x), r);
        assert(p[0] % r == 0);
        lemma_cong_add(p[0], 0, x * eval(t, x), 0, r);
    }
}

} // verus!
