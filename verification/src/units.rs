//! The multiplicative group modulo a prime, its roots of unity, and the division
//! of polynomials by `x^n - 1`.
use crate::algebra::{
    cong, lemma_cong_mul, lemma_cong_mul_zero, lemma_cong_sub, lemma_zero_mod, no_zero_divisors,
};
use crate::polynomial::{
    eval, lemma_eval_mul, lemma_eval_of_zero, lemma_eval_shift, lemma_eval_sub, lemma_mul_len,
    lemma_too_many_roots, poly_mul, poly_shift, poly_sub,
};
use vstd::arithmetic::div_mod::{
    lemma_fundamental_div_mod, lemma_mod_equivalence, lemma_small_mod,
};
use vstd::arithmetic::power::{
    lemma1_pow, lemma_pow1, lemma_pow_adds, lemma_pow_distributes, lemma_pow_mod_noop,
    lemma_pow_multiplies, pow,
};
use vstd::prelude::*;

verus! {

/// `g` generates the group of the numbers `1..r` under multiplication modulo `r`:
/// each of them is a power of `g`, and `g` has order `r - 1`.
pub open spec fn is_generator(g: int, r: int) -> bool {
    &&& pow(g, (r - 1) as nat) % r == 1
    &&& forall|k: int| 0 < k < r - 1 ==> #[trigger] pow(g, k as nat) % r != 1
    &&& forall|x: int| 0 < x < r ==> #[trigger] is_power(x, g, r)
}

/// `x` is a power of `g` modulo `r`.
pub open spec fn is_power(x: int, g: int, r: int) -> bool {
    exists|k: nat| #[trigger] pow(g, k) % r == x
}

/// The root of unity of order `n` that the generator `g` gives.
pub open spec fn root_of_unity(g: int, r: int, n: int) -> int {
    pow(g, ((r - 1) / n) as nat) % r
}

proof fn lemma_power_nonzero(g: int, r: int, k: nat)
    requires
        r > 2,
        is_generator(g, r),
    ensures
        pow(g, k) % r != 0,
{
    if pow(g, k) % r == 0 {
        let m = (r - 2) as nat;
        let e = (r - 1) as nat;
        // g^k divides (g^k)^(r - 1) = (g^(r - 1))^k, which is congruent to 1.
        lemma_pow_adds(pow(g, k), 1, m);
        lemma_pow1(pow(g, k));
        lemma_cong_mul_zero(pow(pow(g, k), m), pow(g, k), r);
        lemma_pow_multiplies(g, k, e);
        lemma_pow_multiplies(g, e, k);
        assert(k * e == e * k) by (nonlinear_arith);
        lemma_pow_mod_noop(pow(g, e), k, r);
        lemma1_pow(k);
        lemma_small_mod(1, r as nat);
        assert(false);
    }
}

/// What has a generator has no zero divisors.
pub proof fn lemma_generator_no_zero_divisors(g: int, r: int)
    requires
        r > 2,
        is_generator(g, r),
    ensures
        no_zero_divisors(r),
{
    assert forall|a: int, b: int| #[trigger] (a * b) % r == 0 implies a % r == 0 || b % r == 0 by {
        if a % r != 0 && b % r != 0 {
            assert(is_power(a % r, g, r));
            assert(is_power(b % r, g, r));
            let i = choose|k: nat| #[trigger] pow(g, k) % r == a % r;
            let j = choose|k: nat| #[trigger] pow(g, k) % r == b % r;
            lemma_cong_mul(pow(g, i), a, pow(g, j), b, r);
            lemma_pow_adds(g, i, j);
            lemma_power_nonzero(g, r, i + j);
        }
    }
}

/// Powers of a generator are distinct as long as the exponents lie less than the
/// order apart.
proof fn lemma_powers_distinct(g: int, r: int, a: nat, b: nat)
    requires
        r > 2,
        is_generator(g, r),
        a != b,
        a < b ==> b - a < r - 1,
        b < a ==> a - b < r - 1,
    ensures
        (pow(g, a) - pow(g, b)) % r != 0,
{
    if (pow(g, a) - pow(g, b)) % r == 0 {
        let (low, high) = if a < b {
            (a, b)
        } else {
            (b, a)
        };
        lemma_mod_equivalence(pow(g, a), pow(g, b), r);
        let d = (high - low) as nat;
        lemma_pow_adds(g, low, d);
        let (u, v) = (pow(g, low), pow(g, d));
        assert(u * v - u == u * (v - 1)) by (nonlinear_arith);
        lemma_mod_equivalence(u * v, u, r);
        lemma_generator_no_zero_divisors(g, r);
        lemma_power_nonzero(g, r, low);
        assert((u * (v - 1)) % r == 0);
        assert((v - 1) % r == 0);
        lemma_mod_equivalence(v, 1, r);
        lemma_small_mod(1, r as nat);
        assert(pow(g, (d as int) as nat) % r == 1);
        assert(false);
    }
}

/// A root of unity of order `n`, raised to the power `n` and any other, is one.
pub proof fn lemma_root_of_unity(g: int, r: int, n: int, i: nat)
    requires
        r > 2,
        is_generator(g, r),
        n > 0,
        (r - 1) % n == 0,
    ensures
        cong(pow(pow(root_of_unity(g, r, n), i), n as nat), 1, r),
        cong(pow(root_of_unity(g, r, n), i), pow(g, ((r - 1) / n) as nat * i), r),
{
    let e = ((r - 1) / n) as nat;
    let w = root_of_unity(g, r, n);
    lemma_fundamental_div_mod(r - 1, n);
    assert(e >= 0) by (nonlinear_arith)
        requires
            r - 1 > 0,
            n > 0,
            e == (r - 1) / n,
    ;
    lemma_pow_mod_noop(pow(g, e), i, r);
    lemma_pow_multiplies(g, e, i);
    lemma_pow_multiplies(w, i, n as nat);
    lemma_pow_multiplies(w, n as nat, i);
    assert(i * (n as nat) == (n as nat) * i) by (nonlinear_arith);
    lemma_pow_mod_noop(pow(g, e), n as nat, r);
    lemma_pow_multiplies(g, e, n as nat);
    assert(e * (n as nat) == r - 1) by (nonlinear_arith)
        requires
            r - 1 == n * ((r - 1) / n) + (r - 1) % n,
            (r - 1) % n == 0,
            e == (r - 1) / n,
            n > 0,
    ;
    assert(pow(w, n as nat) % r == 1);
    lemma_pow_mod_noop(pow(w, n as nat), i, r);
    lemma1_pow(i);
}

/// A power of a generator below its order is not congruent to one.
pub proof fn lemma_generator_power_not_one(g: int, r: int, n: int)
    requires
        r > 2,
        is_generator(g, r),
        0 < n < r - 1,
    ensures
        (pow(g, n as nat) - 1) % r != 0,
{
    lemma_mod_equivalence(pow(g, n as nat), 1, r);
    lemma_small_mod(1, r as nat);
}

/// A generator is not zero.
pub proof fn lemma_generator_nonzero(g: int, r: int)
    requires
        r > 2,
        is_generator(g, r),
    ensures
        g % r != 0,
{
    lemma_power_nonzero(g, r, 1);
    lemma_pow1(g);
}

/// The points of the domain of `n` roots of unity, then those of its coset.
pub open spec fn points(g: int, r: int, n: int) -> Seq<int> {
    Seq::new(
        (2 * n) as nat,
        |i: int|
            if i < n {
                pow(root_of_unity(g, r, n), i as nat)
            } else {
                g * pow(root_of_unity(g, r, n), (i - n) as nat)
            },
    )
}

pub proof fn lemma_points_distinct(g: int, r: int, n: int)
    requires
        r > 2,
        is_generator(g, r),
        n > 0,
        (r - 1) % n == 0,
        2 * n <= r - 1,
    ensures
        forall|i: int, j: int|
            0 <= i < j < 2 * n ==> (#[trigger] points(g, r, n)[i] - #[trigger] points(g, r, n)[j])
                % r != 0,
{
    let e = (r - 1) / n;
    lemma_fundamental_div_mod(r - 1, n);
    assert(e >= 2 && e * n == r - 1) by (nonlinear_arith)
        requires
            r - 1 == n * ((r - 1) / n) + (r - 1) % n,
            (r - 1) % n == 0,
            e == (r - 1) / n,
            n > 0,
            2 * n <= r - 1,
    ;
    let xs = points(g, r, n);
    let exponent = |i: int|
        if i < n {
            e * i
        } else {
            1 + e * (i - n)
        };
    assert forall|i: int| 0 <= i < 2 * n implies {
        &&& 0 <= #[trigger] exponent(i) < r - 1
        &&& cong(xs[i], pow(g, exponent(i) as nat), r)
    } by {
        let k = if i < n {
            i
        } else {
            i - n
        };
        lemma_root_of_unity(g, r, n, k as nat);
        assert(0 <= e * k && e * k <= e * n - e) by (nonlinear_arith)
            requires
                0 <= k <= n - 1,
                e >= 2,
        ;
        if i >= n {
            lemma_pow_adds(g, 1, (e * k) as nat);
            lemma_pow1(g);
            lemma_cong_mul(
                g,
                g,
                pow(root_of_unity(g, r, n), k as nat),
                pow(g, (e * k) as nat),
                r,
            );
        }
    }
    assert forall|i: int, j: int| 0 <= i < j < 2 * n implies (#[trigger] xs[i]
        - #[trigger] xs[j]) % r != 0 by {
        let (a, b) = (exponent(i), exponent(j));
        assert(a != b) by (nonlinear_arith)
            requires
                0 <= i < j < 2 * n,
                n > 0,
                e >= 2,
                a == (if i < n {
                    e * i
                } else {
                    1 + e * (i - n)
                }),
                b == (if j < n {
                    e * j
                } else {
                    1 + e * (j - n)
                }),
        {
            if j < n {
                assert(e * i < e * j) by (nonlinear_arith)
                    requires
                        i < j,
                        e >= 2,
                ;
            } else if i >= n {
                assert(e * (i - n) < e * (j - n)) by (nonlinear_arith)
                    requires
                        i < j,
                        e >= 2,
                ;
            } else if i <= j - n {
                assert(e * i <= e * (j - n)) by (nonlinear_arith)
                    requires
                        i <= j - n,
                        e >= 2,
                ;
            } else {
                assert(e * i >= e * (j - n) + e) by (nonlinear_arith)
                    requires
                        i >= j - n + 1,
                        e >= 2,
                ;
            }
        }
        lemma_powers_distinct(g, r, a as nat, b as nat);
        lemma_cong_sub(xs[i], pow(g, a as nat), xs[j], pow(g, b as nat), r);
    }
}

/// A polynomial of degree below `n` is known by its values on the `n` roots of
/// unity, and by those on their coset: on the points from `start` on.
pub proof fn lemma_interpolation_unique(
    g: int,
    r: int,
    n: int,
    start: int,
    p: Seq<int>,
    q: Seq<int>,
)
    requires
        r > 2,
        is_generator(g, r),
        n > 0,
        (r - 1) % n == 0,
        2 * n <= r - 1,
        0 <= start <= n,
        p.len() == n,
        q.len() == n,
        forall|i: int|
            start <= i < start + n ==> {
                let x = #[trigger] points(g, r, n)[i];
                cong(eval(p, x), eval(q, x), r)
            },
    ensures
        forall|i: int| 0 <= i < n ==> cong(#[trigger] p[i], q[i], r),
        forall|x: int| cong(#[trigger] eval(p, x), eval(q, x), r),
{
    let d = poly_sub(p, q);
    let xs = points(g, r, n).subrange(start, start + n);
    lemma_points_distinct(g, r, n);
    lemma_generator_no_zero_divisors(g, r);
    assert forall|i: int| 0 <= i < xs.len() implies eval(d, #[trigger] xs[i]) % r == 0 by {
        let x = points(g, r, n)[start + i];
        assert(xs[i] == x);
        lemma_eval_sub(p, q, x);
        lemma_mod_equivalence(eval(p, x), eval(q, x), r);
    }
    assert forall|i: int, j: int| 0 <= i < j < xs.len() implies (#[trigger] xs[i]
        - #[trigger] xs[j]) % r != 0 by {
        assert(xs[i] == points(g, r, n)[start + i] && xs[j] == points(g, r, n)[start + j]);
    }
    lemma_too_many_roots(d, xs, r);
    assert forall|i: int| 0 <= i < n implies cong(#[trigger] p[i], q[i], r) by {
        assert(d[i] == p[i] - q[i]);
        lemma_mod_equivalence(p[i], q[i], r);
    }
    assert forall|x: int| cong(#[trigger] eval(p, x), eval(q, x), r) by {
        lemma_eval_sub(p, q, x);
        lemma_eval_of_zero(d, x, r);
        lemma_mod_equivalence(eval(p, x), eval(q, x), r);
    }
}

/// The polynomial `p q - s - h (x^n - 1)`.
spec fn remainder(p: Seq<int>, q: Seq<int>, s: Seq<int>, h: Seq<int>, n: int) -> Seq<int> {
    poly_sub(poly_sub(poly_mul(p, q), s), poly_sub(poly_shift(n, h), h))
}

proof fn lemma_eval_remainder(
    p: Seq<int>,
    q: Seq<int>,
    s: Seq<int>,
    h: Seq<int>,
    n: int,
    x: int,
)
    requires
        n >= 0,
    ensures
        eval(remainder(p, q, s, h, n), x) == eval(p, x) * eval(q, x) - eval(s, x) - eval(h, x) * (
        pow(x, n as nat) - 1),
{
    lemma_eval_sub(poly_sub(poly_mul(p, q), s), poly_sub(poly_shift(n, h), h), x);
    lemma_eval_sub(poly_mul(p, q), s, x);
    lemma_eval_sub(poly_shift(n, h), h, x);
    lemma_eval_mul(p, q, x);
    lemma_eval_shift(n, h, x);
    let (u, v) = (eval(h, x), pow(x, n as nat));
    assert(v * u - u == u * (v - 1)) by (nonlinear_arith);
}

/// Where `p q - s` vanishes on the `n` roots of unity, and `h` takes the values
/// of `(p q - s) / (x^n - 1)` on the coset of the generator, `h` is the quotient:
/// `p q - s = h (x^n - 1)` everywhere, and `h` has degree below `n - 1`.
pub proof fn lemma_quotient(
    g: int,
    r: int,
    n: int,
    p: Seq<int>,
    q: Seq<int>,
    s: Seq<int>,
    h: Seq<int>,
)
    requires
        r > 2,
        is_generator(g, r),
        n > 0,
        (r - 1) % n == 0,
        2 * n <= r - 1,
        p.len() == n,
        q.len() == n,
        s.len() == n,
        h.len() == n,
        forall|i: int|
            0 <= i < n ==> {
                let x = #[trigger] points(g, r, n)[i];
                (eval(p, x) * eval(q, x) - eval(s, x)) % r == 0
            },
        forall|i: int|
            n <= i < 2 * n ==> {
                let x = #[trigger] points(g, r, n)[i];
                cong(
                    eval(h, x) * (pow(g, n as nat) - 1),
                    eval(p, x) * eval(q, x) - eval(s, x),
                    r,
                )
            },
    ensures
        forall|x: int|
            cong(
                eval(p, x) * eval(q, x) - eval(s, x),
                #[trigger] eval(h, x) * (pow(x, n as nat) - 1),
                r,
            ),
        h[n - 1] % r == 0,
{
    let d = remainder(p, q, s, h, n);
    let xs = points(g, r, n);
    lemma_mul_len(p, q);
    assert(d.len() == 2 * n);
    assert forall|i: int| 0 <= i < xs.len() implies eval(d, #[trigger] xs[i]) % r == 0 by {
        let x = xs[i];
        lemma_eval_remainder(p, q, s, h, n, x);
        let lhs = eval(p, x) * eval(q, x) - eval(s, x);
        let w = root_of_unity(g, r, n);
        let v = eval(h, x);
        let k = if i < n {
            i
        } else {
            i - n
        };
        lemma_root_of_unity(g, r, n, k as nat);
        lemma_zero_mod(r);
        if i < n {
            lemma_cong_sub(pow(x, n as nat), 1, 1, 1, r);
            lemma_cong_mul_zero(v, pow(x, n as nat) - 1, r);
            lemma_cong_sub(lhs, 0, v * (pow(x, n as nat) - 1), 0, r);
        } else {
            lemma_pow_distributes(g, pow(w, k as nat), n as nat);
            lemma_cong_mul(
                pow(g, n as nat),
                pow(g, n as nat),
                pow(pow(w, k as nat), n as nat),
                1,
                r,
            );
            assert(cong(pow(x, n as nat), pow(g, n as nat), r));
            lemma_cong_sub(pow(x, n as nat), pow(g, n as nat), 1, 1, r);
            lemma_cong_mul(v, v, pow(x, n as nat) - 1, pow(g, n as nat) - 1, r);
            lemma_cong_sub(lhs, lhs, v * (pow(x, n as nat) - 1), lhs, r);
        }
    }
    lemma_points_distinct(g, r, n);
    lemma_generator_no_zero_divisors(g, r);
    lemma_too_many_roots(d, xs, r);
    assert forall|x: int|
        cong(
            eval(p, x) * eval(q, x) - eval(s, x),
            #[trigger] eval(h, x) * (pow(x, n as nat) - 1),
            r,
        ) by {
        lemma_eval_remainder(p, q, s, h, n, x);
        lemma_eval_of_zero(d, x, r);
        lemma_mod_equivalence(
            eval(p, x) * eval(q, x) - eval(s, x),
            eval(h, x) * (pow(x, n as nat) - 1),
            r,
        );
    }
    assert(d[2 * n - 1] == -h[n - 1] || (n == 1 && d[1] == -h[0]));
    assert(d[2 * n - 1] % r == 0);
    lemma_zero_mod(r);
    lemma_cong_sub(0, 0, d[2 * n - 1], 0, r);
}

} // verus!
