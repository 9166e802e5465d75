//! Sums, congruences and polynomials over the integers, and what they become
//! modulo a number that has no zero divisors.
//!
//! Everything here is ghost code: field elements are modelled by integers, a
//! polynomial by the sequence of its coefficients (the constant one first), and
//! the equations of the field by congruences.
use vstd::arithmetic::div_mod::{
    lemma_add_mod_noop, lemma_mod_twice, lemma_mul_mod_noop_general, lemma_small_mod,
    lemma_sub_mod_noop,
};
use vstd::arithmetic::mul::{lemma_mul_is_commutative, lemma_mul_is_distributive_add};
use vstd::prelude::*;

verus! {

// ---------------------------------------------------------------------------
// Congruences
// ---------------------------------------------------------------------------

/// `a` and `b` leave the same remainder modulo `r`.
pub open spec fn cong(a: int, b: int, r: int) -> bool {
    a % r == b % r
}

/// A product that vanishes modulo `r` has a factor that does.
pub open spec fn no_zero_divisors(r: int) -> bool {
    forall|a: int, b: int| #[trigger] (a * b) % r == 0 ==> a % r == 0 || b % r == 0
}

pub proof fn lemma_cong_add(a: int, b: int, c: int, d: int, r: int)
    requires
        r > 0,
        cong(a, b, r),
        cong(c, d, r),
    ensures
        cong(a + c, b + d, r),
{
    lemma_add_mod_noop(a, c, r);
    lemma_add_mod_noop(b, d, r);
}

pub proof fn lemma_cong_sub(a: int, b: int, c: int, d: int, r: int)
    requires
        r > 0,
        cong(a, b, r),
        cong(c, d, r),
    ensures
        cong(a - c, b - d, r),
{
    lemma_sub_mod_noop(a, c, r);
    lemma_sub_mod_noop(b, d, r);
}

pub proof fn lemma_cong_mul(a: int, b: int, c: int, d: int, r: int)
    requires
        r > 0,
        cong(a, b, r),
        cong(c, d, r),
    ensures
        cong(a * c, b * d, r),
{
    lemma_mul_mod_noop_general(a, c, r);
    lemma_mul_mod_noop_general(b, d, r);
}

pub proof fn lemma_cong_mod(a: int, r: int)
    requires
        r > 0,
    ensures
        cong(a % r, a, r),
{
    lemma_mod_twice(a, r);
}

/// Zero leaves no remainder.
pub proof fn lemma_zero_mod(r: int)
    requires
        r > 0,
    ensures
        0int % r == 0,
{
    lemma_small_mod(0, r as nat);
}

/// A multiple of something that vanishes, vanishes.
pub proof fn lemma_cong_mul_zero(a: int, b: int, r: int)
    requires
        r > 0,
        b % r == 0,
    ensures
        (a * b) % r == 0,
        (b * a) % r == 0,
{
    lemma_mul_mod_noop_general(a, b, r);
    lemma_mul_is_commutative(a, b);
    lemma_zero_mod(r);
    assert((a % r) * (b % r) == 0) by (nonlinear_arith)
        requires
            b % r == 0,
    ;
}

// ---------------------------------------------------------------------------
// Sums
// ---------------------------------------------------------------------------

/// The sum `f(0) + f(1) + ... + f(n - 1)`.
pub open spec fn sum(n: int, f: spec_fn(int) -> int) -> int
    decreases n,
{
    if n <= 0 {
        0
    } else {
        sum(n - 1, f) + f(n - 1)
    }
}

/// Sums of congruent terms are congruent.
pub proof fn lemma_sum_cong(n: int, f: spec_fn(int) -> int, g: spec_fn(int) -> int, r: int)
    requires
        r > 0,
        forall|i: int| 0 <= i < n ==> cong(#[trigger] f(i), g(i), r),
    ensures
        cong(sum(n, f), sum(n, g), r),
    decreases n,
{
    if n > 0 {
        lemma_sum_cong(n - 1, f, g, r);
        lemma_cong_add(sum(n - 1, f), sum(n - 1, g), f(n - 1), g(n - 1), r);
    }
}

/// Sums of equal terms are equal.
pub proof fn lemma_sum_eq(n: int, f: spec_fn(int) -> int, g: spec_fn(int) -> int)
    requires
        forall|i: int| 0 <= i < n ==> #[trigger] f(i) == g(i),
    ensures
        sum(n, f) == sum(n, g),
    decreases n,
{
    if n > 0 {
        lemma_sum_eq(n - 1, f, g);
    }
}

pub proof fn lemma_sum_add(n: int, f: spec_fn(int) -> int, g: spec_fn(int) -> int)
    ensures
        sum(n, |i: int| f(i) + g(i)) == sum(n, f) + sum(n, g),
    decreases n,
{
    if n > 0 {
        lemma_sum_add(n - 1, f, g);
    }
}

pub proof fn lemma_sum_scale(n: int, k: int, f: spec_fn(int) -> int)
    ensures
        sum(n, |i: int| k * f(i)) == k * sum(n, f),
    decreases n,
{
    if n > 0 {
        lemma_sum_scale(n - 1, k, f);
        lemma_mul_is_distributive_add(k, sum(n - 1, f), f(n - 1));
    } else {
        assert(k * 0 == 0) by (nonlinear_arith);
    }
}

/// A sum of zeros is zero.
pub proof fn lemma_sum_zero(n: int, f: spec_fn(int) -> int)
    requires
        forall|i: int| 0 <= i < n ==> #[trigger] f(i) == 0,
    ensures
        sum(n, f) == 0,
    decreases n,
{
    if n > 0 {
        lemma_sum_zero(n - 1, f);
    }
}

/// A sum with one term that may differ from zero.
pub proof fn lemma_sum_single(n: int, k: int, f: spec_fn(int) -> int)
    requires
        0 <= k < n,
        forall|i: int| 0 <= i < n && i != k ==> #[trigger] f(i) == 0,
    ensures
        sum(n, f) == f(k),
    decreases n,
{
    if k == n - 1 {
        lemma_sum_zero(n - 1, f);
    } else {
        lemma_sum_single(n - 1, k, f);
    }
}

/// A sum over `m + n` terms is the sum of the first `m` and of the other `n`.
pub proof fn lemma_sum_split(m: int, n: int, f: spec_fn(int) -> int)
    requires
        0 <= m,
        0 <= n,
    ensures
        sum(m + n, f) == sum(m, f) + sum(n, |i: int| f(m + i)),
    decreases n,
{
    if n > 0 {
        lemma_sum_split(m, n - 1, f);
        assert(sum(m + n, f) == sum(m + (n - 1), f) + f(m + (n - 1)));
    }
}

/// The order in which a rectangle of terms is summed does not matter.
pub proof fn lemma_sum_swap(m: int, n: int, f: spec_fn(int, int) -> int)
    ensures
        sum(m, |i: int| sum(n, |j: int| f(i, j))) == sum(n, |j: int| sum(m, |i: int| f(i, j))),
    decreases m,
{
    if m <= 0 {
        lemma_sum_zero(n, |j: int| sum(m, |i: int| f(i, j)));
    } else {
        lemma_sum_swap(m - 1, n, f);
        let whole = |j: int| sum(m, |i: int| f(i, j));
        let before = |j: int| sum(m - 1, |i: int| f(i, j));
        let last = |j: int| f(m - 1, j);
        lemma_sum_add(n, before, last);
        assert forall|j: int| 0 <= j < n implies #[trigger] whole(j) == before(j) + last(j) by {
            let column = |i: int| f(i, j);
            assert(sum(m, column) == sum(m - 1, column) + column(m - 1));
        }
        lemma_sum_eq(n, whole, |j: int| before(j) + last(j));
    }
}

// ---------------------------------------------------------------------------
// Sequences
// ---------------------------------------------------------------------------

/// The views of the elements of a sequence.
pub open spec fn views<T: View<V = int>>(s: Seq<T>) -> Seq<int> {
    Seq::new(s.len(), |i: int| s[i]@)
}

/// The inner product of two sequences, over the shorter of the two lengths.
pub open spec fn dot(xs: Seq<int>, ys: Seq<int>) -> int {
    sum(
        if xs.len() < ys.len() {
            xs.len() as int
        } else {
            ys.len() as int
        },
        |i: int| xs[i] * ys[i],
    )
}

/// The number that the bytes of `s` spell, the least significant one first.
pub open spec fn le_value(s: Seq<u8>) -> int
    decreases s.len(),
{
    if s.len() == 0 {
        0
    } else {
        s[0] + 256 * le_value(s.drop_first())
    }
}

} // verus!
