//! The equation that the verifier checks.
use crate::algebra::{cong, lemma_cong_add, lemma_cong_mod, lemma_cong_mul, lemma_cong_sub};
use vstd::prelude::*;

verus! {

/// The identity behind the construction. Here `sa`, `sb` and `sc` are the values
/// of the program at the secret point, `q` that of the quotient times that of the
/// vanishing polynomial, `pi` and `pw` what the key holds of the instance and of
/// the witness, and `d` the secret that the prover chose.
proof fn lemma_identity(
    alpha: int,
    beta: int,
    d: int,
    rr: int,
    ss: int,
    sa: int,
    sb: int,
    sc: int,
    q: int,
    pi: int,
    pw: int,
)
    requires
        pi + pw == beta * sa + alpha * sb + sc,
    ensures
        ({
            let a = alpha + sa + rr * d;
            let b = beta + sb + ss * d;
            a * b - pi - ((ss * a + rr * b - rr * ss * d) * d + pw + q) == alpha * beta + (sa * sb
                - sc - q)
        }),
{
    let (u, v) = (alpha + sa, beta + sb);
    let (x, y) = (rr * d, ss * d);
    let (a, b) = (u + x, v + y);
    // Both products expand to u v and the terms with d.
    assert((u + x) * (v + y) == u * v + u * y + v * x + x * y) by (nonlinear_arith);
    let (e1, e2, e3) = (ss * a, rr * b, rr * ss * d);
    assert((e1 + e2 - e3) * d == e1 * d + e2 * d - e3 * d) by (nonlinear_arith);
    assert((ss * a) * d == a * (ss * d)) by (nonlinear_arith);
    assert((rr * b) * d == b * (rr * d)) by (nonlinear_arith);
    assert((rr * ss * d) * d == (rr * d) * (ss * d)) by (nonlinear_arith);
    assert((u + x) * y + (v + y) * x - x * y == u * y + v * x + x * y) by (nonlinear_arith);
    assert((alpha + sa) * (beta + sb) == alpha * beta + alpha * sb + beta * sa + sa * sb)
        by (nonlinear_arith);
}

/// What `c` contributes to the equation: it was divided by the denominator, which
/// the multiple of `delta` brings back.
pub proof fn lemma_c_term(
    r: int,
    g1: int,
    g2: int,
    delta: int,
    zeta: int,
    m: int,
    rr: int,
    ss: int,
    a: int,
    b: int,
    pw: int,
    q: int,
    el_a: int,
    el_b1: int,
    el_d1: int,
    el_l: int,
    el_h: int,
    el_c: int,
    el_delta: int,
    el_delta_prime: int,
)
    requires
        r > 0,
        cong(el_a, g1 * a, r),
        cong(el_b1 * rr, (g1 * b) * rr, r),
        cong(el_d1, g1 * delta, r),
        cong(el_l * delta, g1 * pw, r),
        cong(el_h * delta, g1 * q, r),
        cong(el_delta, g2 * delta, r),
        el_delta_prime == (el_delta * zeta) % r,
        cong(
            el_c * (zeta + m),
            (el_a * ss + el_b1 * rr - (el_d1 * zeta) * (rr * ss)) * zeta + el_l + el_h,
            r,
        ),
    ensures
        cong(
            el_c * (el_delta * m + el_delta_prime),
            (g1 * ((ss * a + rr * b - rr * ss * (zeta * delta)) * (zeta * delta) + pw + q)) * g2,
            r,
        ),
{
    let d = zeta * delta;
    let top = el_a * ss + el_b1 * rr - (el_d1 * zeta) * (rr * ss);
    let inner = ss * a + rr * b - rr * ss * d;
    // The denominator.
    lemma_cong_mod(el_delta * zeta, r);
    lemma_cong_add(el_delta * m, el_delta * m, el_delta_prime, el_delta * zeta, r);
    assert(el_delta * m + el_delta * zeta == el_delta * (zeta + m)) by (nonlinear_arith);
    lemma_cong_mul(el_c, el_c, el_delta * m + el_delta_prime, el_delta * (zeta + m), r);
    lemma_cong_mul(
        el_c * (zeta + m),
        top * zeta + el_l + el_h,
        el_delta,
        g2 * delta,
        r,
    );
    let denominator = zeta + m;
    assert(el_c * (el_delta * denominator) == (el_c * denominator) * el_delta)
        by (nonlinear_arith);
    // The numerator.
    lemma_cong_mul(el_a, g1 * a, ss, ss, r);
    lemma_cong_add(el_a * ss, (g1 * a) * ss, el_b1 * rr, (g1 * b) * rr, r);
    lemma_cong_mul(el_d1, g1 * delta, zeta, zeta, r);
    lemma_cong_mul(el_d1 * zeta, (g1 * delta) * zeta, rr * ss, rr * ss, r);
    lemma_cong_sub(
        el_a * ss + el_b1 * rr,
        (g1 * a) * ss + (g1 * b) * rr,
        (el_d1 * zeta) * (rr * ss),
        ((g1 * delta) * zeta) * (rr * ss),
        r,
    );
    let reduced = (g1 * a) * ss + (g1 * b) * rr - ((g1 * delta) * zeta) * (rr * ss);
    let rs = rr * ss;
    assert(((g1 * delta) * zeta) * rs == g1 * (rs * (zeta * delta))) by (nonlinear_arith);
    assert((g1 * a) * ss == g1 * (ss * a)) by (nonlinear_arith);
    assert((g1 * b) * rr == g1 * (rr * b)) by (nonlinear_arith);
    let (e1, e2, e3) = (ss * a, rr * b, rr * ss * d);
    assert(g1 * e1 + g1 * e2 - g1 * e3 == g1 * (e1 + e2 - e3)) by (nonlinear_arith);
    assert(reduced == g1 * inner);
    lemma_cong_mul(top, g1 * inner, d, d, r);
    assert((g1 * inner) * d == g1 * (inner * d)) by (nonlinear_arith);
    assert(top * (zeta * delta) == (top * zeta) * delta) by (nonlinear_arith);
    lemma_cong_add((top * zeta) * delta, g1 * (inner * d), el_l * delta, g1 * pw, r);
    lemma_cong_add(
        (top * zeta) * delta + el_l * delta,
        g1 * (inner * d) + g1 * pw,
        el_h * delta,
        g1 * q,
        r,
    );
    let (w1, tz) = (inner * d, top * zeta);
    assert(g1 * w1 + g1 * pw + g1 * q == g1 * (w1 + pw + q)) by (nonlinear_arith);
    let whole = tz + el_l + el_h;
    assert(tz * delta + el_l * delta + el_h * delta == (tz + el_l + el_h) * delta)
        by (nonlinear_arith);
    let res = g1 * (w1 + pw + q);
    lemma_cong_mul(whole * delta, res, g2, g2, r);
    assert(whole * (g2 * delta) == (whole * delta) * g2) by (nonlinear_arith);
}

/// The equation of the verifier, from what the elements of the key and of the proof
/// are multiples of.
pub proof fn lemma_equation(
    r: int,
    g1: int,
    g2: int,
    alpha: int,
    beta: int,
    gamma: int,
    sa: int,
    sb: int,
    sc: int,
    q: int,
    pi: int,
    pw: int,
    d: int,
    rr: int,
    ss: int,
    el_a: int,
    el_b: int,
    el_input: int,
    el_gamma: int,
    c_term: int,
)
    requires
        r > 0,
        pi + pw == beta * sa + alpha * sb + sc,
        cong(sa * sb - sc, q, r),
        cong(el_a, g1 * (alpha + sa + rr * d), r),
        cong(el_b, g2 * (beta + sb + ss * d), r),
        cong(el_input * gamma, g1 * pi, r),
        cong(el_gamma, g2 * gamma, r),
        cong(
            c_term,
            (g1 * ((ss * (alpha + sa + rr * d) + rr * (beta + sb + ss * d) - rr * ss * d) * d + pw
                + q)) * g2,
            r,
        ),
    ensures
        cong(el_a * el_b - el_input * el_gamma - c_term, (g1 * alpha) * (g2 * beta), r),
{
    let (a, b) = (alpha + sa + rr * d, beta + sb + ss * d);
    let n = (ss * a + rr * b - rr * ss * d) * d + pw + q;
    lemma_cong_mul(el_a, g1 * a, el_b, g2 * b, r);
    lemma_cong_mul(el_input, el_input, el_gamma, g2 * gamma, r);
    assert(el_input * (g2 * gamma) == (el_input * gamma) * g2) by (nonlinear_arith);
    lemma_cong_mul(el_input * gamma, g1 * pi, g2, g2, r);
    lemma_cong_sub(
        el_a * el_b,
        (g1 * a) * (g2 * b),
        el_input * el_gamma,
        (g1 * pi) * g2,
        r,
    );
    lemma_cong_sub(
        el_a * el_b - el_input * el_gamma,
        (g1 * a) * (g2 * b) - (g1 * pi) * g2,
        c_term,
        (g1 * n) * g2,
        r,
    );
    let ab = a * b;
    let g = g1 * g2;
    assert((g1 * a) * (g2 * b) == (g1 * g2) * (a * b)) by (nonlinear_arith);
    assert((g1 * pi) * g2 == (g1 * g2) * pi) by (nonlinear_arith);
    assert((g1 * n) * g2 == (g1 * g2) * n) by (nonlinear_arith);
    assert(g * ab - g * pi - g * n == g * (ab - pi - n)) by (nonlinear_arith);
    lemma_identity(alpha, beta, d, rr, ss, sa, sb, sc, q, pi, pw);
    lemma_cong_sub(sa * sb - sc, q, q, q, r);
    let x = alpha * beta;
    lemma_cong_add(x, x, sa * sb - sc - q, 0, r);
    lemma_cong_mul(g, g, x + (sa * sb - sc - q), x, r);
    assert((g1 * g2) * (alpha * beta) == (g1 * alpha) * (g2 * beta)) by (nonlinear_arith);
}

} // verus!
