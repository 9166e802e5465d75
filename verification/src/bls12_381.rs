//! The curve BLS12-381, as the arkworks crates implement it.
//!
//! The private functions of this module are the places where the arithmetic of
//! those crates is called. Verus does not read their bodies: what their contracts
//! say of the called functions is taken from the documentation and the sources of
//! the crates.
use crate::algebra::{dot, le_value, views};
use crate::domain::{interpolates, is_lagrange, Domain};
use crate::groups::{Groups, Gt, Scalar, G1, G2};
use crate::pairing::Pairing;
use crate::units::is_generator;
use ark_bls12_381::{Bls12_381 as Engine, Fr, G1Affine, G1Projective, G2Affine, G2Projective};
use ark_ec::pairing::Pairing as _;
use ark_ec::{AffineRepr, CurveGroup, PrimeGroup, ScalarMul, VariableBaseMSM};
use ark_ff::{BigInt, FftField, Field, PrimeField, UniformRand, Zero};
use ark_poly::{EvaluationDomain, GeneralEvaluationDomain};
use ark_serialize::{CanonicalDeserialize, CanonicalSerialize};
use ark_std::rand::rngs::StdRng;
use core::marker::PhantomData;
use vstd::arithmetic::div_mod::lemma_mod_multiples_basic;
use vstd::arithmetic::power::pow;
use vstd::arithmetic::power2::{
    lemma2_to64, lemma_pow2_adds, lemma_pow2_pos, lemma_pow2_unfold, pow2,
};
use vstd::prelude::*;

verus! {

/// The curve BLS12-381.
pub struct Bls12_381 {}

/// The uncompressed encoding of `k` times `G1Projective::generator()`.
pub uninterp spec fn bls12_381_g1_encoding(k: int) -> Seq<u8>;

/// The uncompressed encoding of `k` times `G2Projective::generator()`.
pub uninterp spec fn bls12_381_g2_encoding(k: int) -> Seq<u8>;

/// The uncompressed encoding of the `k`-th power of the pairing of the two
/// generators.
pub uninterp spec fn bls12_381_gt_encoding(k: int) -> Seq<u8>;

/// The compressed encoding of `k` times `G1Projective::generator()`.
pub uninterp spec fn bls12_381_g1_compressed(k: int) -> Seq<u8>;

/// The compressed encoding of `k` times `G2Projective::generator()`.
pub uninterp spec fn bls12_381_g2_compressed(k: int) -> Seq<u8>;

/// The least `j` not below `k` with `n <= 2^j`.
pub open spec fn log2_from(n: int, k: nat) -> nat
    decreases
        (if n > pow2(k) {
            n - pow2(k)
        } else {
            0
        }),
{
    if n <= pow2(k) {
        k
    } else {
        proof {
            lemma_pow2_pos(k);
            lemma_pow2_unfold(k + 1);
        }
        log2_from(n, k + 1)
    }
}

impl Groups for Bls12_381 {
    open spec fn modulus() -> int {
        0x73eda753299d7d483339d80809a1d80553bda402fffe5bfeffffffff00000001int
    }

    open spec fn generator() -> int {
        7
    }

    /// The least power of two up to `2^32`, beyond which there are the two sizes
    /// `3 * 2^31` and `3 * 2^32`.
    open spec fn domain_size(n: int) -> Option<int> {
        if n <= 0x1_0000_0000 {
            Some(pow2(log2_from(n, 0)) as int)
        } else if n <= 0x1_8000_0000 {
            Some(0x1_8000_0000)
        } else if n <= 0x3_0000_0000 {
            Some(0x3_0000_0000)
        } else {
            None
        }
    }

    open spec fn g1_encoding(k: int) -> Seq<u8> {
        bls12_381_g1_encoding(k)
    }

    open spec fn g2_encoding(k: int) -> Seq<u8> {
        bls12_381_g2_encoding(k)
    }

    open spec fn gt_encoding(k: int) -> Seq<u8> {
        bls12_381_gt_encoding(k)
    }

    open spec fn g1_compressed(k: int) -> Seq<u8> {
        bls12_381_g1_compressed(k)
    }

    open spec fn g2_compressed(k: int) -> Seq<u8> {
        bls12_381_g2_compressed(k)
    }

    proof fn modulus_bound() {
    }

    proof fn domain_size_bound(n: int) {
        if n <= 0x1_0000_0000 {
            lemma2_to64();
            lemma_log2_bound(n, 0);
            let k = log2_from(n, 0);
            lemma_pow2_divides(k);
            lemma_log2_of_pow2(k, 0);
        }
    }
}

proof fn lemma_log2_bound(n: int, k: nat)
    requires
        n <= 0x1_0000_0000,
        k <= 32,
    ensures
        k <= log2_from(n, k) <= 32,
        n <= pow2(log2_from(n, k)),
        log2_from(n, k) == k || pow2(log2_from(n, k)) < 2 * n,
    decreases 32 - k,
{
    lemma2_to64();
    if n > pow2(k) {
        lemma_pow2_unfold(k + 1);
        lemma_log2_bound(n, k + 1);
    }
}

/// The power `2^k` is its own least power of two.
proof fn lemma_log2_of_pow2(k: nat, j: nat)
    requires
        j <= k,
    ensures
        log2_from(pow2(k) as int, j) == k,
    decreases k - j,
{
    if j < k {
        lemma_pow2_adds(j, (k - j) as nat);
        lemma_pow2_adds(1, (k - j - 1) as nat);
        lemma_pow2_pos(j);
        lemma_pow2_pos((k - j - 1) as nat);
        lemma2_to64();
        assert(pow2(k) > pow2(j)) by (nonlinear_arith)
            requires
                pow2(k) == pow2(j) * pow2((k - j) as nat),
                pow2((k - j) as nat) >= 2,
                pow2(j) > 0,
        ;
        lemma_log2_of_pow2(k, j + 1);
    }
}

proof fn lemma_pow2_divides(k: nat)
    requires
        k <= 32,
    ensures
        0 < pow2(k) <= 0x1_0000_0000,
        (Bls12_381::modulus() - 1) % (pow2(k) as int) == 0,
{
    let j = (32 - k) as nat;
    lemma_pow2_adds(k, j);
    lemma_pow2_pos(k);
    lemma_pow2_pos(j);
    lemma2_to64();
    let (a, b) = (pow2(k) as int, pow2(j) as int);
    let t = (Bls12_381::modulus() - 1) / 0x1_0000_0000;
    assert(a <= a * b && (a * b) * t == a * (b * t)) by (nonlinear_arith)
        requires
            a > 0,
            b > 0,
    ;
    assert(Bls12_381::modulus() - 1 == 0x1_0000_0000 * t);
    lemma_mod_multiples_basic(b * t, a);
    assert((b * t) * a == a * (b * t)) by (nonlinear_arith);
}

/// `s` is what `Fr` draws from the generator.
pub closed spec fn is_drawn(generator: &mut StdRng, s: Scalar<Bls12_381>) -> bool {
    call_ensures(fr_rand, (generator,), s)
}

/// What is drawn was given by the call that draws.
proof fn lemma_drawn_by_call(generator: &mut StdRng, s: Scalar<Bls12_381>)
    requires
        is_drawn(generator, s),
    ensures
        call_ensures(fr_rand, (generator,), s),
{
}

impl Pairing for Bls12_381 {
    fn scalar_add(a: &Scalar<Self>, b: &Scalar<Self>) -> (c: Scalar<Self>) {
        fr_add(a, b)
    }

    fn scalar_sub(a: &Scalar<Self>, b: &Scalar<Self>) -> (c: Scalar<Self>) {
        fr_sub(a, b)
    }

    fn scalar_mul(a: &Scalar<Self>, b: &Scalar<Self>) -> (c: Scalar<Self>) {
        fr_mul(a, b)
    }

    fn scalar_inverse(a: &Scalar<Self>) -> (b: Option<Scalar<Self>>) {
        fr_inverse(a)
    }

    fn scalar_from_le_bytes_mod_order(bytes: &[u8]) -> (s: Scalar<Self>) {
        fr_from_le_bytes_mod_order(bytes)
    }

    fn scalar_rand(rng: &mut StdRng) -> (s: Scalar<Self>)
        ensures
            exists|generator: &mut StdRng|
                *generator == *old(rng) && *final(generator) == *final(rng)
                    && #[trigger] is_drawn(generator, s),
    {
        let ghost before = *rng;
        let s = fr_rand(rng);
        proof {
            let generator = choose|generator: &mut StdRng|
                *generator == before && *final(generator) == *rng && #[trigger] call_ensures(
                    fr_rand,
                    (generator,),
                    s,
                );
            assert(is_drawn(generator, s));
        }
        s
    }

    fn multiplicative_generator() -> (g: Scalar<Self>) {
        fr_generator()
    }

    fn size_of_domain(num_coeffs: usize) -> (size: Option<usize>) {
        if num_coeffs as u64 > 0x3_0000_0000 {
            None
        } else {
            domain_new(num_coeffs)
        }
    }

    fn evaluate_vanishing_polynomial(domain: &Domain<Self>, t: &Scalar<Self>) -> (z: Scalar<
        Self,
    >) {
        domain_vanishing(domain, t)
    }

    fn evaluate_all_lagrange_coefficients(domain: &Domain<Self>, t: &Scalar<Self>) -> (u: Vec<
        Scalar<Self>,
    >) {
        domain_lagrange(domain, t)
    }

    fn fft(domain: &Domain<Self>, coeffs: &[Scalar<Self>]) -> (evals: Vec<Scalar<Self>>) {
        domain_fft(domain, coeffs)
    }

    fn ifft(domain: &Domain<Self>, evals: &[Scalar<Self>]) -> (coeffs: Vec<Scalar<Self>>) {
        domain_ifft(domain, evals)
    }

    fn g1_zero() -> (p: G1<Self>) {
        g1_identity()
    }

    fn g1_generator() -> (p: G1<Self>) {
        g1_fixed_generator()
    }

    fn g1_add(a: &G1<Self>, b: &G1<Self>) -> (c: G1<Self>) {
        g1_sum(a, b)
    }

    fn g1_sub(a: &G1<Self>, b: &G1<Self>) -> (c: G1<Self>) {
        g1_difference(a, b)
    }

    fn g1_mul(a: &G1<Self>, k: &Scalar<Self>) -> (c: G1<Self>) {
        g1_multiple(a, k)
    }

    fn g1_msm(bases: &[G1<Self>], scalars: &[Scalar<Self>]) -> (c: G1<Self>) {
        g1_msm_bigint(bases, scalars)
    }

    fn g1_batch_mul(base: &G1<Self>, scalars: &[Scalar<Self>]) -> (points: Vec<G1<Self>>) {
        g1_multiples(base, scalars)
    }

    fn g1_compress(p: &G1<Self>) -> (bytes: Vec<u8>) {
        g1_serialize_compressed(p)
    }

    fn g1_decompress(bytes: &[u8]) -> (p: Option<G1<Self>>) {
        g1_deserialize_compressed(bytes)
    }

    fn g2_generator() -> (p: G2<Self>) {
        g2_fixed_generator()
    }

    fn g2_add(a: &G2<Self>, b: &G2<Self>) -> (c: G2<Self>) {
        g2_sum(a, b)
    }

    fn g2_neg(a: &G2<Self>) -> (c: G2<Self>) {
        g2_negative(a)
    }

    fn g2_mul(a: &G2<Self>, k: &Scalar<Self>) -> (c: G2<Self>) {
        g2_multiple(a, k)
    }

    fn g2_msm(bases: &[G2<Self>], scalars: &[Scalar<Self>]) -> (c: G2<Self>) {
        g2_msm_bigint(bases, scalars)
    }

    fn g2_batch_mul(base: &G2<Self>, scalars: &[Scalar<Self>]) -> (points: Vec<G2<Self>>) {
        g2_multiples(base, scalars)
    }

    fn g2_compress(p: &G2<Self>) -> (bytes: Vec<u8>) {
        g2_serialize_compressed(p)
    }

    fn g2_decompress(bytes: &[u8]) -> (p: Option<G2<Self>>) {
        g2_deserialize_compressed(bytes)
    }

    fn multi_pairing(a: &[G1<Self>], b: &[G2<Self>]) -> (product: Gt<Self>) {
        pairing_product(a, b)
    }
}

// ---------------------------------------------------------------------------
// The field of scalars
// ---------------------------------------------------------------------------

/// Calls `+` of `Fr`: addition modulo the modulus of the field.
#[verifier::external_body]
fn fr_add(a: &Scalar<Bls12_381>, b: &Scalar<Bls12_381>) -> (c: Scalar<Bls12_381>)
    ensures
        c@ == (a@ + b@) % Bls12_381::modulus(),
{
    let x = Fr::from_bigint(BigInt(a.limbs)).unwrap();
    let y = Fr::from_bigint(BigInt(b.limbs)).unwrap();
    Scalar { limbs: (x + y).into_bigint().0, marker: PhantomData }
}

/// Calls `-` of `Fr`: subtraction modulo the modulus of the field.
#[verifier::external_body]
fn fr_sub(a: &Scalar<Bls12_381>, b: &Scalar<Bls12_381>) -> (c: Scalar<Bls12_381>)
    ensures
        c@ == (a@ - b@) % Bls12_381::modulus(),
{
    let x = Fr::from_bigint(BigInt(a.limbs)).unwrap();
    let y = Fr::from_bigint(BigInt(b.limbs)).unwrap();
    Scalar { limbs: (x - y).into_bigint().0, marker: PhantomData }
}

/// Calls `*` of `Fr`: multiplication modulo the modulus of the field.
#[verifier::external_body]
fn fr_mul(a: &Scalar<Bls12_381>, b: &Scalar<Bls12_381>) -> (c: Scalar<Bls12_381>)
    ensures
        c@ == (a@ * b@) % Bls12_381::modulus(),
{
    let x = Fr::from_bigint(BigInt(a.limbs)).unwrap();
    let y = Fr::from_bigint(BigInt(b.limbs)).unwrap();
    Scalar { limbs: (x * y).into_bigint().0, marker: PhantomData }
}

/// Calls `Field::inverse` of `Fr`: the multiplicative inverse, or `None` for zero.
#[verifier::external_body]
fn fr_inverse(a: &Scalar<Bls12_381>) -> (b: Option<Scalar<Bls12_381>>)
    ensures
        b is None <==> a@ == 0,
        b matches Some(c) ==> (a@ * c@) % Bls12_381::modulus() == 1,
{
    let x = Fr::from_bigint(BigInt(a.limbs)).unwrap();
    x.inverse().map(|y| Scalar { limbs: y.into_bigint().0, marker: PhantomData })
}

/// Calls `PrimeField::from_le_bytes_mod_order` of `Fr`: the number that the bytes
/// spell in little-endian order, modulo the modulus of the field.
#[verifier::external_body]
fn fr_from_le_bytes_mod_order(bytes: &[u8]) -> (s: Scalar<Bls12_381>)
    ensures
        s@ == le_value(bytes@) % Bls12_381::modulus(),
{
    let x = Fr::from_le_bytes_mod_order(bytes);
    Scalar { limbs: x.into_bigint().0, marker: PhantomData }
}

/// Calls `UniformRand::rand` of `Fr`. Nothing is said of the scalar that it draws.
#[verifier::external_body]
fn fr_rand(rng: &mut StdRng) -> (s: Scalar<Bls12_381>) {
    Scalar { limbs: Fr::rand(rng).into_bigint().0, marker: PhantomData }
}

/// Reads `FftField::GENERATOR` of `Fr`: the number 7, which generates the
/// multiplicative group of the field.
#[verifier::external_body]
fn fr_generator() -> (g: Scalar<Bls12_381>)
    ensures
        g@ == 7,
        is_generator(g@, Bls12_381::modulus()),
{
    Scalar { limbs: Fr::GENERATOR.into_bigint().0, marker: PhantomData }
}

// ---------------------------------------------------------------------------
// Evaluation domains
// ---------------------------------------------------------------------------

/// Calls `GeneralEvaluationDomain::new` and asks the domain for its size: the
/// least power of two that is large enough, or, where the field has no such roots
/// of unity, three times a power of two.
#[verifier::external_body]
fn domain_new(num_coeffs: usize) -> (size: Option<usize>)
    requires
        num_coeffs <= 0x3_0000_0000,
        4 * num_coeffs <= usize::MAX,
    ensures
        match Bls12_381::domain_size(num_coeffs as int) {
            Some(n) => size matches Some(s) && s == n,
            None => size is None,
        },
{
    GeneralEvaluationDomain::<Fr>::new(num_coeffs).map(|domain| domain.size())
}

/// Calls `EvaluationDomain::evaluate_vanishing_polynomial`: the value at `t` of
/// `x^size - offset^size`.
#[verifier::external_body]
fn domain_vanishing(domain: &Domain<Bls12_381>, t: &Scalar<Bls12_381>) -> (z: Scalar<Bls12_381>)
    ensures
        z@ == (pow(t@, domain.spec_size() as nat) - pow(
            domain.spec_offset(),
            domain.spec_size() as nat,
        )) % Bls12_381::modulus(),
{
    let offset = Fr::from_bigint(BigInt(domain.offset.limbs)).unwrap();
    let d = GeneralEvaluationDomain::<Fr>::new_coset(domain.size, offset).unwrap();
    let x = Fr::from_bigint(BigInt(t.limbs)).unwrap();
    let z = d.evaluate_vanishing_polynomial(x);
    Scalar { limbs: z.into_bigint().0, marker: PhantomData }
}

/// Calls `EvaluationDomain::evaluate_all_lagrange_coefficients`: as many scalars
/// as the domain has points, such that the value at `t` of each polynomial of
/// lower degree than that is their inner product with its values on the domain.
#[verifier::external_body]
fn domain_lagrange(domain: &Domain<Bls12_381>, t: &Scalar<Bls12_381>) -> (u: Vec<
    Scalar<Bls12_381>,
>)
    ensures
        is_lagrange::<Bls12_381>(views(u@), domain.spec_size(), domain.spec_offset(), t@),
{
    let offset = Fr::from_bigint(BigInt(domain.offset.limbs)).unwrap();
    let d = GeneralEvaluationDomain::<Fr>::new_coset(domain.size, offset).unwrap();
    let x = Fr::from_bigint(BigInt(t.limbs)).unwrap();
    let u = d.evaluate_all_lagrange_coefficients(x);
    u.into_iter().map(|y| Scalar { limbs: y.into_bigint().0, marker: PhantomData }).collect()
}

/// Calls `EvaluationDomain::fft`: the values of a polynomial at the points of the
/// domain, in the order of the powers of its root of unity.
#[verifier::external_body]
fn domain_fft(domain: &Domain<Bls12_381>, coeffs: &[Scalar<Bls12_381>]) -> (evals: Vec<
    Scalar<Bls12_381>,
>)
    requires
        coeffs@.len() == domain.spec_size(),
    ensures
        interpolates::<Bls12_381>(
            views(coeffs@),
            domain.spec_size(),
            domain.spec_offset(),
            views(evals@),
        ),
{
    let offset = Fr::from_bigint(BigInt(domain.offset.limbs)).unwrap();
    let d = GeneralEvaluationDomain::<Fr>::new_coset(domain.size, offset).unwrap();
    let xs: Vec<Fr> = coeffs.iter().map(|c| Fr::from_bigint(BigInt(c.limbs)).unwrap()).collect();
    let ys = d.fft(&xs);
    ys.into_iter().map(|y| Scalar { limbs: y.into_bigint().0, marker: PhantomData }).collect()
}

/// Calls `EvaluationDomain::ifft`: the coefficients of the polynomial, of lower
/// degree than the domain has points, that takes the given values there.
#[verifier::external_body]
fn domain_ifft(domain: &Domain<Bls12_381>, evals: &[Scalar<Bls12_381>]) -> (coeffs: Vec<
    Scalar<Bls12_381>,
>)
    requires
        evals@.len() == domain.spec_size(),
    ensures
        interpolates::<Bls12_381>(
            views(coeffs@),
            domain.spec_size(),
            domain.spec_offset(),
            views(evals@),
        ),
{
    let offset = Fr::from_bigint(BigInt(domain.offset.limbs)).unwrap();
    let d = GeneralEvaluationDomain::<Fr>::new_coset(domain.size, offset).unwrap();
    let ys: Vec<Fr> = evals.iter().map(|e| Fr::from_bigint(BigInt(e.limbs)).unwrap()).collect();
    let xs = d.ifft(&ys);
    xs.into_iter().map(|x| Scalar { limbs: x.into_bigint().0, marker: PhantomData }).collect()
}

// ---------------------------------------------------------------------------
// The first group
// ---------------------------------------------------------------------------

/// Calls `Zero::zero` of `G1Projective`: the identity of the group.
#[verifier::external_body]
fn g1_identity() -> (p: G1<Bls12_381>)
    ensures
        p@ == 0,
        p.bytes@ == bls12_381_g1_encoding(0),
{
    let mut bytes: Vec<u8> = Vec::new();
    G1Projective::zero().into_affine().serialize_uncompressed(&mut bytes).unwrap();
    G1 { bytes, marker: PhantomData }
}

/// Calls `PrimeGroup::generator` of `G1Projective`: the fixed generator of the
/// group.
#[verifier::external_body]
fn g1_fixed_generator() -> (p: G1<Bls12_381>)
    ensures
        p@ == 1,
        p.bytes@ == bls12_381_g1_encoding(1),
{
    let mut bytes: Vec<u8> = Vec::new();
    G1Projective::generator().into_affine().serialize_uncompressed(&mut bytes).unwrap();
    G1 { bytes, marker: PhantomData }
}

/// Calls `+` of `G1Affine`: addition in the group.
#[verifier::external_body]
fn g1_sum(a: &G1<Bls12_381>, b: &G1<Bls12_381>) -> (c: G1<Bls12_381>)
    ensures
        c@ == (a@ + b@) % Bls12_381::modulus(),
        c.bytes@ == bls12_381_g1_encoding(c@),
{
    let x = G1Affine::deserialize_uncompressed_unchecked(&a.bytes[..]).unwrap();
    let y = G1Affine::deserialize_uncompressed_unchecked(&b.bytes[..]).unwrap();
    let mut bytes: Vec<u8> = Vec::new();
    (x + y).into_affine().serialize_uncompressed(&mut bytes).unwrap();
    G1 { bytes, marker: PhantomData }
}

/// Calls `-` of `G1Affine`: subtraction in the group.
#[verifier::external_body]
fn g1_difference(a: &G1<Bls12_381>, b: &G1<Bls12_381>) -> (c: G1<Bls12_381>)
    ensures
        c@ == (a@ - b@) % Bls12_381::modulus(),
        c.bytes@ == bls12_381_g1_encoding(c@),
{
    let x = G1Affine::deserialize_uncompressed_unchecked(&a.bytes[..]).unwrap();
    let y = G1Affine::deserialize_uncompressed_unchecked(&b.bytes[..]).unwrap();
    let mut bytes: Vec<u8> = Vec::new();
    (x - y).into_affine().serialize_uncompressed(&mut bytes).unwrap();
    G1 { bytes, marker: PhantomData }
}

/// Calls `*` of `G1Affine`: multiplication by a scalar.
#[verifier::external_body]
fn g1_multiple(a: &G1<Bls12_381>, k: &Scalar<Bls12_381>) -> (c: G1<Bls12_381>)
    ensures
        c@ == (a@ * k@) % Bls12_381::modulus(),
        c.bytes@ == bls12_381_g1_encoding(c@),
{
    let x = G1Affine::deserialize_uncompressed_unchecked(&a.bytes[..]).unwrap();
    let s = Fr::from_bigint(BigInt(k.limbs)).unwrap();
    let mut bytes: Vec<u8> = Vec::new();
    (x * s).into_affine().serialize_uncompressed(&mut bytes).unwrap();
    G1 { bytes, marker: PhantomData }
}

/// Calls `VariableBaseMSM::msm_bigint` of `G1Projective`: the sum of the multiples
/// of the bases by the scalars, over the shorter of the two lengths.
#[verifier::external_body]
fn g1_msm_bigint(bases: &[G1<Bls12_381>], scalars: &[Scalar<Bls12_381>]) -> (c: G1<Bls12_381>)
    ensures
        c@ == dot(views(bases@), views(scalars@)) % Bls12_381::modulus(),
        c.bytes@ == bls12_381_g1_encoding(c@),
{
    let points: Vec<G1Affine> = bases.iter().map(
        |p| G1Affine::deserialize_uncompressed_unchecked(&p.bytes[..]).unwrap(),
    ).collect();
    let bigints: Vec<BigInt<4>> = scalars.iter().map(|s| BigInt(s.limbs)).collect();
    let mut bytes: Vec<u8> = Vec::new();
    let sum = G1Projective::msm_bigint(&points, &bigints);
    sum.into_affine().serialize_uncompressed(&mut bytes).unwrap();
    G1 { bytes, marker: PhantomData }
}

/// Calls `ScalarMul::batch_mul` of `G1Projective`: the multiples of one element by
/// each of the scalars.
#[verifier::external_body]
fn g1_multiples(base: &G1<Bls12_381>, scalars: &[Scalar<Bls12_381>]) -> (points: Vec<
    G1<Bls12_381>,
>)
    ensures
        points@.len() == scalars@.len(),
        forall|i: int|
            0 <= i < points@.len() ==> {
                &&& (#[trigger] points@[i])@ == (base@ * scalars@[i]@) % Bls12_381::modulus()
                &&& points@[i].bytes@ == bls12_381_g1_encoding(points@[i]@)
            },
{
    let x = G1Affine::deserialize_uncompressed_unchecked(&base.bytes[..]).unwrap();
    let ks: Vec<Fr> = scalars.iter().map(|s| Fr::from_bigint(BigInt(s.limbs)).unwrap()).collect();
    let products = x.into_group().batch_mul(&ks);
    products.iter().map(|p| {
        let mut bytes: Vec<u8> = Vec::new();
        p.serialize_uncompressed(&mut bytes).unwrap();
        G1 { bytes, marker: PhantomData }
    }).collect()
}

/// Calls `CanonicalSerialize::serialize_compressed` of `G1Affine`.
#[verifier::external_body]
fn g1_serialize_compressed(p: &G1<Bls12_381>) -> (bytes: Vec<u8>)
    ensures
        bytes@ == bls12_381_g1_compressed(p@),
{
    let x = G1Affine::deserialize_uncompressed_unchecked(&p.bytes[..]).unwrap();
    let mut bytes: Vec<u8> = Vec::new();
    x.serialize_compressed(&mut bytes).unwrap();
    bytes
}

/// Calls `CanonicalDeserialize::deserialize_compressed` of `G1Affine`: succeeds
/// where the bytes start with the compressed encoding of an element of the group,
/// and gives that element.
#[verifier::external_body]
fn g1_deserialize_compressed(bytes: &[u8]) -> (p: Option<G1<Bls12_381>>)
    ensures
        match p {
            Some(q) => q.bytes@ == bls12_381_g1_encoding(q@) && forall|k: int|
                0 <= k < Bls12_381::modulus() ==> ((
                #[trigger] bls12_381_g1_compressed(k)).is_prefix_of(bytes@) <==> k == q@),
            None => forall|k: int|
                0 <= k < Bls12_381::modulus() ==> !(
                #[trigger] bls12_381_g1_compressed(k)).is_prefix_of(bytes@),
        },
{
    G1Affine::deserialize_compressed(bytes).ok().map(|x| {
        let mut bytes: Vec<u8> = Vec::new();
        x.serialize_uncompressed(&mut bytes).unwrap();
        G1 { bytes, marker: PhantomData }
    })
}

// ---------------------------------------------------------------------------
// The second group
// ---------------------------------------------------------------------------

/// Calls `PrimeGroup::generator` of `G2Projective`: the fixed generator of the
/// group.
#[verifier::external_body]
fn g2_fixed_generator() -> (p: G2<Bls12_381>)
    ensures
        p@ == 1,
        p.bytes@ == bls12_381_g2_encoding(1),
{
    let mut bytes: Vec<u8> = Vec::new();
    G2Projective::generator().into_affine().serialize_uncompressed(&mut bytes).unwrap();
    G2 { bytes, marker: PhantomData }
}

/// Calls `+` of `G2Affine`: addition in the group.
#[verifier::external_body]
fn g2_sum(a: &G2<Bls12_381>, b: &G2<Bls12_381>) -> (c: G2<Bls12_381>)
    ensures
        c@ == (a@ + b@) % Bls12_381::modulus(),
        c.bytes@ == bls12_381_g2_encoding(c@),
{
    let x = G2Affine::deserialize_uncompressed_unchecked(&a.bytes[..]).unwrap();
    let y = G2Affine::deserialize_uncompressed_unchecked(&b.bytes[..]).unwrap();
    let mut bytes: Vec<u8> = Vec::new();
    (x + y).into_affine().serialize_uncompressed(&mut bytes).unwrap();
    G2 { bytes, marker: PhantomData }
}

/// Calls unary `-` of `G2Projective`: the inverse in the group.
#[verifier::external_body]
fn g2_negative(a: &G2<Bls12_381>) -> (c: G2<Bls12_381>)
    ensures
        c@ == (-a@) % Bls12_381::modulus(),
        c.bytes@ == bls12_381_g2_encoding(c@),
{
    let x = G2Affine::deserialize_uncompressed_unchecked(&a.bytes[..]).unwrap();
    let mut bytes: Vec<u8> = Vec::new();
    (-x.into_group()).into_affine().serialize_uncompressed(&mut bytes).unwrap();
    G2 { bytes, marker: PhantomData }
}

/// Calls `*` of `G2Affine`: multiplication by a scalar.
#[verifier::external_body]
fn g2_multiple(a: &G2<Bls12_381>, k: &Scalar<Bls12_381>) -> (c: G2<Bls12_381>)
    ensures
        c@ == (a@ * k@) % Bls12_381::modulus(),
        c.bytes@ == bls12_381_g2_encoding(c@),
{
    let x = G2Affine::deserialize_uncompressed_unchecked(&a.bytes[..]).unwrap();
    let s = Fr::from_bigint(BigInt(k.limbs)).unwrap();
    let mut bytes: Vec<u8> = Vec::new();
    (x * s).into_affine().serialize_uncompressed(&mut bytes).unwrap();
    G2 { bytes, marker: PhantomData }
}

/// Calls `VariableBaseMSM::msm_bigint` of `G2Projective`: the sum of the multiples
/// of the bases by the scalars, over the shorter of the two lengths.
#[verifier::external_body]
fn g2_msm_bigint(bases: &[G2<Bls12_381>], scalars: &[Scalar<Bls12_381>]) -> (c: G2<Bls12_381>)
    ensures
        c@ == dot(views(bases@), views(scalars@)) % Bls12_381::modulus(),
        c.bytes@ == bls12_381_g2_encoding(c@),
{
    let points: Vec<G2Affine> = bases.iter().map(
        |p| G2Affine::deserialize_uncompressed_unchecked(&p.bytes[..]).unwrap(),
    ).collect();
    let bigints: Vec<BigInt<4>> = scalars.iter().map(|s| BigInt(s.limbs)).collect();
    let mut bytes: Vec<u8> = Vec::new();
    let sum = G2Projective::msm_bigint(&points, &bigints);
    sum.into_affine().serialize_uncompressed(&mut bytes).unwrap();
    G2 { bytes, marker: PhantomData }
}

/// Calls `ScalarMul::batch_mul` of `G2Projective`: the multiples of one element by
/// each of the scalars.
#[verifier::external_body]
fn g2_multiples(base: &G2<Bls12_381>, scalars: &[Scalar<Bls12_381>]) -> (points: Vec<
    G2<Bls12_381>,
>)
    ensures
        points@.len() == scalars@.len(),
        forall|i: int|
            0 <= i < points@.len() ==> {
                &&& (#[trigger] points@[i])@ == (base@ * scalars@[i]@) % Bls12_381::modulus()
                &&& points@[i].bytes@ == bls12_381_g2_encoding(points@[i]@)
            },
{
    let x = G2Affine::deserialize_uncompressed_unchecked(&base.bytes[..]).unwrap();
    let ks: Vec<Fr> = scalars.iter().map(|s| Fr::from_bigint(BigInt(s.limbs)).unwrap()).collect();
    let products = x.into_group().batch_mul(&ks);
    products.iter().map(|p| {
        let mut bytes: Vec<u8> = Vec::new();
        p.serialize_uncompressed(&mut bytes).unwrap();
        G2 { bytes, marker: PhantomData }
    }).collect()
}

/// Calls `CanonicalSerialize::serialize_compressed` of `G2Affine`.
#[verifier::external_body]
fn g2_serialize_compressed(p: &G2<Bls12_381>) -> (bytes: Vec<u8>)
    ensures
        bytes@ == bls12_381_g2_compressed(p@),
{
    let x = G2Affine::deserialize_uncompressed_unchecked(&p.bytes[..]).unwrap();
    let mut bytes: Vec<u8> = Vec::new();
    x.serialize_compressed(&mut bytes).unwrap();
    bytes
}

/// Calls `CanonicalDeserialize::deserialize_compressed` of `G2Affine`: succeeds
/// where the bytes start with the compressed encoding of an element of the group,
/// and gives that element.
#[verifier::external_body]
fn g2_deserialize_compressed(bytes: &[u8]) -> (p: Option<G2<Bls12_381>>)
    ensures
        match p {
            Some(q) => q.bytes@ == bls12_381_g2_encoding(q@) && forall|k: int|
                0 <= k < Bls12_381::modulus() ==> ((
                #[trigger] bls12_381_g2_compressed(k)).is_prefix_of(bytes@) <==> k == q@),
            None => forall|k: int|
                0 <= k < Bls12_381::modulus() ==> !(
                #[trigger] bls12_381_g2_compressed(k)).is_prefix_of(bytes@),
        },
{
    G2Affine::deserialize_compressed(bytes).ok().map(|x| {
        let mut bytes: Vec<u8> = Vec::new();
        x.serialize_uncompressed(&mut bytes).unwrap();
        G2 { bytes, marker: PhantomData }
    })
}

// ---------------------------------------------------------------------------
// The pairing
// ---------------------------------------------------------------------------

/// Calls `Pairing::multi_pairing`, which is a Miller loop over all the pairs and
/// one final exponentiation: the product of the pairings. A pairing is bilinear,
/// so that the product is the pairing of the generators to the power of the sum
/// of the products of the multiples. `PairingOutput` is a group of prime order with
/// that pairing as its generator, and encodings differ where elements do: no other
/// power below the order has the encoding of the product.
#[verifier::external_body]
fn pairing_product(a: &[G1<Bls12_381>], b: &[G2<Bls12_381>]) -> (product: Gt<Bls12_381>)
    requires
        a@.len() == b@.len(),
    ensures
        product@ == bls12_381_gt_encoding(dot(views(a@), views(b@)) % Bls12_381::modulus()),
        forall|k: int|
            0 <= k < Bls12_381::modulus() && #[trigger] bls12_381_gt_encoding(k) == product@ ==> k
                == dot(views(a@), views(b@)) % Bls12_381::modulus(),
{
    let ps: Vec<G1Affine> = a.iter().map(
        |p| G1Affine::deserialize_uncompressed_unchecked(&p.bytes[..]).unwrap(),
    ).collect();
    let qs: Vec<G2Affine> = b.iter().map(
        |q| G2Affine::deserialize_uncompressed_unchecked(&q.bytes[..]).unwrap(),
    ).collect();
    let mut bytes: Vec<u8> = Vec::new();
    Engine::multi_pairing(ps, qs).0.serialize_uncompressed(&mut bytes).unwrap();
    Gt { bytes, marker: PhantomData }
}

} // verus!
