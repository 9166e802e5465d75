//! What the proof system asks of a pairing-friendly curve.
use crate::algebra::{dot, le_value, views};
use crate::domain::{interpolates, is_lagrange, Domain};
use crate::groups::{Groups, Gt, Scalar, G1, G2};
use crate::units::is_generator;
use ark_std::rand::rngs::StdRng;
use vstd::arithmetic::power::pow;
use vstd::prelude::*;

verus! {

/// The operations of a pairing-friendly curve: arithmetic in the field of
/// scalars, evaluation and interpolation of polynomials over it, the two groups
/// and the pairing between them.
pub trait Pairing: Groups {
    // The field of scalars.

    fn scalar_add(a: &Scalar<Self>, b: &Scalar<Self>) -> (c: Scalar<Self>)
        ensures
            c@ == (a@ + b@) % Self::modulus(),
    ;

    fn scalar_sub(a: &Scalar<Self>, b: &Scalar<Self>) -> (c: Scalar<Self>)
        ensures
            c@ == (a@ - b@) % Self::modulus(),
    ;

    fn scalar_mul(a: &Scalar<Self>, b: &Scalar<Self>) -> (c: Scalar<Self>)
        ensures
            c@ == (a@ * b@) % Self::modulus(),
    ;

    /// The multiplicative inverse, which all scalars but zero have.
    fn scalar_inverse(a: &Scalar<Self>) -> (b: Option<Scalar<Self>>)
        ensures
            b is None <==> a@ == 0,
            b matches Some(c) ==> (a@ * c@) % Self::modulus() == 1,
    ;

    /// The number that the bytes spell, reduced.
    fn scalar_from_le_bytes_mod_order(bytes: &[u8]) -> (s: Scalar<Self>)
        ensures
            s@ == le_value(bytes@) % Self::modulus(),
    ;

    /// A scalar drawn from the source of randomness.
    fn scalar_rand(rng: &mut StdRng) -> (s: Scalar<Self>);

    /// The generator of the multiplicative group of the field.
    fn multiplicative_generator() -> (g: Scalar<Self>)
        ensures
            g@ == Self::generator(),
            is_generator(g@, Self::modulus()),
    ;

    // Polynomials over the scalars.

    /// The size of the smallest available domain with `num_coeffs` points.
    fn size_of_domain(num_coeffs: usize) -> (size: Option<usize>)
        requires
            4 * num_coeffs <= usize::MAX,
        ensures
            match Self::domain_size(num_coeffs as int) {
                Some(n) => size matches Some(s) && s == n,
                None => size is None,
            },
    ;

    /// The value at `t` of the polynomial that vanishes on the domain.
    fn evaluate_vanishing_polynomial(domain: &Domain<Self>, t: &Scalar<Self>) -> (z: Scalar<Self>)
        ensures
            z@ == (pow(t@, domain.spec_size() as nat) - pow(
                domain.spec_offset(),
                domain.spec_size() as nat,
            )) % Self::modulus(),
    ;

    /// The Lagrange coefficients of the domain at `t`.
    fn evaluate_all_lagrange_coefficients(domain: &Domain<Self>, t: &Scalar<Self>) -> (u: Vec<
        Scalar<Self>,
    >)
        ensures
            is_lagrange::<Self>(views(u@), domain.spec_size(), domain.spec_offset(), t@),
    ;

    /// The values on the domain of the polynomial with the given coefficients.
    fn fft(domain: &Domain<Self>, coeffs: &[Scalar<Self>]) -> (evals: Vec<Scalar<Self>>)
        requires
            coeffs@.len() == domain.spec_size(),
        ensures
            interpolates::<Self>(
                views(coeffs@),
                domain.spec_size(),
                domain.spec_offset(),
                views(evals@),
            ),
    ;

    /// The coefficients of the polynomial with the given values on the domain.
    fn ifft(domain: &Domain<Self>, evals: &[Scalar<Self>]) -> (coeffs: Vec<Scalar<Self>>)
        requires
            evals@.len() == domain.spec_size(),
        ensures
            interpolates::<Self>(
                views(coeffs@),
                domain.spec_size(),
                domain.spec_offset(),
                views(evals@),
            ),
    ;

    // The first group.

    fn g1_zero() -> (p: G1<Self>)
        ensures
            p@ == 0,
    ;

    fn g1_generator() -> (p: G1<Self>)
        ensures
            p@ == 1,
    ;

    fn g1_add(a: &G1<Self>, b: &G1<Self>) -> (c: G1<Self>)
        ensures
            c@ == (a@ + b@) % Self::modulus(),
    ;

    fn g1_sub(a: &G1<Self>, b: &G1<Self>) -> (c: G1<Self>)
        ensures
            c@ == (a@ - b@) % Self::modulus(),
    ;

    fn g1_mul(a: &G1<Self>, k: &Scalar<Self>) -> (c: G1<Self>)
        ensures
            c@ == (a@ * k@) % Self::modulus(),
    ;

    /// The sum of the multiples of `bases` by `scalars`, over the shorter of the
    /// two lengths.
    fn g1_msm(bases: &[G1<Self>], scalars: &[Scalar<Self>]) -> (c: G1<Self>)
        ensures
            c@ == dot(views(bases@), views(scalars@)) % Self::modulus(),
    ;

    /// The multiples of `base` by each of the scalars.
    fn g1_batch_mul(base: &G1<Self>, scalars: &[Scalar<Self>]) -> (points: Vec<G1<Self>>)
        ensures
            points@.len() == scalars@.len(),
            forall|i: int|
                0 <= i < points@.len() ==> (#[trigger] points@[i])@ == (base@ * scalars@[i]@)
                    % Self::modulus(),
    ;

    fn g1_compress(p: &G1<Self>) -> (bytes: Vec<u8>)
        ensures
            bytes@ == Self::g1_compressed(p@),
    ;

    /// The element that the bytes start with, if they start with the compressed
    /// encoding of one.
    fn g1_decompress(bytes: &[u8]) -> (p: Option<G1<Self>>)
        ensures
            match p {
                Some(q) => forall|k: int|
                    0 <= k < Self::modulus() ==> ((#[trigger] Self::g1_compressed(k)).is_prefix_of(
                        bytes@,
                    ) <==> k == q@),
                None => forall|k: int|
                    0 <= k < Self::modulus() ==> !(#[trigger] Self::g1_compressed(k)).is_prefix_of(
                        bytes@,
                    ),
            },
    ;

    // The second group.

    fn g2_generator() -> (p: G2<Self>)
        ensures
            p@ == 1,
    ;

    fn g2_add(a: &G2<Self>, b: &G2<Self>) -> (c: G2<Self>)
        ensures
            c@ == (a@ + b@) % Self::modulus(),
    ;

    fn g2_neg(a: &G2<Self>) -> (c: G2<Self>)
        ensures
            c@ == (-a@) % Self::modulus(),
    ;

    fn g2_mul(a: &G2<Self>, k: &Scalar<Self>) -> (c: G2<Self>)
        ensures
            c@ == (a@ * k@) % Self::modulus(),
    ;

    /// The sum of the multiples of `bases` by `scalars`, over the shorter of the
    /// two lengths.
    fn g2_msm(bases: &[G2<Self>], scalars: &[Scalar<Self>]) -> (c: G2<Self>)
        ensures
            c@ == dot(views(bases@), views(scalars@)) % Self::modulus(),
    ;

    /// The multiples of `base` by each of the scalars.
    fn g2_batch_mul(base: &G2<Self>, scalars: &[Scalar<Self>]) -> (points: Vec<G2<Self>>)
        ensures
            points@.len() == scalars@.len(),
            forall|i: int|
                0 <= i < points@.len() ==> (#[trigger] points@[i])@ == (base@ * scalars@[i]@)
                    % Self::modulus(),
    ;

    fn g2_compress(p: &G2<Self>) -> (bytes: Vec<u8>)
        ensures
            bytes@ == Self::g2_compressed(p@),
    ;

    /// The element that the bytes start with, if they start with the compressed
    /// encoding of one.
    fn g2_decompress(bytes: &[u8]) -> (p: Option<G2<Self>>)
        ensures
            match p {
                Some(q) => forall|k: int|
                    0 <= k < Self::modulus() ==> ((#[trigger] Self::g2_compressed(k)).is_prefix_of(
                        bytes@,
                    ) <==> k == q@),
                None => forall|k: int|
                    0 <= k < Self::modulus() ==> !(#[trigger] Self::g2_compressed(k)).is_prefix_of(
                        bytes@,
                    ),
            },
    ;

    // The pairing.

    /// The product of the pairings of the points in `a` with those in `b`. No other
    /// power of the pairing of the generators is encoded in the same way.
    fn multi_pairing(a: &[G1<Self>], b: &[G2<Self>]) -> (product: Gt<Self>)
        requires
            a@.len() == b@.len(),
        ensures
            product@ == Self::gt_encoding(dot(views(a@), views(b@)) % Self::modulus()),
            forall|k: int|
                0 <= k < Self::modulus() && #[trigger] Self::gt_encoding(k) == product@ ==> k
                    == dot(views(a@), views(b@)) % Self::modulus(),
    ;
}

} // verus!
