use ark_bls12_381::{Bls12_381 as Curve, Fr, G1Affine, G2Affine};
use ark_bpr20::bls12_381::Bls12_381;
use ark_bpr20::challenge::fiat_shamir_challenge;
use ark_bpr20::data_structures::ProvingKey;
use ark_bpr20::generator::generate_parameters;
use ark_bpr20::groups::{Gt, Scalar, G1, G2};
use ark_bpr20::pairing::Pairing;
use ark_bpr20::prover::create_proof;
use ark_bpr20::r1cs::{ConstraintMatrices, ConstraintSystem, SynthesisError};
use ark_bpr20::r1cs_to_qap::{evaluate_constraint, serial_evaluate_constraint, R1CStoQAP};
use ark_ec::pairing::Pairing as CurvePairing;
use ark_ec::{AffineRepr, CurveGroup};
use ark_ff::{BigInteger, FftField, Field, One, PrimeField, UniformRand, Zero};
use ark_poly::univariate::DensePolynomial;
use ark_poly::{
    DenseUVPolynomial, EvaluationDomain, Evaluations, GeneralEvaluationDomain, Polynomial,
};
use ark_serialize::CanonicalSerialize;
use ark_std::rand::rngs::StdRng;
use ark_std::rand::SeedableRng;
use blake2::{Blake2b512, Digest};

type S = Scalar<Bls12_381>;
type Rows = Vec<Vec<(Fr, usize)>>;
type Poly = DensePolynomial<Fr>;

fn to_scalar(x: Fr) -> S {
    Scalar::from_le_bytes_mod_order(&x.into_bigint().to_bytes_le())
}

fn to_fr(x: &S) -> Fr {
    Fr::from_bigint(ark_ff::BigInt(x.to_limbs())).unwrap()
}

fn g1_bytes(k: Fr) -> Vec<u8> {
    let mut bytes = Vec::new();
    let point = (G1Affine::generator() * k).into_affine();
    point.serialize_compressed(&mut bytes).unwrap();
    bytes
}

fn g2_bytes(k: Fr) -> Vec<u8> {
    let mut bytes = Vec::new();
    let point = (G2Affine::generator() * k).into_affine();
    point.serialize_compressed(&mut bytes).unwrap();
    bytes
}

fn to_rows(rows: &Rows) -> Vec<Vec<(S, usize)>> {
    rows.iter()
        .map(|row| row.iter().map(|(c, i)| (to_scalar(*c), *i)).collect())
        .collect()
}

struct Sample {
    a: Rows,
    b: Rows,
    c: Rows,
    instance: Vec<Fr>,
    witness: Vec<Fr>,
}

fn row_value(row: &[(Fr, usize)], z: &[Fr]) -> Fr {
    row.iter().map(|(c, i)| *c * z[*i]).sum()
}

/// Random rows, and for each constraint a variable of the witness that makes it
/// hold.
fn sample(num_constraints: usize, num_instance: usize) -> Sample {
    let mut rng = StdRng::seed_from_u64(7);
    let mut instance = vec![Fr::one()];
    for _ in 1..num_instance {
        instance.push(Fr::rand(&mut rng));
    }
    let mut z = instance.clone();
    let (mut a, mut b, mut c) = (Vec::new(), Vec::new(), Vec::new());
    for i in 0..num_constraints {
        let n = z.len();
        let left = vec![
            (Fr::rand(&mut rng), i % n),
            (Fr::one(), n - 1),
            (Fr::rand(&mut rng), i % n),
        ];
        let right = vec![(Fr::rand(&mut rng), (i * i) % n), (Fr::zero(), 0)];
        let product = row_value(&left, &z) * row_value(&right, &z);
        let k = Fr::rand(&mut rng);
        // k w + z_0 = product
        z.push((product - z[0]) * k.inverse().unwrap());
        a.push(left);
        b.push(right);
        c.push(vec![(k, n), (Fr::one(), 0)]);
    }
    let witness = z[num_instance..].to_vec();
    Sample { a, b, c, instance, witness }
}

impl Sample {
    fn z(&self) -> Vec<Fr> {
        [self.instance.clone(), self.witness.clone()].concat()
    }

    fn matrices(&self) -> ConstraintMatrices<Bls12_381> {
        ConstraintMatrices::new(
            to_rows(&self.a),
            to_rows(&self.b),
            to_rows(&self.c),
            self.instance.len(),
            self.witness.len(),
        )
        .unwrap()
    }

    fn system(&self) -> ConstraintSystem<Bls12_381> {
        ConstraintSystem::new(
            self.matrices(),
            self.instance.iter().map(|x| to_scalar(*x)).collect(),
            self.witness.iter().map(|x| to_scalar(*x)).collect(),
        )
        .unwrap()
    }

    fn domain(&self) -> GeneralEvaluationDomain<Fr> {
        GeneralEvaluationDomain::new(self.a.len() + self.instance.len()).unwrap()
    }

    fn interpolate(&self, mut values: Vec<Fr>) -> Poly {
        let domain = self.domain();
        values.resize(domain.size(), Fr::zero());
        Evaluations::from_vec_and_domain(values, domain).interpolate()
    }

    /// The values of the columns of the rows at `t`, by interpolation.
    fn columns(&self, rows: &Rows, left: bool, t: Fr) -> Vec<Fr> {
        let l = self.instance.len();
        (0..self.z().len())
            .map(|j| {
                let mut values: Vec<Fr> = rows
                    .iter()
                    .map(|row| row.iter().filter(|(_, i)| *i == j).map(|(c, _)| *c).sum())
                    .collect();
                if left && j < l {
                    values.resize(self.a.len() + j, Fr::zero());
                    values.push(Fr::one());
                }
                self.interpolate(values).evaluate(&t)
            })
            .collect()
    }

    /// The quotient of the program, by long division.
    fn quotient(&self) -> (Vec<Fr>, Poly) {
        let z = self.z();
        let values = |rows: &Rows| rows.iter().map(|r| row_value(r, &z)).collect::<Vec<Fr>>();
        let mut left = values(&self.a);
        left.extend(self.instance.iter());
        let (p, q, s) = (
            self.interpolate(left),
            self.interpolate(values(&self.b)),
            self.interpolate(values(&self.c)),
        );
        let pq: Poly = &p * &q;
        let (quotient, remainder) = (&pq - &s).divide_by_vanishing_poly(self.domain());
        let mut coeffs = quotient.coeffs;
        coeffs.resize(self.domain().size(), Fr::zero());
        (coeffs, remainder)
    }
}

#[test]
fn the_witness_map_is_the_quotient() {
    for (m, l) in [(1, 1), (3, 1), (4, 3), (13, 2)] {
        let sample = sample(m, l);
        let (expected, remainder) = sample.quotient();
        assert!(remainder.is_zero());
        let h = R1CStoQAP::witness_map(&sample.system()).unwrap();
        let h: Vec<Fr> = h.iter().map(to_fr).collect();
        assert_eq!(h, expected);
        assert!(h[h.len() - 1].is_zero());
    }
}

#[test]
fn the_witness_map_of_an_unsatisfied_system_is_no_quotient() {
    let mut sample = sample(4, 3);
    sample.witness[1] += Fr::one();
    let (quotient, remainder) = sample.quotient();
    assert!(!remainder.is_zero());
    let h = R1CStoQAP::witness_map(&sample.system()).unwrap();
    let h: Vec<Fr> = h.iter().map(to_fr).collect();
    assert_ne!(h, quotient);
    // It still takes the values of the quotient of values on the coset.
    let domain = sample.domain();
    let z = sample.z();
    let values =
        |rows: &Rows| rows.iter().map(|r| row_value(r, &z)).collect::<Vec<Fr>>();
    let mut left = values(&sample.a);
    left.extend(sample.instance.iter());
    let (p, q, s) = (
        sample.interpolate(left),
        sample.interpolate(values(&sample.b)),
        sample.interpolate(values(&sample.c)),
    );
    let h = Poly::from_coefficients_vec(h);
    for x in domain.get_coset(Fr::GENERATOR).unwrap().elements() {
        let numerator = p.evaluate(&x) * q.evaluate(&x) - s.evaluate(&x);
        assert_eq!(h.evaluate(&x) * domain.evaluate_vanishing_polynomial(x), numerator);
    }
}

#[test]
fn the_instance_map_evaluates_the_polynomials() {
    for (m, l) in [(1, 1), (3, 1), (4, 3), (13, 2)] {
        let sample = sample(m, l);
        let domain = sample.domain();
        // Also at a point of the domain itself.
        for t in [Fr::from(12345u64), domain.group_gen()] {
            let (a, b, c, zt, num_variables, size) =
                R1CStoQAP::instance_map_with_evaluation(&sample.matrices(), &to_scalar(t)).unwrap();
            let values = |v: &Vec<S>| v.iter().map(to_fr).collect::<Vec<Fr>>();
            assert_eq!(values(&a), sample.columns(&sample.a, true, t));
            assert_eq!(values(&b), sample.columns(&sample.b, false, t));
            assert_eq!(values(&c), sample.columns(&sample.c, false, t));
            assert_eq!(to_fr(&zt), domain.evaluate_vanishing_polynomial(t));
            assert_eq!(num_variables, l - 1 + m);
            assert_eq!(size, domain.size());
        }
    }
}

#[test]
fn the_instance_map_needs_a_domain() {
    let large: ConstraintMatrices<Bls12_381> =
        ConstraintMatrices::new(vec![], vec![], vec![], 1 << 40, 0).unwrap();
    let res = R1CStoQAP::instance_map_with_evaluation(&large, &Scalar::from_u64(3));
    assert!(matches!(res, Err(SynthesisError::PolynomialDegreeTooLarge)));
}

#[test]
fn constraints_are_inner_products() {
    let s = |x: u64| -> S { Scalar::from_u64(x) };
    let assignment = vec![s(1), s(10), s(100)];
    assert!(evaluate_constraint(&vec![], &assignment).is_zero());
    let terms = vec![(s(1), 2), (s(3), 1), (s(0), 0), (s(4), 0), (s(2), 1)];
    let value = evaluate_constraint(&terms, &assignment);
    assert_eq!(value.to_limbs(), [154, 0, 0, 0]);
}

#[test]
fn constraints_are_linear_and_have_no_order() {
    let s = |x: u64| -> S { Scalar::from_u64(x) };
    let (x, y) = (vec![s(1), s(10), s(100)], vec![s(7), s(0), s(5)]);
    // 3 x + y
    let combined = vec![s(10), s(30), s(305)];
    let terms = vec![(s(1), 2), (s(3), 1), (s(4), 0), (s(2), 1)];
    let permuted = vec![(s(2), 1), (s(4), 0), (s(1), 2), (s(3), 1)];
    let value = |terms, z| {
        let value = evaluate_constraint(terms, z);
        assert_eq!(value.to_limbs(), serial_evaluate_constraint(terms, z).to_limbs());
        to_fr(&value)
    };
    assert_eq!(
        value(&terms, &combined),
        Fr::from(3u64) * value(&terms, &x) + value(&terms, &y)
    );
    assert_eq!(value(&terms, &x), Fr::from(154u64));
    assert_eq!(value(&permuted, &x), Fr::from(154u64));
}

/// The secrets of a key.
struct Secrets {
    alpha: Fr,
    beta: Fr,
    gamma: Fr,
    delta: Fr,
    t: Fr,
    g1: Fr,
    g2: Fr,
}

fn secrets() -> Secrets {
    let mut rng = StdRng::seed_from_u64(8);
    Secrets {
        alpha: Fr::rand(&mut rng),
        beta: Fr::rand(&mut rng),
        gamma: Fr::rand(&mut rng),
        delta: Fr::rand(&mut rng),
        t: Fr::rand(&mut rng),
        g1: Fr::rand(&mut rng),
        g2: Fr::rand(&mut rng),
    }
}

fn key(sample: &Sample, k: &Secrets) -> ProvingKey<Bls12_381> {
    let g1: G1<Bls12_381> = G1::from_bytes(&g1_bytes(k.g1)).unwrap();
    let g2: G2<Bls12_381> = G2::from_bytes(&g2_bytes(k.g2)).unwrap();
    generate_parameters(
        &sample.matrices(),
        &to_scalar(k.alpha),
        &to_scalar(k.beta),
        &to_scalar(k.gamma),
        &to_scalar(k.delta),
        &to_scalar(k.t),
        &g1,
        &g2,
    )
    .unwrap()
}

#[test]
fn keys_hold_the_elements_of_the_secrets() {
    let sample = sample(4, 3);
    let k = secrets();
    let pk = key(&sample, &k);
    let (a, b, c) = (
        sample.columns(&sample.a, true, k.t),
        sample.columns(&sample.b, false, k.t),
        sample.columns(&sample.c, false, k.t),
    );
    assert_eq!(pk.vk.alpha_g1.to_bytes(), g1_bytes(k.g1 * k.alpha));
    assert_eq!(pk.beta_g1.to_bytes(), g1_bytes(k.g1 * k.beta));
    assert_eq!(pk.delta_g1.to_bytes(), g1_bytes(k.g1 * k.delta));
    assert_eq!(pk.vk.beta_g2.to_bytes(), g2_bytes(k.g2 * k.beta));
    assert_eq!(pk.vk.gamma_g2.to_bytes(), g2_bytes(k.g2 * k.gamma));
    assert_eq!(pk.vk.delta_g2.to_bytes(), g2_bytes(k.g2 * k.delta));
    assert_eq!(pk.a_query.len(), 7);
    assert_eq!(pk.vk.gamma_abc_g1.len(), 3);
    assert_eq!(pk.l_query.len(), 4);
    assert_eq!(pk.h_query.len(), 7);
    for j in 0..7 {
        assert_eq!(pk.a_query[j].to_bytes(), g1_bytes(k.g1 * a[j]));
        assert_eq!(pk.b_g1_query[j].to_bytes(), g1_bytes(k.g1 * b[j]));
        assert_eq!(pk.b_g2_query[j].to_bytes(), g2_bytes(k.g2 * b[j]));
        let abc = k.beta * a[j] + k.alpha * b[j] + c[j];
        if j < 3 {
            assert_eq!(pk.vk.gamma_abc_g1[j].to_bytes(), g1_bytes(k.g1 * abc / k.gamma));
        } else {
            assert_eq!(pk.l_query[j - 3].to_bytes(), g1_bytes(k.g1 * abc / k.delta));
        }
        let zt = sample.domain().evaluate_vanishing_polynomial(k.t);
        let power = k.t.pow([j as u64]);
        assert_eq!(pk.h_query[j].to_bytes(), g1_bytes(k.g1 * zt * power / k.delta));
    }
    let product = Curve::pairing(
        G1Affine::generator() * (k.g1 * k.alpha),
        G2Affine::generator() * (k.g2 * k.beta),
    );
    let mut bytes = Vec::new();
    product.0.serialize_uncompressed(&mut bytes).unwrap();
    assert_eq!(pk.vk.alpha_g1_beta_g2.to_bytes(), bytes);
}

fn challenge(a: &[u8], b: &[u8], delta_prime: &[u8]) -> Fr {
    let mut hasher = Blake2b512::new();
    hasher.update(a);
    hasher.update(b);
    hasher.update(delta_prime);
    Fr::from_le_bytes_mod_order(&hasher.finalize())
}

#[test]
fn the_challenge_is_the_hash_of_the_elements() {
    let (a, b, d) = (Fr::from(3u64), Fr::from(5u64), Fr::zero());
    let (ab, bb, db) = (g1_bytes(a), g2_bytes(b), g2_bytes(d));
    let m: S = fiat_shamir_challenge(
        &G1::from_bytes(&ab).unwrap(),
        &G2::from_bytes(&bb).unwrap(),
        &G2::from_bytes(&db).unwrap(),
    );
    assert_eq!(to_fr(&m), challenge(&ab, &bb, &db));
}

#[test]
fn proofs_have_the_elements_of_the_secrets() {
    let sample = sample(4, 3);
    let k = secrets();
    let pk = key(&sample, &k);
    let z = sample.z();
    let weigh = |v: Vec<Fr>| v.iter().zip(z.iter()).map(|(x, y)| *x * *y).sum::<Fr>();
    let (sa, sb, sc) = (
        weigh(sample.columns(&sample.a, true, k.t)),
        weigh(sample.columns(&sample.b, false, k.t)),
        weigh(sample.columns(&sample.c, false, k.t)),
    );
    let (coeffs, _) = sample.quotient();
    let h = Poly::from_coefficients_vec(coeffs).evaluate(&k.t);
    let zt = sample.domain().evaluate_vanishing_polynomial(k.t);
    assert_eq!(sa * sb - sc, h * zt);
    let of_witness: Fr = (3..7)
        .map(|j| {
            let (a, b, c) = (
                sample.columns(&sample.a, true, k.t)[j],
                sample.columns(&sample.b, false, k.t)[j],
                sample.columns(&sample.c, false, k.t)[j],
            );
            z[j] * (k.beta * a + k.alpha * b + c)
        })
        .sum();
    for (r, s, zeta) in [(0, 0, 1), (0, 4, 2), (3, 0, 5), (11, 12, 13)] {
        let (r, s, zeta) = (Fr::from(r as u64), Fr::from(s as u64), Fr::from(zeta as u64));
        let proof = create_proof(
            &sample.system(),
            &pk,
            to_scalar(r),
            to_scalar(s),
            to_scalar(zeta),
        )
        .unwrap();
        let d = zeta * k.delta;
        let (a, b) = (k.alpha + sa + r * d, k.beta + sb + s * d);
        let (ab, bb, db) = (g1_bytes(k.g1 * a), g2_bytes(k.g2 * b), g2_bytes(k.g2 * d));
        let m = challenge(&ab, &bb, &db);
        let c = (s * a + r * b - r * s * d) * zeta + (of_witness + h * zt) / k.delta;
        assert_eq!(proof.a.to_bytes(), ab);
        assert_eq!(proof.b.to_bytes(), bb);
        assert_eq!(proof.delta_prime.to_bytes(), db);
        assert_eq!(proof.c.to_bytes(), g1_bytes(k.g1 * c / (zeta + m)));
    }
}

#[test]
fn elements_are_read_back() {
    for k in [0u64, 1, 2, 77] {
        let p: G1<Bls12_381> = G1::from_bytes(&g1_bytes(Fr::from(k))).unwrap();
        assert_eq!(p.to_bytes(), g1_bytes(Fr::from(k)));
        let again: G1<Bls12_381> = G1::from_bytes(&p.to_bytes()).unwrap();
        assert_eq!(again.to_bytes(), p.to_bytes());
        let q: G2<Bls12_381> = G2::from_bytes(&g2_bytes(Fr::from(k))).unwrap();
        assert_eq!(q.to_bytes(), g2_bytes(Fr::from(k)));
    }
    // What follows the element is not looked at.
    let mut long = g1_bytes(Fr::from(5u64));
    long.push(9);
    let p: G1<Bls12_381> = G1::from_bytes(&long).unwrap();
    assert_eq!(p.to_bytes(), g1_bytes(Fr::from(5u64)));
}

#[test]
fn bytes_that_are_no_element_are_refused() {
    let none = |bytes: &[u8]| G1::<Bls12_381>::from_bytes(bytes).is_none();
    assert!(none(&[]));
    assert!(none(&[0; 48]));
    assert!(none(&[255; 48]));
    let bytes = g1_bytes(Fr::from(5u64));
    assert!(none(&bytes[..47]));
    // A point of the curve outside the group.
    let mut x = ark_bls12_381::Fq::zero();
    let outside = loop {
        if let Some(p) = G1Affine::get_point_from_x_unchecked(x, false) {
            if !p.is_in_correct_subgroup_assuming_on_curve() {
                break p;
            }
        }
        x += ark_bls12_381::Fq::one();
    };
    let mut bytes = Vec::new();
    outside.serialize_compressed(&mut bytes).unwrap();
    assert!(none(&bytes));

    let none = |bytes: &[u8]| G2::<Bls12_381>::from_bytes(bytes).is_none();
    assert!(none(&[]));
    assert!(none(&[0; 96]));
    assert!(none(&[255; 96]));
}

#[test]
fn scalars_follow_the_field() {
    let mut rng = StdRng::seed_from_u64(9);
    for _ in 0..20 {
        let (x, y) = (Fr::rand(&mut rng), Fr::rand(&mut rng));
        let (a, b) = (to_scalar(x), to_scalar(y));
        assert_eq!(to_fr(&a), x);
        assert_eq!(to_fr(&<Bls12_381 as Pairing>::scalar_add(&a, &b)), x + y);
        assert_eq!(to_fr(&<Bls12_381 as Pairing>::scalar_sub(&a, &b)), x - y);
        assert_eq!(to_fr(&<Bls12_381 as Pairing>::scalar_mul(&a, &b)), x * y);
        let inverse = <Bls12_381 as Pairing>::scalar_inverse(&a).unwrap();
        assert_eq!(to_fr(&inverse), x.inverse().unwrap());
    }
    let (zero, one): (S, S) = (Scalar::zero(), Scalar::one());
    assert!(<Bls12_381 as Pairing>::scalar_inverse(&zero).is_none());
    assert!(zero.is_zero() && !zero.is_one());
    assert!(one.is_one() && !one.is_zero());
    // The bytes of the modulus spell zero, and those of the next number one.
    let mut bytes = Fr::MODULUS.to_bytes_le();
    assert!(S::from_le_bytes_mod_order(&bytes).is_zero());
    bytes[0] += 1;
    assert!(S::from_le_bytes_mod_order(&bytes).is_one());
    assert_eq!(S::from_le_bytes_mod_order(&[1, 2]).to_limbs(), [513, 0, 0, 0]);
}

#[test]
fn products_of_pairings_are_bilinear() {
    let g1 = |k: u64| G1::<Bls12_381>::from_bytes(&g1_bytes(Fr::from(k))).unwrap();
    let g2 = |k: u64| G2::<Bls12_381>::from_bytes(&g2_bytes(Fr::from(k))).unwrap();
    let product: Gt<Bls12_381> =
        <Bls12_381 as Pairing>::multi_pairing(&[g1(2), g1(3)], &[g2(5), g2(7)]);
    let single = <Bls12_381 as Pairing>::multi_pairing(&[g1(31)], &[g2(1)]);
    let other = <Bls12_381 as Pairing>::multi_pairing(&[g1(30)], &[g2(1)]);
    assert!(product.equals(&single));
    assert!(!product.equals(&other));
}

#[test]
fn sums_of_multiples_stop_at_the_shorter_length() {
    let g1 = |k: u64| G1::<Bls12_381>::from_bytes(&g1_bytes(Fr::from(k))).unwrap();
    let g2 = |k: u64| G2::<Bls12_381>::from_bytes(&g2_bytes(Fr::from(k))).unwrap();
    let s = |x: u64| -> S { Scalar::from_u64(x) };
    let sum = <Bls12_381 as Pairing>::g1_msm(&[g1(2), g1(3)], &[s(10), s(100), s(1000)]);
    assert_eq!(sum.to_bytes(), g1_bytes(Fr::from(320u64)));
    let sum = <Bls12_381 as Pairing>::g1_msm(&[g1(2), g1(3)], &[s(10)]);
    assert_eq!(sum.to_bytes(), g1_bytes(Fr::from(20u64)));
    let sum = <Bls12_381 as Pairing>::g1_msm(&[], &[s(10)]);
    assert_eq!(sum.to_bytes(), g1_bytes(Fr::zero()));
    let sum = <Bls12_381 as Pairing>::g2_msm(&[g2(2), g2(3)], &[s(10), s(100), s(1000)]);
    assert_eq!(sum.to_bytes(), g2_bytes(Fr::from(320u64)));
    let sum = <Bls12_381 as Pairing>::g2_msm(&[g2(2), g2(3)], &[]);
    assert_eq!(sum.to_bytes(), g2_bytes(Fr::zero()));
}

#[test]
fn multiples_of_one_element() {
    let g2 = |k: u64| G2::<Bls12_381>::from_bytes(&g2_bytes(Fr::from(k))).unwrap();
    let g1 = |k: u64| G1::<Bls12_381>::from_bytes(&g1_bytes(Fr::from(k))).unwrap();
    let s = |x: u64| -> S { Scalar::from_u64(x) };
    let multiples = <Bls12_381 as Pairing>::g2_batch_mul(&g2(3), &[s(0), s(1), s(7)]);
    let bytes: Vec<Vec<u8>> = multiples.iter().map(|p| p.to_bytes()).collect();
    let expected: Vec<Vec<u8>> =
        [0u64, 3, 21].iter().map(|k| g2_bytes(Fr::from(*k))).collect();
    assert_eq!(bytes, expected);
    let multiples = <Bls12_381 as Pairing>::g1_batch_mul(&g1(3), &[s(0), s(1), s(7)]);
    let bytes: Vec<Vec<u8>> = multiples.iter().map(|p| p.to_bytes()).collect();
    let expected: Vec<Vec<u8>> =
        [0u64, 3, 21].iter().map(|k| g1_bytes(Fr::from(*k))).collect();
    assert_eq!(bytes, expected);
    assert!(<Bls12_381 as Pairing>::g1_batch_mul(&g1(3), &[]).is_empty());
    assert!(<Bls12_381 as Pairing>::g2_batch_mul(&g2(3), &[]).is_empty());
}
