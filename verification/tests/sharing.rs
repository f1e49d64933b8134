use qudoku::evaluation::Evaluation;
use qudoku::field::Scalar;
use qudoku::group::{generator, point_mul};
use qudoku::lagrange::InterpolatedPointPolynomial;
use qudoku::ops::{
    interpolated_to_point_poly, interpolated_to_point_poly_gen, scalar_poly_to_point_poly,
    scalar_poly_to_point_poly_gen,
};
use qudoku::sharing::{InterpolatedSecretPolynomial, SecretSharingPolynomial};
use qudoku::standard::StandardFormPolynomial;

fn s(n: u64) -> Scalar {
    Scalar::from_u64(n)
}

fn poly(coeffs: &[u64]) -> SecretSharingPolynomial {
    StandardFormPolynomial::new(coeffs.iter().map(|&c| s(c)).collect())
}

#[test]
fn test_secret_sharing_mul_point() {
    let f = poly(&[4, 1, 8]);

    let z1 = scalar_poly_to_point_poly_gen(&f);

    // UNSAFE: do not use a Q point with a known dlog. Generate them using
    // `hash_to_point`.
    let q = point_mul(&generator(), &s(100000));
    let z2 = scalar_poly_to_point_poly(&f, &q);

    let i = s(49);
    assert_eq!(z1.evaluate(&i), point_mul(&generator(), &f.evaluate(&i)));
    assert_eq!(z2.evaluate(&i), point_mul(&q, &f.evaluate(&i)));

    let secret_shares: Vec<Evaluation<Scalar, Scalar>> =
        (9..12).map(|x| f.issue_share(&s(x))).collect();
    let interpolated_f = InterpolatedSecretPolynomial::new(secret_shares);

    // Sanity check
    assert_eq!(interpolated_f.evaluate(&i), f.evaluate(&i));

    assert_eq!(interpolated_to_point_poly_gen(&interpolated_f).evaluate(&i), z1.evaluate(&i));
    assert_eq!(interpolated_to_point_poly(&interpolated_f, &q).evaluate(&i), z2.evaluate(&i));
}

#[test]
fn test_share_round_trip() {
    // A dealer polynomial of degree 2: threshold 3.
    let f = poly(&[11, 5, 2]);
    assert_eq!(f.interpolation_threshold(), 3);

    let shares: Vec<Evaluation<Scalar, Scalar>> =
        [2u64, 4, 7].iter().map(|&x| f.issue_share(&s(x))).collect();
    let interpolated = InterpolatedSecretPolynomial::new(shares.clone());

    // Re-evaluating at an issued input returns exactly that share's output.
    for share in shares.iter() {
        assert_eq!(interpolated.evaluate(&share.input), share.output);
    }

    // The reconstruction recovers the secret at the canonical input 0.
    assert_eq!(interpolated.evaluate(&s(0)), s(11));
}

#[test]
fn test_point_share_issuance() {
    let f = poly(&[4, 1, 8]);
    let z = scalar_poly_to_point_poly_gen(&f);

    let share = z.issue_share(&s(3));
    assert_eq!(share.input, s(3));
    assert_eq!(share.output, point_mul(&generator(), &f.evaluate(&s(3))));
}

#[test]
fn test_point_polynomial_degree() {
    // A zero scalar coefficient maps to the group identity, which the
    // point polynomial's degree must trim just as the scalar one trims
    // zeros.
    let z = scalar_poly_to_point_poly_gen(&poly(&[5, 0]));
    assert_eq!(z.degree(), 0);
    assert_eq!(z.interpolation_threshold(), 1);

    let z2 = scalar_poly_to_point_poly_gen(&poly(&[0, 5]));
    assert_eq!(z2.degree(), 1);
    assert_eq!(z2.interpolation_threshold(), 2);
}

#[test]
fn test_derive_secret() {
    let f = poly(&[4, 1, 8]);
    let q = point_mul(&generator(), &s(77));
    let z = scalar_poly_to_point_poly(&f, &q);

    let x = s(21);
    let secret = z.derive_secret(&x);
    assert_eq!(secret.len(), 32);

    // The derived secret is the hash of the evaluated point's
    // serialization.
    let expected = qudoku::hashing::sha256(z.evaluate(&x).serialize().as_slice());
    assert_eq!(secret, expected);

    // Deriving through an interpolated reconstruction of the same point
    // polynomial yields the same secret bytes.
    let point_shares: Vec<Evaluation<Scalar, qudoku::group::GroupElem>> =
        (1..4).map(|i| z.issue_share(&s(i))).collect();
    let interpolated = InterpolatedPointPolynomial::new(point_shares);
    assert_eq!(interpolated.derive_secret(&x), secret);
}

#[test]
fn test_generator_serialization() {
    let expected: Vec<u8> = vec![
        0x02, 0x79, 0xBE, 0x66, 0x7E, 0xF9, 0xDC, 0xBB, 0xAC, 0x55, 0xA0, 0x62, 0x95, 0xCE, 0x87,
        0x0B, 0x07, 0x02, 0x9B, 0xFC, 0xDB, 0x2D, 0xCE, 0x28, 0xD9, 0x59, 0xF2, 0x81, 0x5B, 0x16,
        0xF8, 0x17, 0x98,
    ];
    assert_eq!(generator().serialize(), expected);
}
