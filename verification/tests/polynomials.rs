use qudoku::evaluation::Evaluation;
use qudoku::field::Scalar;
use qudoku::lagrange::{langrange_poly_evaluate, LagrangePolynomial};
use qudoku::standard::StandardFormPolynomial;

fn s(n: u64) -> Scalar {
    Scalar::from_u64(n)
}

fn poly(coeffs: &[u64]) -> StandardFormPolynomial {
    StandardFormPolynomial::new(coeffs.iter().map(|&c| s(c)).collect())
}

#[test]
fn test_polynomial_degree() {
    assert_eq!(StandardFormPolynomial::new(vec![]).degree(), 0);
    assert_eq!(poly(&[0]).degree(), 0);
    assert_eq!(poly(&[1]).degree(), 0);
    assert_eq!(poly(&[2, 2]).degree(), 1);
    assert_eq!(poly(&[3, 3, 3]).degree(), 2);
    assert_eq!(poly(&[0, 0, 0]).degree(), 0);
}

#[test]
fn test_polynomial_evaluate() {
    // f(x) = 1 + 3x + 2x^2
    let poly = poly(&[1, 3, 2]);

    // f(0) = 1
    assert_eq!(poly.evaluate(&s(0)), s(1));

    // f(1) = 1 + 3 + 2 = 6
    assert_eq!(poly.evaluate(&s(1)), s(6));

    // f(2) = 1 + 6 + 8 = 15
    assert_eq!(poly.evaluate(&s(2)), s(15));

    // f(3) = 1 + 9 + 18 = 28
    assert_eq!(poly.evaluate(&s(3)), s(28));

    // f(4) = 1 + 12 + 32
    assert_eq!(poly.evaluate(&s(4)), s(45));
}

#[test]
fn test_polynomial_threshold() {
    assert_eq!(poly(&[1, 3, 2]).interpolation_threshold(), 3);
    assert_eq!(poly(&[0, 0, 0]).interpolation_threshold(), 1);
    assert_eq!(StandardFormPolynomial::new(vec![]).interpolation_threshold(), 1);
}

#[test]
fn test_langrange_poly_evaluate() {
    let evaluations = vec![
        Evaluation { input: s(0), output: s(4) },
        Evaluation { input: s(1), output: s(1) },
        Evaluation { input: s(2), output: s(3) },
    ];

    assert_eq!(langrange_poly_evaluate(&evaluations, 0, &s(0)), s(1));
    assert_eq!(langrange_poly_evaluate(&evaluations, 0, &s(1)), s(0));
    assert_eq!(langrange_poly_evaluate(&evaluations, 0, &s(2)), s(0));

    assert_eq!(langrange_poly_evaluate(&evaluations, 1, &s(0)), s(0));
    assert_eq!(langrange_poly_evaluate(&evaluations, 1, &s(1)), s(1));
    assert_eq!(langrange_poly_evaluate(&evaluations, 1, &s(2)), s(0));

    assert_eq!(langrange_poly_evaluate(&evaluations, 2, &s(0)), s(0));
    assert_eq!(langrange_poly_evaluate(&evaluations, 2, &s(1)), s(0));
    assert_eq!(langrange_poly_evaluate(&evaluations, 2, &s(2)), s(1));

    let poly = LagrangePolynomial::new(evaluations);

    for eval in poly.evaluations.iter() {
        assert_eq!(poly.evaluate(&eval.input), eval.output);
    }
}

#[test]
fn test_lagrange_degree() {
    let evaluations = vec![
        Evaluation { input: s(0), output: s(4) },
        Evaluation { input: s(1), output: s(1) },
        Evaluation { input: s(2), output: s(3) },
    ];
    let poly = LagrangePolynomial::new(evaluations);
    assert_eq!(poly.degree(), 2);
    assert_eq!(poly.interpolation_threshold(), 3);

    let empty = LagrangePolynomial::new(vec![]);
    assert_eq!(empty.degree(), 0);
    assert_eq!(empty.interpolation_threshold(), 1);
}

#[test]
fn test_lagrange_reconstructs_linear() {
    // Samples drawn from f(x) = 1 + 2x; interpolation must reproduce it
    // everywhere, including inputs that exercise the modular division.
    let f = poly(&[1, 2]);
    let samples = vec![
        Evaluation { input: s(1), output: f.evaluate(&s(1)) },
        Evaluation { input: s(3), output: f.evaluate(&s(3)) },
    ];
    assert_eq!(samples[0].output, s(3));
    assert_eq!(samples[1].output, s(7));

    let interpolated = LagrangePolynomial::new(samples);
    assert_eq!(interpolated.evaluate(&s(5)), s(11));
    assert_eq!(interpolated.evaluate(&s(0)), s(1));
    assert_eq!(interpolated.evaluate(&s(100)), s(201));
}

#[test]
fn test_evaluation_new() {
    let e = Evaluation::new(s(5), s(9));
    assert_eq!(e.input, s(5));
    assert_eq!(e.output, s(9));
}

#[test]
fn test_scalar_basics() {
    assert_eq!(Scalar::zero(), s(0));
    assert_eq!(Scalar::one(), s(1));
    assert!(Scalar::zero().is_zero());
    assert!(!Scalar::one().is_zero());
    assert_ne!(s(5), s(6));
}

#[test]
fn test_random_coefficients() {
    let coeffs = qudoku::field::random_coefficients(4);
    assert_eq!(coeffs.len(), 4);
    let poly = StandardFormPolynomial::new(coeffs);
    assert_eq!(poly.interpolation_threshold(), 3 + 1);
}

#[test]
fn test_under_threshold_reconstruction() {
    // f(x) = 1 + 3x + 2x^2 needs three shares to reconstruct; from a
    // single share the reconstruction is the constant polynomial through
    // that share: it agrees with f at the supplied point and differs
    // elsewhere.
    let f = poly(&[1, 3, 2]);
    let share = Evaluation { input: s(1), output: f.evaluate(&s(1)) };
    let under = LagrangePolynomial::new(vec![share]);
    assert_eq!(under.evaluate(&s(1)), f.evaluate(&s(1)));
    assert_eq!(under.evaluate(&s(2)), s(6));
    assert_ne!(under.evaluate(&s(2)), f.evaluate(&s(2)));
}
