use cggmp21::point::Point;
use cggmp21::polynomial::{PointPolynomial, Polynomial};
use cggmp21::scalar::Scalar;

fn sc(v: u64) -> Scalar {
    Scalar::from_u64(v)
}

#[test]
fn test_polynomial_derivatives() {
    // Setup: Create a polynomial and its corresponding point polynomial
    let coefs = vec![sc(1), sc(2), sc(3)];
    let x = sc(4);
    let point_coefs: Vec<Point> = coefs.iter().map(|c| Point::generator_times(c)).collect();
    let f = Polynomial::from_coefs(coefs);
    let big_f = PointPolynomial::from_coefs(point_coefs);

    // Test polynomial evaluation
    assert_eq!(
        Point::generator_times(&f.nth_derivative_at(&x, 0)),
        big_f.nth_derivative_at(&x, 0),
        "Polynomial evaluation at x should be the same for both types"
    );

    // Test first derivative
    assert_eq!(
        Point::generator_times(&f.nth_derivative_at(&x, 1)),
        big_f.nth_derivative_at(&x, 1),
        "First derivative evaluation at x should be the same for both types"
    );

    // Test second derivative
    assert_eq!(
        Point::generator_times(&f.nth_derivative_at(&x, 2)),
        big_f.nth_derivative_at(&x, 2),
        "Second derivative evaluation at x should be the same for both types"
    );

    // Test third derivative
    assert_eq!(
        Point::generator_times(&f.nth_derivative_at(&x, 3)),
        big_f.nth_derivative_at(&x, 3),
        "Third derivative evaluation at x should be the same for both types"
    );

    // Test higher derivative (should be zero for degree 2 polynomial)
    assert_eq!(f.nth_derivative_at(&x, 4), sc(0), "Fourth derivative of a degree 2 polynomial should be zero");
}

#[test]
fn test_linearity_of_derivatives() {
    // For a polynomial f(x) = x^2, f'(x) = 2x, f''(x) = 2, f'''(x) = 0
    let f = Polynomial::from_coefs(vec![sc(0), sc(0), sc(1)]);

    let x = sc(5);

    assert_eq!(f.nth_derivative_at(&x, 0), sc(25), "f(x) = x^2 evaluated at x=5 should be 25");
    assert_eq!(f.nth_derivative_at(&x, 1), sc(10), "f'(x) = 2x evaluated at x=5 should be 10");
    assert_eq!(f.nth_derivative_at(&x, 2), sc(2), "f''(x) should be constant 2");
    assert_eq!(f.nth_derivative_at(&x, 3), sc(0), "f'''(x) should be zero for a quadratic polynomial");
}

#[test]
fn derivative_of_a_cubic() {
    // f(x) = 1 + 2x + 3x^2 + 4x^3: f''(2) = 6 + 24 * 2 = 54, f'''(2) = 24
    let f = Polynomial::from_coefs(vec![sc(1), sc(2), sc(3), sc(4)]);
    assert_eq!(f.nth_derivative_at(&sc(2), 2), sc(54));
    assert_eq!(f.nth_derivative_at(&sc(2), 3), sc(24));
    assert_eq!(f.nth_derivative_at(&sc(2), 0), sc(1 + 4 + 12 + 32));
}

#[test]
fn point_polynomial_high_derivative_is_identity() {
    let big_f = PointPolynomial::from_coefs(vec![Point::generator_times(&sc(3))]);
    assert!(big_f.nth_derivative_at(&sc(7), 1).is_zero());
    assert_eq!(big_f.nth_derivative_at(&sc(7), 5), Point::zero());
}
