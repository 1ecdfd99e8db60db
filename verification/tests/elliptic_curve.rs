use ecc::elliptic_curve::EllipticCurvePoint;
use ecc::finite_field::FiniteFieldElement;

#[test]
fn elliptic_curve_test_eq() {
    let a = EllipticCurvePoint::new(3, 7, 5, 7);
    let b = EllipticCurvePoint::new(18, 77, 5, 7);
    assert_ne!(a, b);
    assert_eq!(a, a);
}

#[test]
fn test_add0() {
    let a = EllipticCurvePoint::zero(5, 7);
    let b = EllipticCurvePoint::new(2, 5, 5, 7);
    let c = EllipticCurvePoint::new(2, -5, 5, 7);
    assert_eq!(a + b, b);
    assert_eq!(b + a, b);
    assert_eq!(b + c, a);
}

#[test]
fn test_add1() {
    let a = EllipticCurvePoint::new(3, 7, 5, 7);
    let b = EllipticCurvePoint::new(-1, -1, 5, 7);
    assert_eq!(a + b, EllipticCurvePoint::new(2, -5, 5, 7));
}

#[test]
fn test_add2() {
    let a = EllipticCurvePoint::new(-1, -1, 5, 7);
    assert_eq!(a + a, EllipticCurvePoint::new(18, 77, 5, 7));
}

#[test]
fn test_finite_field_validation() {
    let prime = 223;
    let a = FiniteFieldElement::new(0, prime);
    let b = FiniteFieldElement::new(7, prime);

    let pt = |x, y| {
        EllipticCurvePoint::new_check(
            FiniteFieldElement::new(x, prime),
            FiniteFieldElement::new(y, prime),
            a,
            b,
        )
    };

    let valid_points = vec![pt(192, 105), pt(17, 56), pt(1, 193)];
    for p in valid_points.into_iter() {
        assert!(p.is_ok());
    }

    let invalid_points = vec![pt(200, 119), pt(42, 99)];
    for p in invalid_points.into_iter() {
        assert!(p.is_err());
    }
}

#[test]
fn test_finite_field_add() {
    let prime = 223;
    let a = FiniteFieldElement::new(0, prime);
    let b = FiniteFieldElement::new(7, prime);

    let pt = |x, y| {
        EllipticCurvePoint::new(
            FiniteFieldElement::new(x, prime),
            FiniteFieldElement::new(y, prime),
            a,
            b,
        )
    };

    let additions = vec![
        (pt(192, 105), pt(17, 56), pt(170, 142)),
        (pt(47, 71), pt(117, 141), pt(60, 139)),
        (pt(143, 98), pt(76, 66), pt(47, 71)),
    ];

    for (p1, p2, p3) in additions.into_iter() {
        assert_eq!(p1 + p2, p3);
    }
}

#[test]
fn test_finite_field_rmul() {
    let prime = 223;
    let a = FiniteFieldElement::new(0, prime);
    let b = FiniteFieldElement::new(7, prime);

    let pt = |x, y| {
        EllipticCurvePoint::new(
            FiniteFieldElement::new(x, prime),
            FiniteFieldElement::new(y, prime),
            a,
            b,
        )
    };

    let multiplications = vec![
        (2, pt(192, 105), pt(49, 71)),
        (2, pt(143, 98), pt(64, 168)),
        (2, pt(47, 71), pt(36, 111)),
        (4, pt(47, 71), pt(194, 51)),
        (8, pt(47, 71), pt(116, 55)),
        (21, pt(47, 71), EllipticCurvePoint::zero(a, b)),
    ];

    for (s, p1, p2) in multiplications.into_iter() {
        assert_eq!(s * p1, p2);
    }
}
