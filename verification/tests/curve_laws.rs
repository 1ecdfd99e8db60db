use ecc::elliptic_curve::EllipticCurvePoint;
use ecc::finite_field::FiniteFieldElement;

type Point = EllipticCurvePoint<FiniteFieldElement>;

const PRIME: u32 = 223;

fn el(value: u32) -> FiniteFieldElement {
    FiniteFieldElement::new(value, PRIME)
}

fn pt(x: u32, y: u32) -> Point {
    EllipticCurvePoint::new(el(x), el(y), el(0), el(7))
}

fn infinity() -> Point {
    EllipticCurvePoint::zero(el(0), el(7))
}

/// Every affine point of `y² = x³ + 7` over the field of 223 elements.
fn all_points() -> Vec<Point> {
    let mut found = Vec::new();
    for x in 0..PRIME {
        for y in 0..PRIME {
            if let Ok(p) = EllipticCurvePoint::new_check(el(x), el(y), el(0), el(7)) {
                found.push(p);
            }
        }
    }
    found
}

fn reflect(p: Point) -> Point {
    match p {
        EllipticCurvePoint::Zero { a, b } => EllipticCurvePoint::Zero { a, b },
        EllipticCurvePoint::NonZero { x, y, a, b } => EllipticCurvePoint::NonZero { x, y: -y, a, b },
    }
}

fn on_curve(p: Point) -> bool {
    match p {
        EllipticCurvePoint::Zero { .. } => true,
        EllipticCurvePoint::NonZero { x, y, a, b } => {
            EllipticCurvePoint::new_check(x, y, a, b) == Ok(p)
        }
    }
}

#[test]
fn membership_is_the_curve_equation() {
    let points = all_points();
    // The group has 252 = 12 · 21 elements, the point at infinity among them.
    assert_eq!(points.len(), 251);
    for x in 0..PRIME {
        for y in 0..PRIME {
            let expected = (y * y) % PRIME == (x * x * x + 7) % PRIME;
            let made = EllipticCurvePoint::new_check(el(x), el(y), el(0), el(7));
            assert_eq!(made.is_ok(), expected);
            if expected {
                assert_eq!(made, Ok(pt(x, y)));
            } else {
                assert_eq!(made, Err(()));
            }
        }
    }
}

#[test]
fn checked_and_unchecked_constructors_agree() {
    assert_eq!(
        EllipticCurvePoint::new_check(el(192), el(105), el(0), el(7)),
        Ok(pt(192, 105))
    );
    assert_eq!(
        EllipticCurvePoint::new_check(el(200), el(119), el(0), el(7)),
        Err(())
    );
    assert_eq!(EllipticCurvePoint::new_check(3, 7, 5, 7), Ok(EllipticCurvePoint::new(3, 7, 5, 7)));
    assert_eq!(EllipticCurvePoint::new_check(3, 8, 5, 7), Err(()));
}

#[test]
fn infinity_is_the_identity() {
    let zero = infinity();
    assert_eq!(zero + zero, zero);
    for p in all_points() {
        assert_eq!(zero + p, p);
        assert_eq!(p + zero, p);
    }
}

#[test]
fn a_point_and_its_reflection_cancel() {
    let zero = infinity();
    assert_eq!(pt(47, 71) + pt(47, 152), zero);
    for p in all_points() {
        assert_eq!(p + reflect(p), zero);
        assert_eq!(reflect(p) + p, zero);
    }
}

#[test]
fn a_point_with_y_zero_doubles_to_infinity() {
    // 6³ + 7 = 223, so (6, 0) is on the curve and is its own reflection.
    let p = pt(6, 0);
    assert_eq!(p + p, infinity());
    assert_eq!(2 * p, infinity());
    assert_eq!(3 * p, p);
}

#[test]
fn doubling_takes_the_tangent() {
    assert_eq!(pt(192, 105) + pt(192, 105), pt(49, 71));
    assert_eq!(pt(143, 98) + pt(143, 98), pt(64, 168));
    assert_eq!(pt(47, 71) + pt(47, 71), pt(36, 111));
}

#[test]
fn sums_stay_on_the_curve() {
    let points = all_points();
    for (i, p) in points.iter().enumerate() {
        for q in points.iter().skip(i % 7).step_by(7) {
            assert!(on_curve(*p + *q));
        }
    }
}

#[test]
fn addition_commutes() {
    let points = all_points();
    for (i, p) in points.iter().enumerate() {
        for q in points.iter().skip(i % 5).step_by(5) {
            assert_eq!(*p + *q, *q + *p);
        }
    }
}

#[test]
fn small_multiples() {
    let p = pt(47, 71);
    assert_eq!(0 * p, infinity());
    assert_eq!(1 * p, p);
    assert_eq!(2 * p, p + p);
    assert_eq!(3 * p, p + (p + p));
    assert_eq!(0 * infinity(), infinity());
    assert_eq!(5 * infinity(), infinity());
}

#[test]
fn repeated_addition_by_definition() {
    let p = pt(47, 71);
    assert_eq!(p.repeated_add(0), infinity());
    assert_eq!(p.repeated_add(1), p);
    assert_eq!(p.repeated_add(2), pt(36, 111));
    assert_eq!(p.repeated_add(4), pt(194, 51));
    assert_eq!(p.repeated_add(8), pt(116, 55));
    assert_eq!(p.repeated_add(21), infinity());
}

#[test]
fn double_and_add_agrees_with_repeated_addition() {
    for p in [pt(47, 71), pt(192, 105), pt(15, 86), pt(6, 0), pt(1, 193), infinity()] {
        for k in 0..=64u32 {
            assert_eq!(k * p, p.repeated_add(k));
        }
    }
    for p in all_points() {
        for k in [0u32, 1, 2, 3, 4, 5, 7, 8, 15, 16, 31, 111, 222, 223, 1000] {
            assert_eq!(k * p, p.repeated_add(k));
        }
    }
}

#[test]
fn large_scalars() {
    // (47, 71) has the order 21.
    let p = pt(47, 71);
    assert_eq!(100000 * p, (100000 % 21) * p);
    assert_eq!(u32::MAX * p, (u32::MAX % 21) * p);
    // 4294967290 = 21 · 204522251 + 19, and 19·p = -(2·p).
    assert_eq!(4294967290 * p, pt(36, 112));
}

#[test]
fn order_of_a_generator() {
    let g = pt(15, 86);
    for k in 1..7u32 {
        assert_ne!(k * g, infinity());
    }
    assert_eq!(7 * g, infinity());
    assert_eq!(8 * g, g);
}

#[test]
fn points_are_compared_with_their_curve() {
    let on_b7 = EllipticCurvePoint::zero(el(0), el(7));
    let on_b8 = EllipticCurvePoint::zero(el(0), el(8));
    assert_ne!(on_b7, on_b8);
    assert_ne!(on_b7, pt(47, 71));
    assert_ne!(pt(47, 71), pt(47, 152));
    assert_eq!(pt(47, 71), pt(47, 71));
    assert_ne!(EllipticCurvePoint::zero(5, 7), EllipticCurvePoint::new(2, 5, 5, 7));
    assert_ne!(
        EllipticCurvePoint::NonZero { x: 2, y: 5, a: 5, b: 7 },
        EllipticCurvePoint::NonZero { x: 2, y: 5, a: 5, b: 8 }
    );
}

#[test]
fn curve_over_wide_elements() {
    let wide = |v: u64| ecc::finite_fields::FiniteFieldElement::new(v, 223);
    let point = |x: u64, y: u64| EllipticCurvePoint::new(wide(x), wide(y), wide(0), wide(7));
    assert_eq!(point(192, 105) + point(17, 56), point(170, 142));
    assert_eq!(2 * point(192, 105), point(49, 71));
    assert_eq!(21 * point(47, 71), EllipticCurvePoint::zero(wide(0), wide(7)));
    assert_eq!(point(47, 71).repeated_add(8), point(116, 55));
}
