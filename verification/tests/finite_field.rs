use ecc::finite_field::FiniteFieldElement;

#[test]
fn finite_field_test_eq() {
    let a = FiniteFieldElement::new(7, 13);
    let b = FiniteFieldElement::new(6, 13);
    assert_ne!(a, b);
    assert_eq!(a, a);
}

#[test]
fn finite_field_test_ne() {
    let a = FiniteFieldElement::new(2, 31);
    let b = FiniteFieldElement::new(2, 31);
    let c = FiniteFieldElement::new(15, 31);
    assert_eq!(a, b);
    assert_ne!(a, c);
}

#[test]
fn finite_field_test_add() {
    FiniteFieldElement::new(2, 31);
    let a = FiniteFieldElement::new(2, 31);
    let b = FiniteFieldElement::new(15, 31);
    assert_eq!(a + b, FiniteFieldElement::new(17, 31));

    let a = FiniteFieldElement::new(17, 31);
    let b = FiniteFieldElement::new(21, 31);
    assert_eq!(a + b, FiniteFieldElement::new(7, 31));
}

#[test]
fn finite_field_test_sub() {
    let a = FiniteFieldElement::new(29, 31);
    let b = FiniteFieldElement::new(4, 31);
    assert_eq!(a - b, FiniteFieldElement::new(25, 31));

    let a = FiniteFieldElement::new(15, 31);
    let b = FiniteFieldElement::new(30, 31);
    assert_eq!(a - b, FiniteFieldElement::new(16, 31));
}

#[test]
fn finite_field_test_mul() {
    let a = FiniteFieldElement::new(24, 31);
    let b = FiniteFieldElement::new(19, 31);
    assert_eq!(a * b, FiniteFieldElement::new(22, 31));
}

#[test]
fn finite_field_test_pow() {
    let a = FiniteFieldElement::new(17, 31);
    assert_eq!(a.pow(3), FiniteFieldElement::new(15, 31));

    let a = FiniteFieldElement::new(5, 31);
    let b = FiniteFieldElement::new(18, 31);
    assert_eq!(a.pow(5) * b, FiniteFieldElement::new(16, 31));
}

#[test]
fn finite_field_test_div() {
    let a = FiniteFieldElement::new(3, 31);
    let b = FiniteFieldElement::new(24, 31);
    assert_eq!(a / b, FiniteFieldElement::new(4, 31));

    let a = FiniteFieldElement::new(17, 31);
    assert_eq!(a.pow(-3), FiniteFieldElement::new(29, 31));

    let a = FiniteFieldElement::new(4, 31);
    let b = FiniteFieldElement::new(11, 31);
    assert_eq!(a.pow(-4) * b, FiniteFieldElement::new(13, 31));
}
