use ecc::finite_fields::FiniteFieldElement;

#[test]
fn finite_fields_test_eq() {
    let a = FiniteFieldElement::new(7, 13);
    let b = FiniteFieldElement::new(6, 13);
    assert_ne!(a, b);
    assert_eq!(a, a);
}

#[test]
fn finite_fields_test_ne() {
    let a = FiniteFieldElement::new(2, 31);
    let b = FiniteFieldElement::new(2, 31);
    let c = FiniteFieldElement::new(15, 31);
    assert_eq!(a, b);
    assert_ne!(a, c);
}

#[test]
fn finite_fields_test_add() {
    let a = FiniteFieldElement::new(2, 31);
    let b = FiniteFieldElement::new(15, 31);
    assert_eq!(a + b, FiniteFieldElement::new(17, 31));

    let a = FiniteFieldElement::new(17, 31);
    let b = FiniteFieldElement::new(21, 31);
    assert_eq!(a + b, FiniteFieldElement::new(7, 31));
}

#[test]
fn finite_fields_test_sub() {
    let a = FiniteFieldElement::new(29, 31);
    let b = FiniteFieldElement::new(4, 31);
    assert_eq!(a - b, FiniteFieldElement::new(25, 31));

    let a = FiniteFieldElement::new(15, 31);
    let b = FiniteFieldElement::new(30, 31);
    assert_eq!(a - b, FiniteFieldElement::new(16, 31));
}

#[test]
fn finite_fields_test_mul() {
    let a = FiniteFieldElement::new(24, 31);
    let b = FiniteFieldElement::new(19, 31);
    assert_eq!(a * b, FiniteFieldElement::new(22, 31));
}

#[test]
fn finite_fields_test_pow() {
    let a = FiniteFieldElement::new(17, 31);
    assert_eq!(a.pow(3), FiniteFieldElement::new(15, 31));

    let a = FiniteFieldElement::new(5, 31);
    let b = FiniteFieldElement::new(18, 31);
    assert_eq!(a.pow(5) * b, FiniteFieldElement::new(16, 31));
}

#[test]
fn finite_fields_test_div() {
    let a = FiniteFieldElement::new(3, 31);
    let b = FiniteFieldElement::new(24, 31);
    assert_eq!(a / b, FiniteFieldElement::new(4, 31));

    let a = FiniteFieldElement::new(17, 31);
    assert_eq!(a.pow(-3), FiniteFieldElement::new(29, 31));

    let a = FiniteFieldElement::new(4, 31);
    let b = FiniteFieldElement::new(11, 31);
    assert_eq!(a.pow(-4) * b, FiniteFieldElement::new(13, 31));
}

#[test]
fn wide_results_stay_in_range() {
    let p: u64 = 31;
    for x in 0..p {
        for y in 0..p {
            let a = FiniteFieldElement::new(x, p);
            let b = FiniteFieldElement::new(y, p);
            assert_eq!(a + b, FiniteFieldElement::new((x + y) % p, p));
            assert_eq!(a - b, FiniteFieldElement::new((x + p - y) % p, p));
            assert_eq!(a * b, FiniteFieldElement::new((x * y) % p, p));
        }
        assert_eq!(-FiniteFieldElement::new(x, p), FiniteFieldElement::new((p - x) % p, p));
    }
}

#[test]
fn wide_product_near_the_word_size() {
    // 2^64 - 59 is the largest prime below 2^64.
    let p: u64 = 18446744073709551557;
    let top = FiniteFieldElement::new(p - 1, p);
    let one = FiniteFieldElement::new(1, p);
    let two = FiniteFieldElement::new(2, p);
    assert_eq!(top * top, one);
    assert_eq!(top + top, FiniteFieldElement::new(p - 2, p));
    assert_eq!(one - two, top);
    assert_eq!(-one, top);
    assert_eq!(top * FiniteFieldElement::new(p - 2, p), two);
}

#[test]
fn wide_inverse_and_division() {
    let p: u64 = 18446744073709551557;
    let one = FiniteFieldElement::new(1, p);
    for v in [1u64, 2, 3, 1 << 40, p - 2, p - 1] {
        let x = FiniteFieldElement::new(v, p);
        assert_eq!(x * x.pow(-1), one);
        assert_eq!((one / x) * x, one);
        let y = FiniteFieldElement::new(123456789012345, p);
        assert_eq!((y / x) * x, y);
    }
}

#[test]
fn wide_additive_laws() {
    let p: u64 = 223;
    let zero = FiniteFieldElement::new(0, p);
    assert_eq!(-zero, zero);
    for v in 0..p {
        let x = FiniteFieldElement::new(v, p);
        assert_eq!(x + (-x), zero);
        assert_eq!(x + zero, x);
    }
}

#[test]
fn wide_power_and_its_negation_cancel() {
    let p: u64 = 31;
    let one = FiniteFieldElement::new(1, p);
    for v in 1..p {
        let x = FiniteFieldElement::new(v, p);
        assert_eq!(x.pow(0), one);
        for e in -70..=70 {
            assert_eq!(x.pow(e) * x.pow(-e), one);
        }
    }
}
