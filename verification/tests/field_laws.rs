use ecc::finite_field::FiniteFieldElement;

fn el(value: u32, prime: u32) -> FiniteFieldElement {
    FiniteFieldElement::new(value, prime)
}

#[test]
fn results_stay_in_range() {
    let p: u32 = 31;
    for x in 0..p {
        for y in 0..p {
            assert_eq!(el(x, p) + el(y, p), el((x + y) % p, p));
            assert_eq!(el(x, p) - el(y, p), el((x + p - y) % p, p));
            assert_eq!(el(x, p) * el(y, p), el((x * y) % p, p));
        }
        assert_eq!(-el(x, p), el((p - x) % p, p));
    }
}

#[test]
fn negation_of_zero_is_zero() {
    assert_eq!(-el(0, 31), el(0, 31));
    assert_eq!(-el(0, 2), el(0, 2));
    assert_eq!(-el(1, 31), el(30, 31));
}

#[test]
fn subtraction_below_zero_wraps_upward() {
    assert_eq!(el(0, 31) - el(1, 31), el(30, 31));
    assert_eq!(el(3, 223) - el(222, 223), el(4, 223));
    assert_eq!(el(5, 7) - el(5, 7), el(0, 7));
}

#[test]
fn additive_identity_and_inverse() {
    let p: u32 = 223;
    let zero = el(0, p);
    for v in 0..p {
        let x = el(v, p);
        assert_eq!(x + (-x), zero);
        assert_eq!(x + zero, x);
        assert_eq!(x - x, zero);
    }
}

#[test]
fn multiplicative_inverse() {
    for p in [2u32, 3, 5, 31, 223] {
        let one = el(1, p);
        for v in 1..p {
            let x = el(v, p);
            assert_eq!(x * x.pow(-1), one);
            assert_eq!(x.pow(-1), x.pow(p as i32 - 2));
        }
    }
}

#[test]
fn division_is_undone_by_multiplication() {
    let p: u32 = 31;
    for v in 0..p {
        for w in 1..p {
            let x = el(v, p);
            let y = el(w, p);
            assert_eq!((x / y) * y, x);
        }
    }
}

#[test]
fn power_and_its_negation_cancel() {
    let p: u32 = 31;
    let one = el(1, p);
    for v in 1..p {
        let x = el(v, p);
        for e in -70..=70 {
            assert_eq!(x.pow(e) * x.pow(-e), one);
        }
    }
}

#[test]
fn exponent_zero_gives_one() {
    for p in [2u32, 3, 31, 223] {
        for v in 0..p {
            assert_eq!(el(v, p).pow(0), el(1, p));
        }
    }
}

#[test]
fn powers_of_zero() {
    assert_eq!(el(0, 31).pow(1), el(0, 31));
    assert_eq!(el(0, 31).pow(30), el(0, 31));
    assert_eq!(el(0, 31).pow(31), el(0, 31));
}

#[test]
fn exact_powers() {
    assert_eq!(el(2, 31).pow(5), el(1, 31));
    assert_eq!(el(3, 223).pow(5), el(20, 223));
    assert_eq!(el(7, 13).pow(2), el(10, 13));
    assert_eq!(el(7, 13).pow(-1), el(2, 13));
    assert_eq!(el(17, 31).pow(-3), el(17, 31).pow(27));
    assert_eq!(el(17, 31).pow(-30), el(1, 31));
    assert_eq!(el(17, 31).pow(-31), el(17, 31).pow(29));
}

#[test]
fn extreme_exponents() {
    // 2^31 - 1 = 7 + 30 * k, and -2^31 reduces to 22 modulo 30.
    let x = el(3, 31);
    assert_eq!(x.pow(i32::MAX), x.pow(i32::MAX % 30));
    assert_eq!(x.pow(i32::MIN), x.pow(22));
    assert_eq!(x.pow(i32::MIN) * x.pow(8), el(1, 31));
}

#[test]
fn field_of_two_elements() {
    let zero = el(0, 2);
    let one = el(1, 2);
    assert_eq!(one + one, zero);
    assert_eq!(one * one, one);
    assert_eq!(one / one, one);
    assert_eq!(one.pow(-1), one);
    assert_eq!(one.pow(-5), one);
    assert_eq!(zero - one, one);
}

#[test]
fn product_near_the_word_size() {
    // 2^32 - 5 is the largest prime below 2^32.
    let p: u32 = 4294967291;
    let top = el(p - 1, p);
    assert_eq!(top * top, el(1, p));
    assert_eq!(top + top, el(p - 2, p));
    assert_eq!(el(1, p) - el(2, p), top);
    assert_eq!(top * top.pow(-1), el(1, p));
    assert_eq!((el(12345, p) / top) * top, el(12345, p));
    assert_eq!(top.pow(-2), el(1, p));
}

#[test]
fn elements_of_different_fields_differ() {
    assert_ne!(el(2, 31), el(2, 37));
    assert_eq!(el(2, 31), el(2, 31));
}
