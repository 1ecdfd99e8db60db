//! Curves whose coordinates are elements of one field `ℤ/pℤ`.
//!
//! Over such a field every operation of the group law is defined: the sum of
//! two points of one curve needs no more than that all their coordinates and
//! coefficients are elements of the same field, and it stays in that field.

use crate::curve_algebra::curve_residual;
use crate::curve_algebra::lemma_chord_stays_on_curve;
use crate::curve_algebra::lemma_residual_of_residues;
use crate::curve_algebra::lemma_tangent_stays_on_curve;
use crate::elliptic_curve::lemma_add_negation;
use crate::elliptic_curve::EllipticCurvePoint;
use crate::finite_field::lemma_div_then_mul;
use crate::finite_field::lemma_operation_values;
use crate::finite_field::lemma_results_in_field;
use crate::number_theory::is_prime;
use vstd::arithmetic::div_mod::*;
use crate::finite_field::lemma_sub_zero_iff_equal;
use crate::finite_field::FiniteFieldElement;
use vstd::prelude::*;
use vstd::std_specs::ops::AddSpec;
use vstd::std_specs::ops::DivSpec;
use vstd::std_specs::ops::MulSpec;
use vstd::std_specs::ops::NegSpec;
use vstd::std_specs::ops::SubSpec;

verus! {

/// `x` is an element of the field of order `prime`.
pub open spec fn element_of(x: FiniteFieldElement, prime: nat) -> bool {
    x.wf() && x.prime() == prime
}

/// The coordinates and the coefficients of `p` are elements of the field of
/// order `prime`.
pub open spec fn in_field(p: EllipticCurvePoint<FiniteFieldElement>, prime: nat) -> bool {
    match p {
        EllipticCurvePoint::Zero { a, b } => element_of(a, prime) && element_of(b, prime),
        EllipticCurvePoint::NonZero { x, y, a, b } => {
            &&& element_of(x, prime)
            &&& element_of(y, prime)
            &&& element_of(a, prime)
            &&& element_of(b, prime)
        },
    }
}

/// The curve equation can be evaluated on any four elements of one field.
pub proof fn lemma_equation_defined(
    x: FiniteFieldElement,
    y: FiniteFieldElement,
    a: FiniteFieldElement,
    b: FiniteFieldElement,
    prime: nat,
)
    requires
        element_of(x, prime),
        element_of(y, prime),
        element_of(a, prime),
        element_of(b, prime),
    ensures
        EllipticCurvePoint::equation_req(x, y, a, b),
{
    lemma_results_in_field(x, x);
    lemma_results_in_field(x.mul_spec(x), x);
    lemma_results_in_field(a, x);
    lemma_results_in_field(x.mul_spec(x).mul_spec(x), a.mul_spec(x));
}

/// The point that a line of slope `s` gives as the sum is in the field of
/// the slope and of the coordinates it starts from.
proof fn lemma_third_point_defined(
    s: FiniteFieldElement,
    sx: FiniteFieldElement,
    sy: FiniteFieldElement,
    ox: FiniteFieldElement,
    a: FiniteFieldElement,
    b: FiniteFieldElement,
    prime: nat,
)
    requires
        element_of(s, prime),
        element_of(sx, prime),
        element_of(sy, prime),
        element_of(ox, prime),
        element_of(a, prime),
        element_of(b, prime),
    ensures
        EllipticCurvePoint::third_req(s, sx, sy, ox),
        in_field(EllipticCurvePoint::third_point(s, sx, sy, ox, a, b), prime),
{
    let x = EllipticCurvePoint::third_x(s, sx, ox);
    lemma_results_in_field(s, s);
    lemma_results_in_field(s.mul_spec(s), sx);
    lemma_results_in_field(s.mul_spec(s).sub_spec(sx), ox);
    lemma_results_in_field(sx, x);
    lemma_results_in_field(s, sx.sub_spec(x));
    lemma_results_in_field(s.mul_spec(sx.sub_spec(x)), sy);
}

/// Two points of one curve over one field can be added, and their sum is a
/// point over that field.
pub proof fn lemma_add_defined(
    p: EllipticCurvePoint<FiniteFieldElement>,
    q: EllipticCurvePoint<FiniteFieldElement>,
    prime: nat,
)
    requires
        in_field(p, prime),
        in_field(q, prime),
        p.coefficients() == q.coefficients(),
    ensures
        p.add_req(q),
        in_field(p.add_spec(q), prime),
        p.add_spec(q).coefficients() == p.coefficients(),
{
    match (p, q) {
        (
            EllipticCurvePoint::NonZero { x: sx, y: sy, a, b },
            EllipticCurvePoint::NonZero { x: ox, y: oy, .. },
        ) => {
            if sx != ox {
                lemma_results_in_field(oy, sy);
                lemma_results_in_field(ox, sx);
                lemma_sub_zero_iff_equal(ox, sx);
                lemma_results_in_field(oy.sub_spec(sy), ox.sub_spec(sx));
                let s = EllipticCurvePoint::chord_slope(sx, sy, ox, oy);
                lemma_third_point_defined(s, sx, sy, ox, a, b, prime);
            } else if sy == oy {
                lemma_results_in_field(sy, sy);
                lemma_sub_zero_iff_equal(sy, sy);
                if !EllipticCurvePoint::cancels(sx, sy, ox, oy) {
                    let square = sx.mul_spec(sx);
                    lemma_results_in_field(sx, sx);
                    lemma_results_in_field(square, square);
                    lemma_results_in_field(square.add_spec(square), square);
                    lemma_results_in_field(EllipticCurvePoint::triple_square(sx), a);
                    if sy.add_spec(sy).value() == 0 {
                        sy.add_spec(sy).lemma_equal_by_parts(sy.zero());
                    }
                    lemma_results_in_field(
                        EllipticCurvePoint::triple_square(sx).add_spec(a),
                        sy.add_spec(sy),
                    );
                    let s = EllipticCurvePoint::tangent_slope(sx, sy, a);
                    lemma_third_point_defined(s, sx, sy, sx, a, b, prime);
                }
            }
        },
        _ => {},
    }
}

/// Every multiple of a point over a field can be computed, by repeated
/// addition and by double-and-add, and is a point over that field.
pub proof fn lemma_multiples_defined(p: EllipticCurvePoint<FiniteFieldElement>, k: nat, prime: nat)
    requires
        in_field(p, prime),
    ensures
        p.scalar_mul_req(k),
        in_field(p.scalar_mul_spec(k), prime),
        p.scalar_mul_spec(k).coefficients() == p.coefficients(),
        p.double_and_add_req(k),
        in_field(p.double_and_add_spec(k), prime),
        p.double_and_add_spec(k).coefficients() == p.coefficients(),
    decreases k,
{
    if k > 0 {
        lemma_multiples_defined(p, (k - 1) as nat, prime);
        lemma_add_defined(p, p.scalar_mul_spec((k - 1) as nat), prime);
        lemma_multiples_defined(p, k / 2, prime);
        let half = p.double_and_add_spec(k / 2);
        lemma_add_defined(half, half, prime);
        lemma_add_defined(p, half.add_spec(half), prime);
    }
}

/// Over a field `ℤ/pℤ`, a point and its reflection add up to the point at
/// infinity.
pub proof fn lemma_add_reflection(p: EllipticCurvePoint<FiniteFieldElement>, prime: nat)
    requires
        in_field(p, prime),
    ensures
        p.add_spec(p.negation()) == p.identity(),
{
    if let EllipticCurvePoint::NonZero { y, .. } = p {
        crate::finite_field::lemma_add_negation(y);
        lemma_sub_zero_iff_equal(y, y);
    }
    lemma_add_negation(p);
}

/// Four elements of one field satisfy the curve equation exactly when the
/// curve residual of their residues is a multiple of the modulus.
pub proof fn lemma_on_curve_by_residual(
    x: FiniteFieldElement,
    y: FiniteFieldElement,
    a: FiniteFieldElement,
    b: FiniteFieldElement,
    prime: nat,
)
    requires
        element_of(x, prime),
        element_of(y, prime),
        element_of(a, prime),
        element_of(b, prime),
    ensures
        EllipticCurvePoint::on_curve(x, y, a, b) <==> curve_residual(
            x.value() as int,
            y.value() as int,
            a.value() as int,
            b.value() as int,
        ) % (prime as int) == 0,
{
    let p = prime as int;
    let xv = x.value() as int;
    let yv = y.value() as int;
    let av = a.value() as int;
    let bv = b.value() as int;
    let square = x.mul_spec(x);
    let cube = square.mul_spec(x);
    let line = a.mul_spec(x);
    let left = y.mul_spec(y);
    let right = cube.add_spec(line).add_spec(b);
    lemma_results_in_field(x, x);
    lemma_results_in_field(square, x);
    lemma_results_in_field(a, x);
    lemma_results_in_field(cube, line);
    lemma_results_in_field(cube.add_spec(line), b);
    lemma_results_in_field(y, y);
    lemma_operation_values(x, x);
    lemma_operation_values(square, x);
    lemma_operation_values(a, x);
    lemma_operation_values(cube, line);
    lemma_operation_values(cube.add_spec(line), b);
    lemma_operation_values(y, y);
    lemma_mul_mod_noop_left(xv * xv, xv, p);
    assert(cube.value() == (xv * xv * xv) % p);
    lemma_add_mod_noop(xv * xv * xv, av * xv, p);
    lemma_add_mod_noop(xv * xv * xv + av * xv, bv, p);
    lemma_small_mod(bv as nat, prime);
    assert(right.value() == (xv * xv * xv + av * xv + bv) % p);
    assert(left.value() == (yv * yv) % p);
    lemma_mod_equivalence(yv * yv, xv * xv * xv + av * xv + bv, p);
    if left.value() == right.value() {
        left.lemma_equal_by_parts(right);
    }
}

/// The residues of the point that a line of slope `s` gives as the sum.
proof fn lemma_third_point_values(
    s: FiniteFieldElement,
    sx: FiniteFieldElement,
    sy: FiniteFieldElement,
    ox: FiniteFieldElement,
    prime: nat,
)
    requires
        element_of(s, prime),
        element_of(sx, prime),
        element_of(sy, prime),
        element_of(ox, prime),
    ensures
        ({
            let sv = s.value() as int;
            let x3 = sv * sv - sx.value() - ox.value();
            let x = EllipticCurvePoint::third_x(s, sx, ox);
            &&& x.value() == x3 % (prime as int)
            &&& EllipticCurvePoint::third_y(s, sx, sy, x).value() == (sv * (sx.value() - x3)
                - sy.value()) % (prime as int)
        }),
{
    let p = prime as int;
    let sv = s.value() as int;
    let x1 = sx.value() as int;
    let y1 = sy.value() as int;
    let x2 = ox.value() as int;
    let x3 = sv * sv - x1 - x2;
    let x = EllipticCurvePoint::third_x(s, sx, ox);
    lemma_results_in_field(s, s);
    lemma_results_in_field(s.mul_spec(s), sx);
    lemma_results_in_field(s.mul_spec(s).sub_spec(sx), ox);
    lemma_results_in_field(sx, x);
    lemma_results_in_field(s, sx.sub_spec(x));
    lemma_operation_values(s, s);
    lemma_operation_values(s.mul_spec(s), sx);
    lemma_operation_values(s.mul_spec(s).sub_spec(sx), ox);
    lemma_operation_values(sx, x);
    lemma_operation_values(s, sx.sub_spec(x));
    lemma_operation_values(s.mul_spec(sx.sub_spec(x)), sy);
    lemma_sub_mod_noop(sv * sv, x1, p);
    lemma_small_mod(x1 as nat, prime);
    lemma_sub_mod_noop(sv * sv - x1, x2, p);
    lemma_small_mod(x2 as nat, prime);
    assert(x.value() == x3 % p);
    lemma_sub_mod_noop_right(x1, x3, p);
    lemma_mul_mod_noop_right(sv, x1 - x.value(), p);
    lemma_mul_mod_noop_right(sv, x1 - x3, p);
    lemma_sub_mod_noop(sv * (x1 - x.value()), y1, p);
    lemma_sub_mod_noop(sv * (x1 - x3), y1, p);
    lemma_small_mod(y1 as nat, prime);
}

/// The group law stays on the curve: over a field of prime order, the sum
/// of two points that satisfy the equation of one curve satisfies it too.
pub proof fn lemma_add_on_curve(
    p: EllipticCurvePoint<FiniteFieldElement>,
    q: EllipticCurvePoint<FiniteFieldElement>,
    prime: nat,
)
    requires
        is_prime(prime as int),
        in_field(p, prime),
        in_field(q, prime),
        p.coefficients() == q.coefficients(),
        p.wf(),
        q.wf(),
    ensures
        p.add_spec(q).wf(),
{
    let m = prime as int;
    lemma_add_defined(p, q, prime);
    match (p, q) {
        (
            EllipticCurvePoint::NonZero { x: sx, y: sy, a, b },
            EllipticCurvePoint::NonZero { x: ox, y: oy, .. },
        ) => {
            let x1 = sx.value() as int;
            let y1 = sy.value() as int;
            let x2 = ox.value() as int;
            let y2 = oy.value() as int;
            let av = a.value() as int;
            let bv = b.value() as int;
            lemma_on_curve_by_residual(sx, sy, a, b, prime);
            lemma_on_curve_by_residual(ox, oy, a, b, prime);
            if EllipticCurvePoint::cancels(sx, sy, ox, oy) {
            } else {
                let s = if sx != ox {
                    EllipticCurvePoint::chord_slope(sx, sy, ox, oy)
                } else {
                    EllipticCurvePoint::tangent_slope(sx, sy, a)
                };
                let sv = s.value() as int;
                if sx != ox {
                    let rise = oy.sub_spec(sy);
                    let run = ox.sub_spec(sx);
                    lemma_results_in_field(oy, sy);
                    lemma_results_in_field(ox, sx);
                    lemma_operation_values(oy, sy);
                    lemma_operation_values(ox, sx);
                    lemma_sub_zero_iff_equal(ox, sx);
                    lemma_results_in_field(rise, run);
                    lemma_div_then_mul(rise, run);
                    lemma_operation_values(s, run);
                    lemma_mul_mod_noop_right(sv, x2 - x1, m);
                    lemma_mod_equivalence(sv * (x2 - x1), y2 - y1, m);
                    lemma_chord_stays_on_curve(m, av, bv, x1, y1, x2, y2, sv);
                } else {
                    let square = sx.mul_spec(sx);
                    let top = EllipticCurvePoint::triple_square(sx).add_spec(a);
                    let bottom = sy.add_spec(sy);
                    lemma_results_in_field(sx, sx);
                    lemma_results_in_field(square, square);
                    lemma_results_in_field(square.add_spec(square), square);
                    lemma_results_in_field(EllipticCurvePoint::triple_square(sx), a);
                    lemma_results_in_field(sy, sy);
                    lemma_operation_values(sx, sx);
                    lemma_operation_values(square, square);
                    lemma_operation_values(square.add_spec(square), square);
                    lemma_operation_values(EllipticCurvePoint::triple_square(sx), a);
                    lemma_operation_values(sy, sy);
                    lemma_sub_zero_iff_equal(sy, sy);
                    if bottom.value() == 0 {
                        bottom.lemma_equal_by_parts(sy.zero());
                    }
                    lemma_results_in_field(top, bottom);
                    lemma_div_then_mul(top, bottom);
                    lemma_operation_values(s, bottom);
                    lemma_add_mod_noop(x1 * x1, x1 * x1, m);
                    lemma_add_mod_noop(x1 * x1 + x1 * x1, x1 * x1, m);
                    lemma_add_mod_noop(x1 * x1 + x1 * x1 + x1 * x1, av, m);
                    lemma_small_mod(av as nat, prime);
                    assert(top.value() == (x1 * x1 + x1 * x1 + x1 * x1 + av) % m);
                    lemma_mul_mod_noop_right(sv, y1 + y1, m);
                    lemma_mod_equivalence(sv * (y1 + y1), x1 * x1 + x1 * x1 + x1 * x1 + av, m);
                    lemma_tangent_stays_on_curve(m, av, bv, x1, y1, sv);
                }
                let other_x = if sx != ox { ox } else { sx };
                let x2u = other_x.value() as int;
                let x3 = sv * sv - x1 - x2u;
                let y3 = sv * (x1 - x3) - y1;
                let x = EllipticCurvePoint::third_x(s, sx, other_x);
                let y = EllipticCurvePoint::third_y(s, sx, sy, x);
                lemma_third_point_values(s, sx, sy, other_x, prime);
                lemma_third_point_defined(s, sx, sy, other_x, a, b, prime);
                lemma_residual_of_residues(m, x3, y3, av, bv);
                lemma_small_mod(av as nat, prime);
                lemma_small_mod(bv as nat, prime);
                lemma_on_curve_by_residual(x, y, a, b, prime);
            }
        },
        _ => {},
    }
}

/// Over a field of prime order, every multiple of a point of the curve is a
/// point of the curve, whichever way it is computed.
pub proof fn lemma_multiples_on_curve(
    p: EllipticCurvePoint<FiniteFieldElement>,
    k: nat,
    prime: nat,
)
    requires
        is_prime(prime as int),
        in_field(p, prime),
        p.wf(),
    ensures
        p.scalar_mul_spec(k).wf(),
        p.double_and_add_spec(k).wf(),
    decreases k,
{
    if k > 0 {
        let before = p.scalar_mul_spec((k - 1) as nat);
        let half = p.double_and_add_spec(k / 2);
        lemma_multiples_on_curve(p, (k - 1) as nat, prime);
        lemma_multiples_on_curve(p, k / 2, prime);
        lemma_multiples_defined(p, (k - 1) as nat, prime);
        lemma_multiples_defined(p, k / 2, prime);
        lemma_add_on_curve(p, before, prime);
        lemma_add_defined(half, half, prime);
        lemma_add_on_curve(half, half, prime);
        lemma_add_on_curve(p, half.add_spec(half), prime);
    }
}

} // verus!
