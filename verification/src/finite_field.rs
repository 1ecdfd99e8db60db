//! Elements of the field ℤ/pℤ for a modulus `p` that fits in 32 bits.
//!
//! An element is a residue `value` together with the modulus `prime` of its
//! field, with `0 ≤ value < prime`. The operators `+`, `-`, `*`, `/` and unary
//! `-` are the field operations; they are defined between elements of the same
//! field only, and each states its result as a residue modulo `prime`.
//!
//! That the modulus is a prime is not checked by the operations, which compute
//! residues for any modulus. It is the hypothesis of the laws that need it:
//! the inverse, division and exponent laws at the end of this file.

use crate::number_theory::is_prime;
use crate::number_theory::lemma_fermat_little;
use crate::number_theory::lemma_fermat_multiple;
use crate::number_theory::lemma_mod_of_negation;
use crate::number_theory::lemma_pow_square_step;
use std::ops::Add;
use std::ops::Div;
use std::ops::Mul;
use std::ops::Neg;
use std::ops::Sub;
use vstd::arithmetic::div_mod::*;
use vstd::arithmetic::mul::*;
use vstd::arithmetic::power::*;
use vstd::prelude::*;
use vstd::std_specs::ops::AddSpec;
use vstd::std_specs::ops::DivSpec;
use vstd::std_specs::ops::MulSpec;
use vstd::std_specs::ops::NegSpec;
use vstd::std_specs::ops::SubSpec;

verus! {

/// A residue modulo `prime`.
#[derive(Debug, Clone, Copy)]
pub struct FiniteFieldElement {
    index: u32,
    prime: u32,
}

impl FiniteFieldElement {
    /// The residue that this element stores.
    pub closed spec fn value(self) -> nat {
        self.index as nat
    }

    /// The modulus of the field that this element belongs to.
    pub closed spec fn prime(self) -> nat {
        self.prime as nat
    }

    /// The invariant of the type: the stored residue is reduced.
    pub open spec fn wf(self) -> bool {
        self.value() < self.prime()
    }

    /// The element of the same field that stores `value`.
    pub closed spec fn with_value(self, value: int) -> Self {
        FiniteFieldElement { index: value as u32, prime: self.prime }
    }

    /// The additive identity of the field of `self`.
    pub open spec fn zero(self) -> Self {
        self.with_value(0)
    }

    /// The multiplicative identity of the field of `self`.
    pub open spec fn one(self) -> Self {
        self.with_value(1)
    }

    /// `with_value` keeps the field, and stores the value it is given when
    /// that value is a reduced residue.
    pub proof fn lemma_with_value(self, value: int)
        ensures
            self.with_value(value).prime() == self.prime(),
            0 <= value < self.prime() ==> self.with_value(value).value() == value,
            0 <= value < self.prime() ==> self.with_value(value).wf(),
    {
    }

    /// Two elements with the same residue and the same modulus are equal.
    pub proof fn lemma_equal_by_parts(self, other: Self)
        requires
            self.value() == other.value(),
            self.prime() == other.prime(),
        ensures
            self == other,
    {
    }

    /// The exponent that `pow` raises to: a negative exponent is reduced
    /// modulo `prime - 1`, the order of the multiplicative group, into
    /// `[0, prime - 1)`; an exponent that is not negative is taken as it is.
    pub open spec fn reduced_exponent(self, exponent: int) -> nat {
        if exponent >= 0 {
            exponent as nat
        } else {
            (exponent % (self.prime() - 1)) as nat
        }
    }

    /// `x^e mod p`, for the reduced exponent `e`.
    pub open spec fn pow_spec(self, exponent: int) -> Self {
        self.with_value(
            pow(self.value() as int, self.reduced_exponent(exponent)) % (self.prime() as int),
        )
    }

    /// The multiplicative inverse by Fermat's little theorem: `x^(p-2) mod p`.
    pub open spec fn inverse_spec(self) -> Self {
        self.pow_spec(-1)
    }

    /// Builds the element `index` of the field of order `prime`.
    pub fn new(index: u32, prime: u32) -> (r: Self)
        requires
            index < prime,
        ensures
            r.wf(),
            r.value() == index,
            r.prime() == prime,
    {
        FiniteFieldElement { index, prime }
    }
}

impl FiniteFieldElement {
    /// Raises `self` to `exponent` by repeated squaring.
    ///
    /// A negative exponent stands for the matching power of the inverse: it
    /// is first reduced modulo `prime - 1`. The exponent 0 gives the residue
    /// of 1.
    pub fn pow(self, exponent: i32) -> (r: Self)
        requires
            self.wf(),
            exponent < 0 ==> self.prime() > 1,
        ensures
            r == self.pow_spec(exponent as int),
            r.wf(),
            r.prime() == self.prime(),
            r.value() == pow(self.value() as int, self.reduced_exponent(exponent as int)) % (
            self.prime() as int),
    {
        let modulus: u64 = self.prime as u64;
        let mut remaining: u64 = if exponent >= 0 {
            exponent as u64
        } else {
            let order: u64 = modulus - 1;
            let magnitude: u64 = (-(exponent as i64)) as u64;
            let excess: u64 = magnitude % order;
            proof {
                lemma_mod_of_negation(magnitude as int, order as int);
            }
            if excess == 0 {
                0
            } else {
                order - excess
            }
        };
        let ghost target: nat = self.reduced_exponent(exponent as int);
        let ghost goal: int = pow(self.index as int, target) % (modulus as int);
        let mut base: u64 = self.index as u64;
        let mut result: u64 = 1 % modulus;
        proof {
            assert(remaining == target);
            lemma_mul_mod_noop_left(1, pow(base as int, target), modulus as int);
        }
        while remaining > 0
            invariant
                0 < modulus <= u32::MAX,
                base < modulus,
                result < modulus,
                (result * pow(base as int, remaining as nat)) % (modulus as int) == goal,
            decreases remaining,
        {
            let ghost old_base = base as int;
            let ghost old_result = result as int;
            let ghost old_remaining = remaining as nat;
            assert(base * base <= 0xffff_ffff * 0xffff_ffff && result * base <= 0xffff_ffff
                * 0xffff_ffff) by (nonlinear_arith)
                requires
                    base <= 0xffff_ffff,
                    result <= 0xffff_ffff,
            ;
            if remaining % 2 == 1 {
                result = result * base % modulus;
            }
            base = base * base % modulus;
            remaining = remaining / 2;
            proof {
                let m = modulus as int;
                let rest = pow(base as int, remaining as nat);
                lemma_pow_square_step(old_base, old_remaining, m);
                lemma_mul_mod_noop_right(old_result, pow(old_base, old_remaining), m);
                if old_remaining % 2 == 1 {
                    lemma_mul_mod_noop_left(old_result * old_base, rest, m);
                    lemma_mul_is_associative(old_result, old_base, rest);
                    lemma_mul_mod_noop_right(old_result, old_base * rest, m);
                } else {
                    lemma_mul_mod_noop_right(old_result, rest, m);
                }
            }
        }
        proof {
            lemma_pow0(base as int);
            lemma_small_mod(result as nat, modulus as nat);
        }
        FiniteFieldElement { index: result as u32, prime: self.prime }
    }
}

impl PartialEq for FiniteFieldElement {
    /// Two elements are equal when both the residue and the modulus agree.
    fn eq(&self, other: &Self) -> (r: bool) {
        self.index == other.index && self.prime == other.prime
    }
}

impl Eq for FiniteFieldElement {

}

impl vstd::std_specs::cmp::PartialEqSpecImpl for FiniteFieldElement {
    open spec fn obeys_eq_spec() -> bool {
        true
    }

    open spec fn eq_spec(&self, other: &Self) -> bool {
        *self == *other
    }
}

impl vstd::std_specs::ops::SubSpecImpl for FiniteFieldElement {
    open spec fn obeys_sub_spec() -> bool {
        true
    }

    open spec fn sub_req(self, other: Self) -> bool {
        self.wf() && other.wf() && self.prime() == other.prime()
    }

    /// `(x - y) mod p`, with the remainder taken in `[0, p)`.
    open spec fn sub_spec(self, other: Self) -> Self {
        self.with_value((self.value() - other.value()) % (self.prime() as int))
    }
}

impl Sub for FiniteFieldElement {
    type Output = Self;

    fn sub(self, other: Self) -> (r: Self)
        ensures
            r.wf(),
            r.prime() == self.prime(),
            r.value() == (self.value() - other.value()) % (self.prime() as int),
    {
        let index = if self.index < other.index {
            proof {
                lemma_mod_add_multiples_vanish(self.index - other.index, self.prime as int);
                lemma_small_mod((self.index + self.prime - other.index) as nat, self.prime as nat);
            }
            self.prime - (other.index - self.index)
        } else {
            proof {
                lemma_small_mod((self.index - other.index) as nat, self.prime as nat);
            }
            self.index - other.index
        };
        FiniteFieldElement { index, prime: self.prime }
    }
}

impl vstd::std_specs::ops::AddSpecImpl for FiniteFieldElement {
    open spec fn obeys_add_spec() -> bool {
        true
    }

    open spec fn add_req(self, other: Self) -> bool {
        self.wf() && other.wf() && self.prime() == other.prime()
    }

    /// `(x + y) mod p`.
    open spec fn add_spec(self, other: Self) -> Self {
        self.with_value(((self.value() + other.value()) % self.prime()) as int)
    }
}

impl Add for FiniteFieldElement {
    type Output = Self;

    fn add(self, other: Self) -> (r: Self)
        ensures
            r.wf(),
            r.prime() == self.prime(),
            r.value() == (self.value() + other.value()) % self.prime(),
    {
        let sum: u64 = self.index as u64 + other.index as u64;
        let index = (sum % (self.prime as u64)) as u32;
        FiniteFieldElement { index, prime: self.prime }
    }
}

impl vstd::std_specs::ops::MulSpecImpl for FiniteFieldElement {
    open spec fn obeys_mul_spec() -> bool {
        true
    }

    open spec fn mul_req(self, other: Self) -> bool {
        self.wf() && other.wf() && self.prime() == other.prime()
    }

    /// `(x · y) mod p`.
    open spec fn mul_spec(self, other: Self) -> Self {
        self.with_value(((self.value() * other.value()) % self.prime()) as int)
    }
}

impl Mul for FiniteFieldElement {
    type Output = Self;

    fn mul(self, other: Self) -> (r: Self)
        ensures
            r.wf(),
            r.prime() == self.prime(),
            r.value() == (self.value() * other.value()) % self.prime(),
    {
        assert(self.index * other.index <= 0xffff_ffff * 0xffff_ffff) by (nonlinear_arith)
            requires
                self.index <= 0xffff_ffff,
                other.index <= 0xffff_ffff,
        ;
        let product: u64 = self.index as u64 * other.index as u64;
        let index = (product % (self.prime as u64)) as u32;
        FiniteFieldElement { index, prime: self.prime }
    }
}

impl vstd::std_specs::ops::NegSpecImpl for FiniteFieldElement {
    open spec fn obeys_neg_spec() -> bool {
        true
    }

    open spec fn neg_req(self) -> bool {
        self.wf()
    }

    /// `(p - x) mod p`: the negation of zero is zero.
    open spec fn neg_spec(self) -> Self {
        self.with_value((self.prime() - self.value()) % (self.prime() as int))
    }
}

impl Neg for FiniteFieldElement {
    type Output = Self;

    fn neg(self) -> (r: Self)
        ensures
            r.wf(),
            r.prime() == self.prime(),
            r.value() == (self.prime() - self.value()) % (self.prime() as int),
    {
        let index = if self.index == 0 {
            proof {
                lemma_mod_self_0(self.prime as int);
            }
            0
        } else {
            proof {
                lemma_small_mod((self.prime - self.index) as nat, self.prime as nat);
            }
            self.prime - self.index
        };
        FiniteFieldElement { index, prime: self.prime }
    }
}

impl vstd::std_specs::ops::DivSpecImpl for FiniteFieldElement {
    open spec fn obeys_div_spec() -> bool {
        true
    }

    /// Division is defined within one field, by a divisor other than zero.
    open spec fn div_req(self, other: Self) -> bool {
        self.wf() && other.wf() && self.prime() == other.prime() && other.value() != 0
    }

    /// `x · y⁻¹`, with the inverse taken as `y^(p-2)`.
    open spec fn div_spec(self, other: Self) -> Self {
        self.mul_spec(other.inverse_spec())
    }
}

impl Div for FiniteFieldElement {
    type Output = Self;

    fn div(self, other: Self) -> (r: Self)
        ensures
            r.wf(),
            r.prime() == self.prime(),
            r.value() == (self.value() * other.inverse_spec().value()) % self.prime(),
    {
        self * other.pow(-1)
    }
}

/// The four binary operations and negation stay in the field of their
/// operands: each result is a reduced residue of the same modulus.
pub proof fn lemma_results_in_field(x: FiniteFieldElement, y: FiniteFieldElement)
    requires
        x.wf(),
        y.wf(),
        x.prime() == y.prime(),
    ensures
        x.add_spec(y).wf() && x.add_spec(y).prime() == x.prime(),
        x.sub_spec(y).wf() && x.sub_spec(y).prime() == x.prime(),
        x.mul_spec(y).wf() && x.mul_spec(y).prime() == x.prime(),
        x.div_spec(y).wf() && x.div_spec(y).prime() == x.prime(),
        x.neg_spec().wf() && x.neg_spec().prime() == x.prime(),
{
    let p = x.prime() as int;
    lemma_mod_bound((x.value() + y.value()) as int, p);
    lemma_mod_bound(x.value() - y.value(), p);
    lemma_mod_bound((x.value() * y.value()) as int, p);
    lemma_mod_bound((x.value() * y.inverse_spec().value()) as int, p);
    lemma_mod_bound(p - x.value(), p);
}

/// The residues that sum, difference, product and negation store.
pub proof fn lemma_operation_values(x: FiniteFieldElement, y: FiniteFieldElement)
    requires
        x.wf(),
        y.wf(),
        x.prime() == y.prime(),
    ensures
        x.add_spec(y).value() == (x.value() + y.value()) % x.prime(),
        x.sub_spec(y).value() == (x.value() - y.value()) % (x.prime() as int),
        x.mul_spec(y).value() == (x.value() * y.value()) % x.prime(),
        x.neg_spec().value() == (x.prime() - x.value()) % (x.prime() as int),
{
    let p = x.prime() as int;
    lemma_mod_bound((x.value() + y.value()) as int, p);
    lemma_mod_bound(x.value() - y.value(), p);
    lemma_mod_bound((x.value() * y.value()) as int, p);
    lemma_mod_bound(p - x.value(), p);
}

/// Every power of an element is an element of the same field.
pub proof fn lemma_pow_in_field(x: FiniteFieldElement, exponent: int)
    requires
        x.wf(),
    ensures
        x.pow_spec(exponent).wf(),
        x.pow_spec(exponent).prime() == x.prime(),
{
    lemma_mod_bound(pow(x.value() as int, x.reduced_exponent(exponent)), x.prime() as int);
}

/// Adding the negation of an element to it gives zero.
pub proof fn lemma_add_negation(x: FiniteFieldElement)
    requires
        x.wf(),
    ensures
        x.add_spec(x.neg_spec()) == x.zero(),
{
    let p = x.prime() as int;
    lemma_mod_bound(p - x.value(), p);
    lemma_add_mod_noop_right(x.value() as int, p - x.value(), p);
    lemma_mod_self_0(p);
}

/// Adding zero to an element leaves it as it is.
pub proof fn lemma_add_zero(x: FiniteFieldElement)
    requires
        x.wf(),
    ensures
        x.add_spec(x.zero()) == x,
{
    lemma_small_mod(x.value(), x.prime());
}

/// An element minus itself is zero, and a difference is zero only between
/// equal elements.
pub proof fn lemma_sub_zero_iff_equal(x: FiniteFieldElement, y: FiniteFieldElement)
    requires
        x.wf(),
        y.wf(),
        x.prime() == y.prime(),
    ensures
        x.sub_spec(y) == x.zero() <==> x == y,
        x.sub_spec(y).value() == 0 <==> x == y,
        x.zero().value() == 0,
{
    let p = x.prime() as int;
    let d = x.value() - y.value();
    lemma_mod_bound(d, p);
    if d > 0 {
        lemma_small_mod(d as nat, p as nat);
    } else if d < 0 {
        lemma_mod_add_multiples_vanish(d, p);
        lemma_small_mod((p + d) as nat, p as nat);
    } else {
        lemma_small_mod(0, p as nat);
    }
}

/// The exponent 0 gives the multiplicative identity.
pub proof fn lemma_pow_zero(x: FiniteFieldElement)
    requires
        x.wf(),
        x.prime() > 1,
    ensures
        x.pow_spec(0) == x.one(),
{
    lemma_pow0(x.value() as int);
    lemma_small_mod(1, x.prime());
}

/// In a field of prime order, every element other than zero times its
/// inverse is one.
pub proof fn lemma_mul_inverse(x: FiniteFieldElement)
    requires
        x.wf(),
        is_prime(x.prime() as int),
        x.value() != 0,
    ensures
        x.mul_spec(x.inverse_spec()) == x.one(),
{
    let p = x.prime() as int;
    let v = x.value() as int;
    let e = x.reduced_exponent(-1);
    lemma_mod_of_negation(1, p - 1);
    if p > 2 {
        lemma_small_mod(1, (p - 1) as nat);
    }
    assert(e == p - 2);
    lemma_mod_bound(pow(v, e), p);
    lemma_mul_mod_noop_right(v, pow(v, e), p);
    reveal(pow);
    assert(pow(v, (p - 1) as nat) == v * pow(v, e));
    lemma_small_mod(v as nat, p as nat);
    lemma_fermat_little(v, p);
}

/// In a field of prime order, dividing by an element other than zero and
/// multiplying by it again gives back the dividend.
pub proof fn lemma_div_then_mul(x: FiniteFieldElement, y: FiniteFieldElement)
    requires
        x.wf(),
        y.wf(),
        x.prime() == y.prime(),
        is_prime(x.prime() as int),
        y.value() != 0,
    ensures
        x.div_spec(y).mul_spec(y) == x,
{
    let p = x.prime() as int;
    let a = x.value() as int;
    let b = y.value() as int;
    let inv = y.inverse_spec().value() as int;
    lemma_pow_in_field(y, -1);
    lemma_mul_inverse(y);
    assert((b * inv) % p == 1);
    lemma_mod_bound(a * inv, p);
    lemma_mul_mod_noop_left(a * inv, b, p);
    lemma_mul_is_associative(a, inv, b);
    lemma_mul_is_commutative(inv, b);
    lemma_mul_mod_noop_right(a, b * inv, p);
    lemma_small_mod(a as nat, p as nat);
}

/// In a field of prime order, the powers of an element other than zero to
/// an exponent and to its negation are inverse to each other.
pub proof fn lemma_pow_negated_exponent(x: FiniteFieldElement, exponent: int)
    requires
        x.wf(),
        is_prime(x.prime() as int),
        x.value() != 0,
    ensures
        x.pow_spec(exponent).mul_spec(x.pow_spec(-exponent)) == x.one(),
{
    let p = x.prime() as int;
    let v = x.value() as int;
    let order = p - 1;
    let e1 = x.reduced_exponent(exponent);
    let e2 = x.reduced_exponent(-exponent);
    let magnitude = if exponent >= 0 { exponent } else { -exponent };
    lemma_mod_of_negation(magnitude, order);
    lemma_fundamental_div_mod(magnitude, order);
    lemma_mod_bound(magnitude, order);
    let k = if magnitude % order == 0 { magnitude / order } else { magnitude / order + 1 };
    assert(0 <= magnitude / order) by {
        lemma_div_pos_is_pos(magnitude, order);
    }
    assert(e1 + e2 == k * order) by (nonlinear_arith)
        requires
            magnitude == order * (magnitude / order) + magnitude % order,
            k == if magnitude % order == 0 { magnitude / order } else { magnitude / order + 1 },
            e1 + e2 == if magnitude % order == 0 { magnitude } else {
                magnitude + order - magnitude % order
            },
    ;
    lemma_pow_in_field(x, exponent);
    lemma_pow_in_field(x, -exponent);
    lemma_mul_mod_noop_general(pow(v, e1), pow(v, e2), p);
    lemma_pow_adds(v, e1, e2);
    lemma_small_mod(v as nat, p as nat);
    lemma_fermat_multiple(v, p, k as nat);
}

} // verus!
