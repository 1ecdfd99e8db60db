//! Points of a short Weierstrass curve `y² = x³ + a·x + b` and their group
//! law.
//!
//! The coordinates and coefficients are of any type that has the field
//! operations `+`, `-`, `*`, `/`, unary `-` and `==`. What those operators
//! compute is taken from their specifications (`add_spec`, `mul_spec`, …),
//! and every contract here is stated over them.

use std::ops::Add;
use std::ops::Div;
use std::ops::Mul;
use std::ops::Neg;
use std::ops::Sub;
use vstd::prelude::*;
use vstd::std_specs::cmp::PartialEqSpec;
use vstd::std_specs::ops::AddSpec;
use vstd::std_specs::ops::DivSpec;
use vstd::std_specs::ops::MulSpec;
use vstd::std_specs::ops::NegSpec;
use vstd::std_specs::ops::SubSpec;

verus! {

/// The capability set of a field element: the four operations, negation and
/// equality, on a value that is copied freely.
pub trait FieldElement<T = Self>:
    PartialEq
    + Eq
    + Add<Output = T>
    + Sub<Output = T>
    + Neg<Output = T>
    + Mul<Output = T>
    + Div<Output = T>
    + std::fmt::Debug
    + Copy
    + Sized
{
}

impl<T> FieldElement for T where
    T: PartialEq
        + Eq
        + Add<Output = T>
        + Sub<Output = T>
        + Neg<Output = T>
        + Mul<Output = T>
        + Div<Output = T>
        + std::fmt::Debug
        + Copy,
{
}

/// The operators of `T` compute what their specifications say, and `==` on
/// `T` is equality of values.
pub open spec fn obeys_field_specs<T: FieldElement>() -> bool {
    &&& T::obeys_add_spec()
    &&& T::obeys_sub_spec()
    &&& T::obeys_neg_spec()
    &&& T::obeys_mul_spec()
    &&& T::obeys_div_spec()
    &&& T::obeys_eq_spec()
    &&& forall|x: T, y: T| #[trigger] x.eq_spec(&y) <==> x == y
}

/// A point of the curve with the coefficients `a` and `b`: the point at
/// infinity, which is the identity of the group, or an affine point.
#[derive(Debug, Copy)]
pub enum EllipticCurvePoint<T: FieldElement> {
    Zero { a: T, b: T },
    NonZero { x: T, y: T, a: T, b: T },
}

impl<T: FieldElement> Clone for EllipticCurvePoint<T> {
    fn clone(&self) -> (r: Self)
        ensures
            r == *self,
    {
        *self
    }
}

impl<T: FieldElement> EllipticCurvePoint<T> {
    /// The coefficients `(a, b)` of the curve that the point is on.
    pub open spec fn coefficients(self) -> (T, T) {
        match self {
            Self::Zero { a, b } => (a, b),
            Self::NonZero { a, b, .. } => (a, b),
        }
    }

    /// The operations that evaluate the curve equation are defined.
    pub open spec fn equation_req(x: T, y: T, a: T, b: T) -> bool {
        &&& y.mul_req(y)
        &&& x.mul_req(x)
        &&& x.mul_spec(x).mul_req(x)
        &&& a.mul_req(x)
        &&& x.mul_spec(x).mul_spec(x).add_req(a.mul_spec(x))
        &&& x.mul_spec(x).mul_spec(x).add_spec(a.mul_spec(x)).add_req(b)
    }

    /// The curve equation `y² = x³ + a·x + b`.
    pub open spec fn on_curve(x: T, y: T, a: T, b: T) -> bool {
        y.mul_spec(y) == x.mul_spec(x).mul_spec(x).add_spec(a.mul_spec(x)).add_spec(b)
    }

    /// The invariant of the type: the coordinates of an affine point satisfy
    /// the equation of its curve.
    pub open spec fn wf(self) -> bool {
        match self {
            Self::Zero { .. } => true,
            Self::NonZero { x, y, a, b } => Self::on_curve(x, y, a, b),
        }
    }

    /// Builds the affine point `(x, y)` of the curve `(a, b)`. The
    /// coordinates have to satisfy the curve equation; `new_check` tests it.
    pub fn new(x: T, y: T, a: T, b: T) -> (r: Self)
        requires
            Self::on_curve(x, y, a, b),
        ensures
            r == (Self::NonZero { x, y, a, b }),
            r.wf(),
    {
        Self::NonZero { x, y, a, b }
    }

    /// Builds the affine point `(x, y)` of the curve `(a, b)` if the
    /// coordinates satisfy the curve equation, and fails if they do not.
    pub fn new_check(x: T, y: T, a: T, b: T) -> (r: Result<Self, ()>)
        requires
            obeys_field_specs::<T>(),
            Self::equation_req(x, y, a, b),
        ensures
            Self::on_curve(x, y, a, b) ==> r == Ok::<Self, ()>(Self::NonZero { x, y, a, b }),
            !Self::on_curve(x, y, a, b) ==> r == Err::<Self, ()>(()),
    {
        if y * y == x * x * x + a * x + b {
            return Ok(Self::NonZero { x, y, a, b });
        }
        Err(())
    }

    /// The point at infinity of the curve `(a, b)`.
    pub fn zero(a: T, b: T) -> (r: Self)
        ensures
            r == (Self::Zero { a, b }),
            r.wf(),
    {
        Self::Zero { a, b }
    }
}

impl<T: FieldElement> EllipticCurvePoint<T> {
    /// Two affine points cancel: they lie on one vertical line, so their sum
    /// is the point at infinity. On a curve these are a point and its
    /// reflection `(x, -y)`, a point of order two with `y = 0` included.
    pub open spec fn cancels(sx: T, sy: T, ox: T, oy: T) -> bool {
        sx == ox && (sy != oy || sy.add_spec(oy) == sy.sub_spec(sy))
    }

    /// The slope of the line through two points with different `x`.
    pub open spec fn chord_slope(sx: T, sy: T, ox: T, oy: T) -> T {
        oy.sub_spec(sy).div_spec(ox.sub_spec(sx))
    }

    /// The operations of `chord_slope` are defined.
    pub open spec fn chord_slope_req(sx: T, sy: T, ox: T, oy: T) -> bool {
        &&& oy.sub_req(sy)
        &&& ox.sub_req(sx)
        &&& oy.sub_spec(sy).div_req(ox.sub_spec(sx))
    }

    /// Three times the square of `x`, as the sum that computes it.
    pub open spec fn triple_square(x: T) -> T {
        x.mul_spec(x).add_spec(x.mul_spec(x)).add_spec(x.mul_spec(x))
    }

    /// The slope of the tangent at `(x, y)`: `(3·x² + a) / (2·y)`.
    pub open spec fn tangent_slope(x: T, y: T, a: T) -> T {
        Self::triple_square(x).add_spec(a).div_spec(y.add_spec(y))
    }

    /// The operations of `tangent_slope` are defined.
    pub open spec fn tangent_slope_req(x: T, y: T, a: T) -> bool {
        &&& x.mul_req(x)
        &&& x.mul_spec(x).add_req(x.mul_spec(x))
        &&& x.mul_spec(x).add_spec(x.mul_spec(x)).add_req(x.mul_spec(x))
        &&& Self::triple_square(x).add_req(a)
        &&& y.add_req(y)
        &&& Self::triple_square(x).add_spec(a).div_req(y.add_spec(y))
    }

    /// The `x` of the third point of the curve on the line of slope `s`
    /// through the points with the abscissas `sx` and `ox`: `s² - sx - ox`.
    pub open spec fn third_x(s: T, sx: T, ox: T) -> T {
        s.mul_spec(s).sub_spec(sx).sub_spec(ox)
    }

    /// The `y` of the sum, which is the third point reflected:
    /// `s·(sx - x) - sy`.
    pub open spec fn third_y(s: T, sx: T, sy: T, x: T) -> T {
        s.mul_spec(sx.sub_spec(x)).sub_spec(sy)
    }

    /// The operations of `third_x` and `third_y` are defined.
    pub open spec fn third_req(s: T, sx: T, sy: T, ox: T) -> bool {
        &&& s.mul_req(s)
        &&& s.mul_spec(s).sub_req(sx)
        &&& s.mul_spec(s).sub_spec(sx).sub_req(ox)
        &&& sx.sub_req(Self::third_x(s, sx, ox))
        &&& s.mul_req(sx.sub_spec(Self::third_x(s, sx, ox)))
        &&& s.mul_spec(sx.sub_spec(Self::third_x(s, sx, ox))).sub_req(sy)
    }

    /// The point `(x', y')` that the line of slope `s` through `(sx, sy)` and
    /// the point with the abscissa `ox` gives as the sum.
    pub open spec fn third_point(s: T, sx: T, sy: T, ox: T, a: T, b: T) -> Self {
        let x = Self::third_x(s, sx, ox);
        Self::NonZero { x, y: Self::third_y(s, sx, sy, x), a, b }
    }

    /// The field operations that the sum of two affine points performs are
    /// defined.
    pub open spec fn affine_add_req(sx: T, sy: T, ox: T, oy: T, a: T) -> bool {
        if sx != ox {
            &&& Self::chord_slope_req(sx, sy, ox, oy)
            &&& Self::third_req(Self::chord_slope(sx, sy, ox, oy), sx, sy, ox)
        } else if sy != oy {
            true
        } else {
            &&& sy.add_req(oy)
            &&& sy.sub_req(sy)
            &&& !Self::cancels(sx, sy, ox, oy) ==> {
                &&& Self::tangent_slope_req(sx, sy, a)
                &&& Self::third_req(Self::tangent_slope(sx, sy, a), sx, sy, sx)
            }
        }
    }
}

impl<T: FieldElement> vstd::std_specs::ops::AddSpecImpl for EllipticCurvePoint<T> {
    open spec fn obeys_add_spec() -> bool {
        true
    }

    /// The sum is defined for two points of one curve, given that the field
    /// operations it performs are.
    open spec fn add_req(self, other: Self) -> bool {
        &&& obeys_field_specs::<T>()
        &&& self.coefficients() == other.coefficients()
        &&& match (self, other) {
            (Self::NonZero { x: sx, y: sy, a, .. }, Self::NonZero { x: ox, y: oy, .. }) => {
                Self::affine_add_req(sx, sy, ox, oy, a)
            },
            _ => true,
        }
    }

    /// The group law, by cases in this order: the point at infinity is the
    /// identity; two points on one vertical line cancel; two points with
    /// different `x` are joined by a chord; a point added to itself takes
    /// its tangent.
    open spec fn add_spec(self, other: Self) -> Self {
        match (self, other) {
            (Self::Zero { a, b }, Self::Zero { .. }) => Self::Zero { a, b },
            (Self::Zero { a, b }, Self::NonZero { x, y, .. }) => Self::NonZero { x, y, a, b },
            (Self::NonZero { x, y, a, b }, Self::Zero { .. }) => Self::NonZero { x, y, a, b },
            (Self::NonZero { x: sx, y: sy, a, b }, Self::NonZero { x: ox, y: oy, .. }) => {
                if Self::cancels(sx, sy, ox, oy) {
                    Self::Zero { a, b }
                } else if sx != ox {
                    Self::third_point(Self::chord_slope(sx, sy, ox, oy), sx, sy, ox, a, b)
                } else {
                    Self::third_point(Self::tangent_slope(sx, sy, a), sx, sy, sx, a, b)
                }
            },
        }
    }
}

impl<T: FieldElement> Add for EllipticCurvePoint<T> {
    type Output = Self;

    fn add(self, other: Self) -> (r: Self) {
        match self {
            Self::Zero { a, b } => match other {
                Self::Zero { .. } => Self::Zero { a, b },
                Self::NonZero { x, y, .. } => Self::NonZero { x, y, a, b },
            },
            Self::NonZero { x: sx, y: sy, a, b } => match other {
                Self::Zero { .. } => Self::NonZero { x: sx, y: sy, a, b },
                Self::NonZero { x: ox, y: oy, .. } => {
                    if sx != ox {
                        let s = (oy - sy) / (ox - sx);
                        let x = s * s - sx - ox;
                        let y = s * (sx - x) - sy;
                        return Self::NonZero { x, y, a, b };
                    }
                    if sy != oy {
                        return Self::Zero { a, b };
                    }
                    let y_zero = sy - sy;
                    if sy + oy == y_zero {
                        return Self::Zero { a, b };
                    }
                    let s = ((sx * sx) + (sx * sx) + (sx * sx) + a) / (sy + sy);
                    let x = s * s - sx - sx;
                    let y = s * (sx - x) - sy;
                    Self::NonZero { x, y, a, b }
                },
            },
        }
    }
}

impl<T: FieldElement> EllipticCurvePoint<T> {
    /// The point at infinity of the curve that `self` is on.
    pub open spec fn identity(self) -> Self {
        Self::Zero { a: self.coefficients().0, b: self.coefficients().1 }
    }

    /// The multiple `k·p` by its definition: `0·p` is the point at infinity,
    /// and `k·p = p + (k-1)·p`.
    pub open spec fn scalar_mul_spec(self, k: nat) -> Self
        decreases k,
    {
        if k == 0 {
            self.identity()
        } else {
            self.add_spec(self.scalar_mul_spec((k - 1) as nat))
        }
    }

    /// Each of the `k` sums of `scalar_mul_spec` is defined.
    pub open spec fn scalar_mul_req(self, k: nat) -> bool
        decreases k,
    {
        k > 0 ==> {
            &&& self.scalar_mul_req((k - 1) as nat)
            &&& self.add_req(self.scalar_mul_spec((k - 1) as nat))
        }
    }

    /// The multiple `k·p` as double-and-add computes it, from the binary
    /// digits of `k`: `(2h)·p = h·p + h·p` and `(2h+1)·p = p + (h·p + h·p)`.
    pub open spec fn double_and_add_spec(self, k: nat) -> Self
        decreases k,
    {
        if k == 0 {
            self.identity()
        } else {
            let half = self.double_and_add_spec(k / 2);
            if k % 2 == 1 {
                self.add_spec(half.add_spec(half))
            } else {
                half.add_spec(half)
            }
        }
    }

    /// Each sum of `double_and_add_spec` is defined.
    pub open spec fn double_and_add_req(self, k: nat) -> bool
        decreases k,
    {
        k > 0 ==> {
            let half = self.double_and_add_spec(k / 2);
            &&& self.double_and_add_req(k / 2)
            &&& half.add_req(half)
            &&& k % 2 == 1 ==> self.add_req(half.add_spec(half))
        }
    }

    /// If the sums of `k·p` are defined, so are those of every smaller
    /// multiple.
    pub proof fn lemma_scalar_mul_req_below(self, j: nat, k: nat)
        requires
            j <= k,
            self.scalar_mul_req(k),
        ensures
            self.scalar_mul_req(j),
        decreases k,
    {
        if j < k {
            self.lemma_scalar_mul_req_below(j, (k - 1) as nat);
        }
    }

    /// The point at infinity of the curve that `self` is on.
    fn identity_of(self) -> (r: Self)
        ensures
            r == self.identity(),
    {
        match self {
            Self::Zero { a, b } => Self::Zero { a, b },
            Self::NonZero { a, b, .. } => Self::Zero { a, b },
        }
    }

    /// Adds `self` to itself `k` times, one sum after the other. The number
    /// of sums grows with `k`: this is the definition of the multiple, to
    /// hold `k * p` against, and fit for small `k` only.
    pub fn repeated_add(self, k: u32) -> (r: Self)
        requires
            self.scalar_mul_req(k as nat),
        ensures
            r == self.scalar_mul_spec(k as nat),
    {
        let mut sum = self.identity_of();
        let mut done: u32 = 0;
        while done < k
            invariant
                done <= k,
                self.scalar_mul_req(k as nat),
                sum == self.scalar_mul_spec(done as nat),
            decreases k - done,
        {
            proof {
                self.lemma_scalar_mul_req_below((done + 1) as nat, k as nat);
            }
            sum = self + sum;
            done = done + 1;
        }
        sum
    }

    /// Computes `k·p` by double-and-add, with a number of sums that grows
    /// with the number of binary digits of `k`.
    ///
    /// The result is the multiple of the definition, `scalar_mul_spec`, up
    /// to `k = 3` in any case, and for every `k` where sums of multiples of
    /// `p` can be regrouped.
    pub fn double_and_add(self, k: u32) -> (r: Self)
        requires
            self.double_and_add_req(k as nat),
        ensures
            r == self.double_and_add_spec(k as nat),
            k <= 3 ==> r == self.scalar_mul_spec(k as nat),
            self.associative_on_multiples() ==> r == self.scalar_mul_spec(k as nat),
        decreases k,
    {
        proof {
            if k <= 3 {
                lemma_double_and_add_up_to_three(self, k as nat);
            }
            if self.associative_on_multiples() {
                lemma_double_and_add_is_repeated_add(self, k as nat);
            }
        }
        if k == 0 {
            return self.identity_of();
        }
        let half = self.double_and_add(k / 2);
        let twice = half + half;
        if k % 2 == 1 {
            self + twice
        } else {
            twice
        }
    }
}

impl<T: FieldElement> vstd::std_specs::ops::MulSpecImpl<EllipticCurvePoint<T>> for u32 {
    open spec fn obeys_mul_spec() -> bool {
        true
    }

    open spec fn mul_req(self, point: EllipticCurvePoint<T>) -> bool {
        point.double_and_add_req(self as nat)
    }

    open spec fn mul_spec(self, point: EllipticCurvePoint<T>) -> EllipticCurvePoint<T> {
        point.double_and_add_spec(self as nat)
    }
}

impl<T: FieldElement> Mul<EllipticCurvePoint<T>> for u32 {
    type Output = EllipticCurvePoint<T>;

    /// The multiple `self · point`, by double-and-add.
    fn mul(self, point: EllipticCurvePoint<T>) -> (r: EllipticCurvePoint<T>)
        ensures
            self <= 3 ==> r == point.scalar_mul_spec(self as nat),
            point.associative_on_multiples() ==> r == point.scalar_mul_spec(self as nat),
    {
        point.double_and_add(self)
    }
}

impl<T: FieldElement> PartialEq for EllipticCurvePoint<T> {
    /// Two points are equal when both are the point at infinity of one
    /// curve, or both are the same affine point of one curve.
    fn eq(&self, other: &Self) -> (r: bool) {
        match self {
            Self::Zero { a, b } => match other {
                Self::Zero { a: oa, b: ob } => *a == *oa && *b == *ob,
                Self::NonZero { .. } => false,
            },
            Self::NonZero { x, y, a, b } => match other {
                Self::Zero { .. } => false,
                Self::NonZero { x: ox, y: oy, a: oa, b: ob } => {
                    *x == *ox && *y == *oy && *a == *oa && *b == *ob
                },
            },
        }
    }
}

impl<T: FieldElement> Eq for EllipticCurvePoint<T> {

}

impl<T: FieldElement> vstd::std_specs::cmp::PartialEqSpecImpl for EllipticCurvePoint<T> {
    open spec fn obeys_eq_spec() -> bool {
        T::obeys_eq_spec()
    }

    open spec fn eq_spec(&self, other: &Self) -> bool {
        match (*self, *other) {
            (Self::Zero { a, b }, Self::Zero { a: oa, b: ob }) => a.eq_spec(&oa) && b.eq_spec(&ob),
            (Self::NonZero { x, y, a, b }, Self::NonZero { x: ox, y: oy, a: oa, b: ob }) => {
                x.eq_spec(&ox) && y.eq_spec(&oy) && a.eq_spec(&oa) && b.eq_spec(&ob)
            },
            _ => false,
        }
    }
}

/// Where `==` on the coordinates is equality of values, `==` on points is
/// equality of points.
pub proof fn lemma_eq_is_equality<T: FieldElement>(p: EllipticCurvePoint<T>, q: EllipticCurvePoint<T>)
    requires
        obeys_field_specs::<T>(),
    ensures
        p.eq_spec(&q) <==> p == q,
{
}

impl<T: FieldElement> EllipticCurvePoint<T> {
    /// The reflection of a point in the `x` axis: the same `x`, the negated
    /// `y`. The point at infinity is its own reflection.
    pub open spec fn negation(self) -> Self {
        match self {
            Self::Zero { a, b } => Self::Zero { a, b },
            Self::NonZero { x, y, a, b } => Self::NonZero { x, y: y.neg_spec(), a, b },
        }
    }

    /// Sums of multiples of `self` can be regrouped: `p + (i·p + j·p)` is
    /// `(p + i·p) + j·p`.
    pub open spec fn associative_on_multiples(self) -> bool {
        forall|i: nat, j: nat|
            self.add_spec(#[trigger] self.scalar_mul_spec(i).add_spec(self.scalar_mul_spec(j)))
                == self.add_spec(self.scalar_mul_spec(i)).add_spec(self.scalar_mul_spec(j))
    }

    /// Every multiple of a point is on the curve of that point.
    pub proof fn lemma_multiple_coefficients(self, k: nat)
        ensures
            self.scalar_mul_spec(k).coefficients() == self.coefficients(),
        decreases k,
    {
        if k > 0 {
            self.lemma_multiple_coefficients((k - 1) as nat);
        }
    }
}

/// The point at infinity is the identity of the group: added to a point of
/// its curve on either side, it gives that point.
pub proof fn lemma_identity_law<T: FieldElement>(zero: EllipticCurvePoint<T>, p: EllipticCurvePoint<T>)
    requires
        zero is Zero,
        zero.coefficients() == p.coefficients(),
    ensures
        zero.add_spec(p) == p,
        p.add_spec(zero) == p,
{
}

/// A point and its reflection add up to the point at infinity, in every
/// field where an element plus its negation is that element minus itself.
pub proof fn lemma_add_negation<T: FieldElement>(p: EllipticCurvePoint<T>)
    requires
        p matches EllipticCurvePoint::NonZero { y, .. } ==> y.add_spec(y.neg_spec()) == y.sub_spec(y),
    ensures
        p.add_spec(p.negation()) == p.identity(),
{
}

/// Up to the multiple 3, double-and-add performs the sums of the definition
/// and gives the same point, whatever the field.
pub proof fn lemma_double_and_add_up_to_three<T: FieldElement>(p: EllipticCurvePoint<T>, k: nat)
    requires
        k <= 3,
    ensures
        p.double_and_add_spec(k) == p.scalar_mul_spec(k),
{
    reveal_with_fuel(EllipticCurvePoint::double_and_add_spec, 3);
    reveal_with_fuel(EllipticCurvePoint::scalar_mul_spec, 4);
    lemma_identity_law(p.identity(), p);
}

/// Where sums of multiples regroup, the sum of two multiples is the
/// multiple by the sum: `i·p + j·p = (i + j)·p`.
pub proof fn lemma_multiples_add<T: FieldElement>(p: EllipticCurvePoint<T>, i: nat, j: nat)
    requires
        p.associative_on_multiples(),
    ensures
        p.scalar_mul_spec(i).add_spec(p.scalar_mul_spec(j)) == p.scalar_mul_spec(i + j),
    decreases i,
{
    if i == 0 {
        p.lemma_multiple_coefficients(j);
        lemma_identity_law(p.identity(), p.scalar_mul_spec(j));
    } else {
        let before = (i - 1) as nat;
        lemma_multiples_add(p, before, j);
        assert(p.add_spec(p.scalar_mul_spec(before).add_spec(p.scalar_mul_spec(j))) == p.add_spec(
            p.scalar_mul_spec(before),
        ).add_spec(p.scalar_mul_spec(j)));
        assert(p.scalar_mul_spec(i + j) == p.add_spec(p.scalar_mul_spec(before + j)));
    }
}

/// Where sums of multiples regroup, double-and-add gives the multiple of
/// the definition, for every `k`.
pub proof fn lemma_double_and_add_is_repeated_add<T: FieldElement>(p: EllipticCurvePoint<T>, k: nat)
    requires
        p.associative_on_multiples(),
    ensures
        p.double_and_add_spec(k) == p.scalar_mul_spec(k),
    decreases k,
{
    if k > 0 {
        let h = k / 2;
        lemma_double_and_add_is_repeated_add(p, h);
        lemma_multiples_add(p, h, h);
        if k % 2 == 1 {
            assert(p.scalar_mul_spec(k) == p.add_spec(p.scalar_mul_spec((k - 1) as nat)));
        }
    }
}

} // verus!
