//! The algebra behind the group law, over the integers modulo a prime.
//!
//! A line `y = s·x + c` meets the curve `y² = x³ + a·x + b` where the cubic
//! `x³ + a·x + b - (s·x + c)²` vanishes. The chord through two points of the
//! curve and the tangent at one point give two roots of that cubic; the third
//! root is `s² - x₁ - x₂`. This is why the point that the group law
//! constructs lies on the curve again, and it is proved here for integers
//! taken modulo a prime `p`, where "vanishes" reads "is a multiple of `p`".

use crate::number_theory::is_prime;
use crate::number_theory::lemma_prime_divides_factor;
use vstd::arithmetic::div_mod::*;
use vstd::prelude::*;

verus! {

/// How far `(x, y)` is from satisfying the curve equation:
/// `y² - (x³ + a·x + b)`. The point is on the curve modulo `p` when this is
/// a multiple of `p`.
pub open spec fn curve_residual(x: int, y: int, a: int, b: int) -> int {
    y * y - (x * x * x + a * x + b)
}

/// The cubic whose roots are the abscissas of the points where the line
/// `y = s·x + c` meets the curve.
spec fn line_cubic(x: int, s: int, c: int, a: int, b: int) -> int {
    x * x * x + a * x + b - (s * x + c) * (s * x + c)
}

/// The coefficient of `x` in what is left of `line_cubic` after the product
/// `(x - x1)·(x - x2)·(x - x3)` is taken out.
spec fn rest_slope(x1: int, x2: int, x3: int, s: int, c: int, a: int) -> int {
    (a - 2 * s * c) - (x1 * x2 + x1 * x3 + x2 * x3)
}

/// The constant term of what is left of `line_cubic` after the product
/// `(x - x1)·(x - x2)·(x - x3)` is taken out.
spec fn rest_constant(x1: int, x2: int, x3: int, c: int, b: int) -> int {
    (b - c * c) + x1 * x2 * x3
}

/// Sums and differences of multiples of `p` are multiples of `p`.
proof fn lemma_multiples_sum(u: int, v: int, p: int)
    requires
        p > 0,
        u % p == 0,
        v % p == 0,
    ensures
        (u + v) % p == 0,
        (u - v) % p == 0,
{
    lemma_add_mod_noop(u, v, p);
    lemma_sub_mod_noop(u, v, p);
    lemma_small_mod(0, p as nat);
}

/// A multiple of `p` times anything is a multiple of `p`.
proof fn lemma_multiple_scaled(u: int, w: int, p: int)
    requires
        p > 0,
        u % p == 0,
    ensures
        (u * w) % p == 0,
        (w * u) % p == 0,
{
    lemma_mul_mod_noop_left(u, w, p);
    lemma_mul_mod_noop_right(w, u, p);
    lemma_small_mod(0, p as nat);
    assert(0 * w == 0 && w * 0 == 0) by (nonlinear_arith);
}

/// The square of `s·x + c`, written out.
proof fn lemma_line_square(s: int, x: int, c: int)
    by (nonlinear_arith)
    ensures
        (s * x + c) * (s * x + c) == (s * s) * (x * x) + 2 * (s * c) * x + c * c,
{
}

/// The product `(x - x1)·(x - x2)`, written out.
proof fn lemma_two_factors(x: int, x1: int, x2: int)
    by (nonlinear_arith)
    ensures
        (x - x1) * (x - x2) == x * x - (x1 + x2) * x + x1 * x2,
{
}

/// A quadratic `x² - t·x + u` times `(x - x3)`, written out.
proof fn lemma_third_factor(x: int, t: int, u: int, x3: int)
    by (nonlinear_arith)
    ensures
        (x * x - t * x + u) * (x - x3) == x * x * x - (t + x3) * (x * x) + (u + t * x3) * x - u
            * x3,
{
}

/// The terms of the division of the line cubic, collected. Each product of
/// the statement stands for itself here.
proof fn lemma_collect_terms(
    x: int,
    a: int,
    b: int,
    square: int,
    cube: int,
    ss: int,
    sc: int,
    cc: int,
    sum: int,
    pairs: int,
    triple: int,
)
    by (nonlinear_arith)
    ensures
        cube + a * x + b - (ss * square + 2 * sc * x + cc) == (cube - sum * square + pairs * x
            - triple) + ((a - 2 * sc) - pairs) * x + ((b - cc) + triple) + (sum - ss) * square,
{
}

/// Division of the line cubic by `(x - x1)·(x - x2)·(x - x3)`: the rest is
/// linear in `x` but for a term that vanishes when `x1 + x2 + x3 = s²`.
proof fn lemma_cubic_division(
    x: int,
    x1: int,
    x2: int,
    x3: int,
    s: int,
    c: int,
    a: int,
    b: int,
)
    ensures
        line_cubic(x, s, c, a, b) == (x - x1) * (x - x2) * (x - x3) + rest_slope(
            x1,
            x2,
            x3,
            s,
            c,
            a,
        ) * x + rest_constant(x1, x2, x3, c, b) + (x1 + x2 + x3 - s * s) * (x * x),
{
    let pairs = x1 * x2 + x1 * x3 + x2 * x3;
    let triple = x1 * x2 * x3;
    lemma_line_square(s, x, c);
    lemma_two_factors(x, x1, x2);
    lemma_third_factor(x, x1 + x2, x1 * x2, x3);
    assert(x1 * x2 + (x1 + x2) * x3 == pairs) by (nonlinear_arith)
        requires
            pairs == x1 * x2 + x1 * x3 + x2 * x3,
    ;
    assert(2 * s * c == 2 * (s * c)) by (nonlinear_arith);
    lemma_collect_terms(
        x,
        a,
        b,
        x * x,
        x * x * x,
        s * s,
        s * c,
        c * c,
        x1 + x2 + x3,
        pairs,
        triple,
    );
}

/// At one of the three abscissas of the division, the line cubic is its
/// linear rest.
proof fn lemma_cubic_at_root(x1: int, x2: int, s: int, c: int, a: int, b: int)
    ensures
        ({
            let x3 = s * s - x1 - x2;
            let slope = rest_slope(x1, x2, x3, s, c, a);
            let constant = rest_constant(x1, x2, x3, c, b);
            &&& line_cubic(x1, s, c, a, b) == slope * x1 + constant
            &&& line_cubic(x2, s, c, a, b) == slope * x2 + constant
            &&& line_cubic(x3, s, c, a, b) == slope * x3 + constant
        }),
{
    let x3 = s * s - x1 - x2;
    lemma_cubic_division(x1, x1, x2, x3, s, c, a, b);
    lemma_cubic_division(x2, x1, x2, x3, s, c, a, b);
    lemma_cubic_division(x3, x1, x2, x3, s, c, a, b);
    assert((x1 - x1) * (x1 - x2) * (x1 - x3) == 0) by (nonlinear_arith);
    assert((x2 - x1) * (x2 - x2) * (x2 - x3) == 0) by (nonlinear_arith);
    assert((x3 - x1) * (x3 - x2) * (x3 - x3) == 0) by (nonlinear_arith);
    assert((x1 + x2 + x3 - s * s) * (x1 * x1) == 0 && (x1 + x2 + x3 - s * s) * (x2 * x2) == 0
        && (x1 + x2 + x3 - s * s) * (x3 * x3) == 0) by (nonlinear_arith)
        requires
            x1 + x2 + x3 - s * s == 0,
    ;
}

/// On the line through `(x1, y1)` with the slope `s`, the line cubic at `x`
/// is the curve residual of the point of the line above `x`, negated; the
/// reflected point `(x, -y)` has the same residual.
proof fn lemma_cubic_is_residual(x: int, x1: int, y1: int, s: int, a: int, b: int)
    ensures
        line_cubic(x, s, y1 - s * x1, a, b) == -curve_residual(x, s * (x1 - x) - y1, a, b),
{
    let c = y1 - s * x1;
    let y = s * (x1 - x) - y1;
    assert(s * x + c == -y) by (nonlinear_arith)
        requires
            c == y1 - s * x1,
            y == s * (x1 - x) - y1,
    ;
    assert((s * x + c) * (s * x + c) == y * y) by (nonlinear_arith)
        requires
            s * x + c == -y,
    ;
}

/// If the linear rest of the line cubic vanishes modulo `p` at `x1` and its
/// slope vanishes modulo `p`, the third point of the line is on the curve.
proof fn lemma_third_point_is_root(
    p: int,
    x1: int,
    y1: int,
    x2: int,
    s: int,
    a: int,
    b: int,
)
    requires
        p > 0,
        curve_residual(x1, y1, a, b) % p == 0,
        rest_slope(x1, x2, s * s - x1 - x2, s, y1 - s * x1, a) % p == 0,
    ensures
        ({
            let x3 = s * s - x1 - x2;
            curve_residual(x3, s * (x1 - x3) - y1, a, b) % p == 0
        }),
{
    let c = y1 - s * x1;
    let x3 = s * s - x1 - x2;
    let slope = rest_slope(x1, x2, x3, s, c, a);
    let constant = rest_constant(x1, x2, x3, c, b);
    lemma_cubic_at_root(x1, x2, s, c, a, b);
    lemma_cubic_is_residual(x1, x1, y1, s, a, b);
    assert(s * (x1 - x1) - y1 == -y1) by (nonlinear_arith);
    assert((-y1) * (-y1) == y1 * y1) by (nonlinear_arith);
    assert(line_cubic(x1, s, c, a, b) == -curve_residual(x1, y1, a, b));
    lemma_small_mod(0, p as nat);
    lemma_multiples_sum(0, curve_residual(x1, y1, a, b), p);
    assert((slope * x1 + constant) % p == 0);
    lemma_multiple_scaled(slope, x1, p);
    lemma_multiples_sum(slope * x1 + constant, slope * x1, p);
    assert(constant % p == 0);
    lemma_multiple_scaled(slope, x3, p);
    lemma_multiples_sum(slope * x3, constant, p);
    lemma_cubic_is_residual(x3, x1, y1, s, a, b);
    lemma_multiples_sum(0, line_cubic(x3, s, c, a, b), p);
}

/// The chord construction stays on the curve: if `(x1, y1)` and `(x2, y2)`
/// are on the curve modulo the prime `p`, their abscissas differ modulo `p`,
/// and `s` is the slope of the line through them, then the point
/// `(s² - x1 - x2, s·(x1 - x3) - y1)` is on the curve modulo `p`.
pub proof fn lemma_chord_stays_on_curve(
    p: int,
    a: int,
    b: int,
    x1: int,
    y1: int,
    x2: int,
    y2: int,
    s: int,
)
    requires
        is_prime(p),
        curve_residual(x1, y1, a, b) % p == 0,
        curve_residual(x2, y2, a, b) % p == 0,
        (x2 - x1) % p != 0,
        (s * (x2 - x1) - (y2 - y1)) % p == 0,
    ensures
        ({
            let x3 = s * s - x1 - x2;
            curve_residual(x3, s * (x1 - x3) - y1, a, b) % p == 0
        }),
{
    let c = y1 - s * x1;
    let x3 = s * s - x1 - x2;
    let slope = rest_slope(x1, x2, x3, s, c, a);
    let constant = rest_constant(x1, x2, x3, c, b);
    let gap = s * (x2 - x1) - (y2 - y1);
    lemma_small_mod(0, p as nat);
    lemma_cubic_at_root(x1, x2, s, c, a, b);
    // At x1 the line passes through (x1, y1).
    lemma_cubic_is_residual(x1, x1, y1, s, a, b);
    assert(s * (x1 - x1) - y1 == -y1) by (nonlinear_arith);
    assert((-y1) * (-y1) == y1 * y1) by (nonlinear_arith);
    lemma_multiples_sum(0, curve_residual(x1, y1, a, b), p);
    assert((slope * x1 + constant) % p == 0);
    // At x2 the line passes through (x2, y2), up to the multiple `gap` of p.
    assert(s * x2 + c == y2 + gap) by (nonlinear_arith)
        requires
            c == y1 - s * x1,
            gap == s * (x2 - x1) - (y2 - y1),
    ;
    assert((s * x2 + c) * (s * x2 + c) == y2 * y2 + gap * (2 * y2 + gap)) by (nonlinear_arith)
        requires
            s * x2 + c == y2 + gap,
    ;
    assert(line_cubic(x2, s, c, a, b) == 0 - curve_residual(x2, y2, a, b) - gap * (2 * y2 + gap));
    lemma_multiple_scaled(gap, 2 * y2 + gap, p);
    lemma_multiples_sum(0, curve_residual(x2, y2, a, b), p);
    lemma_multiples_sum(0 - curve_residual(x2, y2, a, b), gap * (2 * y2 + gap), p);
    assert((slope * x2 + constant) % p == 0);
    // The slope of the rest vanishes because the two abscissas differ.
    lemma_multiples_sum(slope * x2 + constant, slope * x1 + constant, p);
    assert(slope * (x2 - x1) == (slope * x2 + constant) - (slope * x1 + constant))
        by (nonlinear_arith);
    lemma_prime_divides_factor(p, slope, x2 - x1);
    lemma_third_point_is_root(p, x1, y1, x2, s, a, b);
}

/// The slope of the linear rest, for a line that meets the curve twice at
/// `x1`, is the difference that makes `s` the slope of the tangent.
proof fn lemma_tangent_rest_slope(x1: int, y1: int, s: int, a: int)
    ensures
        rest_slope(x1, x1, s * s - x1 - x1, s, y1 - s * x1, a) == (x1 * x1 + x1 * x1 + x1 * x1
            + a) - s * (y1 + y1),
{
    let ss = s * s;
    let sx = s * x1;
    assert(x1 * (ss - x1 - x1) == ss * x1 - x1 * x1 - x1 * x1) by (nonlinear_arith);
    assert(2 * s * (y1 - sx) == s * (y1 + y1) - 2 * (ss * x1)) by (nonlinear_arith)
        requires
            ss == s * s,
            sx == s * x1,
    ;
}

/// The tangent construction stays on the curve: if `(x1, y1)` is on the
/// curve modulo `p` and `s` is the slope of the tangent there, that is
/// `s·2·y1 = 3·x1² + a` modulo `p`, then the point
/// `(s² - 2·x1, s·(x1 - x3) - y1)` is on the curve modulo `p`.
pub proof fn lemma_tangent_stays_on_curve(p: int, a: int, b: int, x1: int, y1: int, s: int)
    requires
        p > 0,
        curve_residual(x1, y1, a, b) % p == 0,
        (s * (y1 + y1) - (x1 * x1 + x1 * x1 + x1 * x1 + a)) % p == 0,
    ensures
        ({
            let x3 = s * s - x1 - x1;
            curve_residual(x3, s * (x1 - x3) - y1, a, b) % p == 0
        }),
{
    lemma_tangent_rest_slope(x1, y1, s, a);
    lemma_small_mod(0, p as nat);
    lemma_multiples_sum(0, s * (y1 + y1) - (x1 * x1 + x1 * x1 + x1 * x1 + a), p);
    lemma_third_point_is_root(p, x1, y1, x1, s, a, b);
}

/// The curve residual of congruent points is congruent: whether a point is
/// on the curve modulo `p` depends on the residues of its coordinates and
/// of the coefficients only.
pub proof fn lemma_residual_of_residues(p: int, x: int, y: int, a: int, b: int)
    requires
        p > 0,
    ensures
        curve_residual(x % p, y % p, a % p, b % p) % p == curve_residual(x, y, a, b) % p,
{
    lemma_mul_mod_noop(y, y, p);
    lemma_mul_mod_noop(x, x, p);
    lemma_mul_mod_noop_general((x % p) * (x % p), x, p);
    lemma_mul_mod_noop_general(x * x, x, p);
    lemma_mul_mod_noop(a, x, p);
    let cube = x * x * x;
    let cube_r = (x % p) * (x % p) * (x % p);
    let line = a * x;
    let line_r = (a % p) * (x % p);
    assert(cube_r % p == cube % p);
    assert(line_r % p == line % p);
    lemma_add_mod_noop(cube_r, line_r, p);
    lemma_add_mod_noop(cube, line, p);
    lemma_add_mod_noop(cube_r + line_r, b % p, p);
    lemma_add_mod_noop(cube + line, b, p);
    lemma_mod_twice(b, p);
    lemma_sub_mod_noop((y % p) * (y % p), cube_r + line_r + b % p, p);
    lemma_sub_mod_noop(y * y, cube + line + b, p);
}

} // verus!
