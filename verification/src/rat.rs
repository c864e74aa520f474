//! Exact rational scalars.
//!
//! Every coordinate, angle and ray parameter in this crate is a `Rat`: an
//! `i128` numerator over a positive `i128` denominator. Results of the
//! arithmetic are kept unreduced, so each operation's postcondition states
//! the exact numerator and denominator of its result; value-level facts
//! (equality, ordering) are phrased through the spec-level `Frac` model,
//! which carries unbounded integers.

use vstd::prelude::*;
use vstd::arithmetic::div_mod::{
    lemma_fundamental_div_mod, lemma_mod_division_less_than_divisor, lemma_div_pos_is_pos,
    lemma_div_nonincreasing, lemma_div_is_ordered, lemma_div_multiples_vanish,
};
use vstd::arithmetic::mul::{
    lemma_mul_is_associative, lemma_mul_is_commutative, lemma_mul_is_distributive_add_other_way,
};

verus! {

/// Spec-level model of a rational number: a numerator and a positive
/// denominator, both mathematical integers.
pub ghost struct Frac {
    pub n: int,
    pub d: int,
}

pub open spec fn frac_wf(a: Frac) -> bool {
    a.d >= 1
}

/// `a` and `b` denote the same rational value.
pub open spec fn frac_eq(a: Frac, b: Frac) -> bool {
    a.n * b.d == b.n * a.d
}

/// `a <= b` as rational values (denominators positive).
pub open spec fn frac_le(a: Frac, b: Frac) -> bool {
    a.n * b.d <= b.n * a.d
}

/// `a < b` as rational values.
pub open spec fn frac_lt(a: Frac, b: Frac) -> bool {
    a.n * b.d < b.n * a.d
}

pub open spec fn frac_add(a: Frac, b: Frac) -> Frac {
    Frac { n: a.n * b.d + b.n * a.d, d: a.d * b.d }
}

pub open spec fn frac_sub(a: Frac, b: Frac) -> Frac {
    Frac { n: a.n * b.d - b.n * a.d, d: a.d * b.d }
}

pub open spec fn frac_mul(a: Frac, b: Frac) -> Frac {
    Frac { n: a.n * b.n, d: a.d * b.d }
}

/// `a / b`, defined for `b.n != 0`; the sign moves into the numerator so
/// the denominator stays positive.
pub open spec fn frac_div(a: Frac, b: Frac) -> Frac {
    if b.n >= 0 {
        Frac { n: a.n * b.d, d: a.d * b.n }
    } else {
        Frac { n: -(a.n * b.d), d: a.d * -b.n }
    }
}

pub open spec fn frac_neg(a: Frac) -> Frac {
    Frac { n: -a.n, d: a.d }
}

pub open spec fn frac_min(a: Frac, b: Frac) -> Frac {
    if frac_le(a, b) {
        a
    } else {
        b
    }
}

pub open spec fn frac_max(a: Frac, b: Frac) -> Frac {
    if frac_le(a, b) {
        b
    } else {
        a
    }
}

/// The integer rational `i/1`.
pub open spec fn frac_int(i: int) -> Frac {
    Frac { n: i, d: 1 }
}

/// Floor of a rational value (`/` on `int` is Euclidean division, which
/// rounds toward negative infinity for a positive denominator).
pub open spec fn frac_floor(a: Frac) -> int {
    a.n / a.d
}

/// `a` bounded componentwise: numerator within `±n`, denominator within
/// `[1, d]`. The geometry functions use this to keep every intermediate
/// product inside the `i128` range.
pub open spec fn frac_bounded(a: Frac, n: int, d: int) -> bool {
    &&& -n <= a.n <= n
    &&& 1 <= a.d <= d
}

/// An exact rational scalar: `num / den` with `den >= 1`.
#[derive(Clone, Copy, Debug)]
pub struct Rat {
    pub num: i128,
    pub den: i128,
}

impl View for Rat {
    type V = Frac;

    open spec fn view(&self) -> Frac {
        Frac { n: self.num as int, d: self.den as int }
    }
}

impl Rat {
    pub open spec fn wf(self) -> bool {
        self.den >= 1
    }

    /// Componentwise bound, lifted from the spec model.
    pub open spec fn bounded(self, n: int, d: int) -> bool {
        frac_bounded(self@, n, d)
    }

    pub fn new(num: i128, den: i128) -> (r: Rat)
        requires
            den >= 1,
        ensures
            r.wf(),
            r@ == (Frac { n: num as int, d: den as int }),
    {
        Rat { num, den }
    }

    pub fn from_int(i: i128) -> (r: Rat)
        ensures
            r.wf(),
            r@ == frac_int(i as int),
    {
        Rat { num: i, den: 1 }
    }

    pub fn zero() -> (r: Rat)
        ensures
            r.wf(),
            r@ == frac_int(0),
    {
        Rat { num: 0, den: 1 }
    }

    pub fn add(&self, b: &Rat) -> (r: Rat)
        requires
            self.wf(),
            b.wf(),
            fits_i128(self@.n * b@.d),
            fits_i128(b@.n * self@.d),
            fits_i128(self@.n * b@.d + b@.n * self@.d),
            fits_i128(self@.d * b@.d),
        ensures
            r.wf(),
            r@ == frac_add(self@, b@),
    {
        proof {
            lemma_den_product(self@.d, b@.d);
        }
        Rat { num: self.num * b.den + b.num * self.den, den: self.den * b.den }
    }

    pub fn sub(&self, b: &Rat) -> (r: Rat)
        requires
            self.wf(),
            b.wf(),
            fits_i128(self@.n * b@.d),
            fits_i128(b@.n * self@.d),
            fits_i128(self@.n * b@.d - b@.n * self@.d),
            fits_i128(self@.d * b@.d),
        ensures
            r.wf(),
            r@ == frac_sub(self@, b@),
    {
        proof {
            lemma_den_product(self@.d, b@.d);
        }
        Rat { num: self.num * b.den - b.num * self.den, den: self.den * b.den }
    }

    pub fn mul(&self, b: &Rat) -> (r: Rat)
        requires
            self.wf(),
            b.wf(),
            fits_i128(self@.n * b@.n),
            fits_i128(self@.d * b@.d),
        ensures
            r.wf(),
            r@ == frac_mul(self@, b@),
    {
        proof {
            lemma_den_product(self@.d, b@.d);
        }
        Rat { num: self.num * b.num, den: self.den * b.den }
    }

    pub fn div(&self, b: &Rat) -> (r: Rat)
        requires
            self.wf(),
            b.wf(),
            b@.n != 0,
            fits_i128(self@.n * b@.d),
            fits_i128(-(self@.n * b@.d)),
            fits_i128(self@.d * b@.n),
            fits_i128(self@.d * -b@.n),
        ensures
            r.wf(),
            r@ == frac_div(self@, b@),
    {
        if b.num >= 0 {
            proof {
                lemma_den_product(self@.d, b@.n);
            }
            Rat { num: self.num * b.den, den: self.den * b.num }
        } else {
            proof {
                lemma_den_product(self@.d, -b@.n);
            }
            Rat { num: -(self.num * b.den), den: self.den * -b.num }
        }
    }

    pub fn neg(&self) -> (r: Rat)
        requires
            self.wf(),
            fits_i128(-self@.n),
        ensures
            r.wf(),
            r@ == frac_neg(self@),
    {
        Rat { num: -self.num, den: self.den }
    }

    /// `self <= b` as rational values.
    pub fn le(&self, b: &Rat) -> (r: bool)
        requires
            self.wf(),
            b.wf(),
            fits_i128(self@.n * b@.d),
            fits_i128(b@.n * self@.d),
        ensures
            r == frac_le(self@, b@),
    {
        self.num * b.den <= b.num * self.den
    }

    /// `self < b` as rational values.
    pub fn lt(&self, b: &Rat) -> (r: bool)
        requires
            self.wf(),
            b.wf(),
            fits_i128(self@.n * b@.d),
            fits_i128(b@.n * self@.d),
        ensures
            r == frac_lt(self@, b@),
    {
        self.num * b.den < b.num * self.den
    }

    /// `self` and `b` denote the same rational value (the representations
    /// may differ).
    pub fn equals(&self, b: &Rat) -> (r: bool)
        requires
            self.wf(),
            b.wf(),
            fits_i128(self@.n * b@.d),
            fits_i128(b@.n * self@.d),
        ensures
            r == frac_eq(self@, b@),
    {
        self.num * b.den == b.num * self.den
    }

    /// The smaller of the two values; the result is one of the inputs,
    /// representation included.
    pub fn min(&self, b: &Rat) -> (r: Rat)
        requires
            self.wf(),
            b.wf(),
            fits_i128(self@.n * b@.d),
            fits_i128(b@.n * self@.d),
        ensures
            r.wf(),
            r@ == frac_min(self@, b@),
    {
        if self.le(b) {
            *self
        } else {
            *b
        }
    }

    /// The larger of the two values; the result is one of the inputs,
    /// representation included.
    pub fn max(&self, b: &Rat) -> (r: Rat)
        requires
            self.wf(),
            b.wf(),
            fits_i128(self@.n * b@.d),
            fits_i128(b@.n * self@.d),
        ensures
            r.wf(),
            r@ == frac_max(self@, b@),
    {
        if self.le(b) {
            *b
        } else {
            *self
        }
    }
}

/// `a` clamped into the closed interval `[lo, hi]`.
pub open spec fn frac_clamp(a: Frac, lo: Frac, hi: Frac) -> Frac {
    frac_min(frac_max(a, lo), hi)
}

/// Rounding `a` down to the grid of rationals with denominator `g`.
pub open spec fn frac_snap(a: Frac, g: int) -> Frac {
    Frac { n: (a.n * g) / a.d, d: g }
}

impl Rat {
    /// Floor of the value, as an integer.
    pub fn floor(&self) -> (r: i128)
        requires
            self.wf(),
        ensures
            r == frac_floor(self@),
    {
        proof {
            lemma_floor_range(self@.n, self@.d);
        }
        self.num.checked_div_euclid(self.den).unwrap()
    }

    /// Runtime check of the componentwise bound, for validating values
    /// that arrive from outside the verified core.
    pub fn check_bounded(&self, n: i128, d: i128) -> (b: bool)
        requires
            n >= 0,
        ensures
            b == self.bounded(n as int, d as int),
    {
        -n <= self.num && self.num <= n && 1 <= self.den && self.den <= d
    }

    /// The value rounded down to the grid of rationals with denominator
    /// `g`; the result's denominator is exactly `g`.
    pub fn snap(&self, g: i128) -> (r: Rat)
        requires
            self.wf(),
            g >= 1,
            fits_i128(self@.n * g),
        ensures
            r.wf(),
            r@ == frac_snap(self@, g as int),
            r@.d == g,
    {
        let scaled = Rat { num: self.num * g, den: self.den };
        proof {
            lemma_floor_range(scaled@.n, scaled@.d);
        }
        let q = scaled.floor();
        Rat { num: q, den: g }
    }
}

/// The floor of `n / d` lies between `n` and 0 (on the side of `n`'s sign),
/// so it always fits wherever `n` does.
pub proof fn lemma_floor_range(n: int, d: int)
    requires
        d >= 1,
    ensures
        n >= 0 ==> 0 <= n / d <= n,
        n < 0 ==> n <= n / d <= 0,
{
    lemma_fundamental_div_mod(n, d);
    lemma_mod_division_less_than_divisor(n, d);
    let q = n / d;
    let r = n % d;
    if n >= 0 {
        lemma_div_pos_is_pos(n, d);
        lemma_div_nonincreasing(n, d);
    } else {
        assert(q <= 0 && n <= q) by (nonlinear_arith)
            requires
                n == d * q + r,
                0 <= r < d,
                d >= 1,
                n < 0,
        {
        }
    }
}

/// The floor of a rational value lies at most the value, and the value
/// lies strictly below the next integer.
pub proof fn lemma_floor_props(a: Frac)
    requires
        frac_wf(a),
    ensures
        frac_le(frac_int(frac_floor(a)), a),
        frac_lt(a, frac_int(frac_floor(a) + 1)),
{
    lemma_fundamental_div_mod(a.n, a.d);
    lemma_mod_division_less_than_divisor(a.n, a.d);
    let q = a.n / a.d;
    let r = a.n % a.d;
    assert(q * a.d <= a.n && a.n < (q + 1) * a.d) by (nonlinear_arith)
        requires
            a.n == a.d * q + r,
            0 <= r < a.d,
            a.d >= 1,
    {
    }
}

/// A value at least the integer `lo` snaps to a grid numerator of at
/// least `lo * g`.
pub proof fn lemma_snap_lower(a: Frac, lo: int, g: int)
    requires
        frac_wf(a),
        g >= 1,
        frac_le(frac_int(lo), a),
    ensures
        lo * g <= frac_snap(a, g).n,
        frac_snap(a, g).d == g,
{
    let m = a.n * g;
    assert(a.d * (lo * g) <= m) by (nonlinear_arith)
        requires
            lo * a.d <= a.n,
            g >= 1,
            a.d >= 1,
            m == a.n * g,
    {
    }
    lemma_div_multiples_vanish(lo * g, a.d);
    lemma_div_is_ordered(a.d * (lo * g), m, a.d);
}

/// A value at most the integer `hi` snaps to a grid numerator of at most
/// `hi * g`.
pub proof fn lemma_snap_upper(a: Frac, hi: int, g: int)
    requires
        frac_wf(a),
        g >= 1,
        frac_le(a, frac_int(hi)),
    ensures
        frac_snap(a, g).n <= hi * g,
        frac_snap(a, g).d == g,
{
    let m = a.n * g;
    assert(m <= a.d * (hi * g)) by (nonlinear_arith)
        requires
            a.n <= hi * a.d,
            g >= 1,
            a.d >= 1,
            m == a.n * g,
    {
    }
    lemma_div_multiples_vanish(hi * g, a.d);
    lemma_div_is_ordered(m, a.d * (hi * g), a.d);
}

/// A value within `[lo, hi]` snaps to a grid numerator within
/// `[lo * g, hi * g]`.
pub proof fn lemma_snap_range(a: Frac, lo: int, hi: int, g: int)
    requires
        frac_wf(a),
        g >= 1,
        frac_le(frac_int(lo), a),
        frac_le(a, frac_int(hi)),
    ensures
        lo * g <= frac_snap(a, g).n <= hi * g,
        frac_snap(a, g).d == g,
{
    lemma_snap_lower(a, lo, g);
    lemma_snap_upper(a, hi, g);
}

/// Value equality of rationals is transitive.
pub proof fn lemma_frac_eq_trans(a: Frac, b: Frac, c: Frac)
    by (nonlinear_arith)
    requires
        frac_wf(a),
        frac_wf(b),
        frac_wf(c),
        frac_eq(a, b),
        frac_eq(b, c),
    ensures
        frac_eq(a, c),
{
}

/// A fraction whose components are a common multiple of another's
/// denotes the same value.
pub proof fn lemma_frac_eq_scaled(x: Frac, y: Frac, k: int)
    by (nonlinear_arith)
    requires
        frac_wf(x),
        frac_wf(y),
        k >= 1,
        x.n == k * y.n || x.n == y.n * k,
        x.d == k * y.d || x.d == y.d * k,
    ensures
        frac_eq(x, y),
{
}

/// Rearranging a product of four factors: `(p*q)*(r*s) == (p*r)*(q*s)`.
pub proof fn lemma_four_shuffle(p: int, q: int, r: int, s: int)
    ensures
        (p * q) * (r * s) == (p * r) * (q * s),
{
    lemma_mul_is_associative(p, q, r * s);
    lemma_mul_is_associative(q, r, s);
    lemma_mul_is_commutative(q, r);
    lemma_mul_is_associative(r, q, s);
    lemma_mul_is_associative(p, r, q * s);
}

/// Adding equal values to a common value gives equal values.
pub proof fn lemma_frac_add_congr(a: Frac, x: Frac, y: Frac)
    requires
        frac_wf(a),
        frac_wf(x),
        frac_wf(y),
        frac_eq(x, y),
    ensures
        frac_eq(frac_add(a, x), frac_add(a, y)),
        frac_eq(frac_add(x, a), frac_add(y, a)),
{
    lemma_mul_is_distributive_add_other_way(a.d * y.d, a.n * x.d, x.n * a.d);
    lemma_mul_is_distributive_add_other_way(a.d * x.d, a.n * y.d, y.n * a.d);
    lemma_four_shuffle(a.n, x.d, a.d, y.d);
    lemma_four_shuffle(a.n, y.d, a.d, x.d);
    lemma_mul_is_commutative(x.d, y.d);
    lemma_mul_is_commutative(y.d, x.d);
    lemma_four_shuffle(a.n, a.d, y.d, x.d);
    lemma_four_shuffle(a.n, a.d, x.d, y.d);
    lemma_mul_is_commutative(a.d, y.d);
    lemma_mul_is_commutative(a.d, x.d);
    lemma_four_shuffle(x.n, a.d, y.d, a.d);
    lemma_four_shuffle(y.n, a.d, x.d, a.d);
    lemma_four_shuffle(x.n, y.d, a.d, a.d);
    lemma_four_shuffle(y.n, x.d, a.d, a.d);
    assert((x.n * y.d) * (a.d * a.d) == (y.n * x.d) * (a.d * a.d));
    assert(frac_eq(frac_add(a, x), frac_add(a, y)));
    lemma_mul_is_commutative(x.n, a.d);
    lemma_mul_is_commutative(y.n, a.d);
    lemma_mul_is_commutative(a.n, x.d);
    lemma_mul_is_commutative(a.n, y.d);
    lemma_mul_is_commutative(x.d, a.d);
    lemma_mul_is_commutative(y.d, a.d);
    assert(frac_add(x, a) == frac_add(a, x));
    assert(frac_add(y, a) == frac_add(a, y));
}

/// Multiplying equal values by a common value gives equal values.
pub proof fn lemma_frac_mul_congr(a: Frac, x: Frac, y: Frac)
    requires
        frac_wf(a),
        frac_wf(x),
        frac_wf(y),
        frac_eq(x, y),
    ensures
        frac_eq(frac_mul(a, x), frac_mul(a, y)),
        frac_eq(frac_mul(x, a), frac_mul(y, a)),
{
    lemma_four_shuffle(a.n, x.n, a.d, y.d);
    lemma_mul_is_commutative(x.n, a.d);
    lemma_four_shuffle(a.n, a.d, x.n, y.d);
    lemma_four_shuffle(a.n, a.d, y.n, x.d);
    lemma_four_shuffle(a.n, y.n, a.d, x.d);
    assert((a.n * a.d) * (x.n * y.d) == (a.n * a.d) * (y.n * x.d));
    assert((a.n * x.n) * (a.d * y.d) == (a.n * a.d) * (x.n * y.d)) by {
        lemma_four_shuffle(a.n, x.n, a.d, y.d);
        lemma_mul_is_commutative(x.n, a.d);
        lemma_mul_is_commutative(a.d, x.n);
        lemma_four_shuffle(a.n, a.d, x.n, y.d);
    }
    assert((a.n * y.n) * (a.d * x.d) == (a.n * a.d) * (y.n * x.d)) by {
        lemma_four_shuffle(a.n, a.d, y.n, x.d);
    }
    assert(frac_eq(frac_mul(a, x), frac_mul(a, y)));
    lemma_mul_is_commutative(x.n, a.n);
    lemma_mul_is_commutative(y.n, a.n);
    lemma_mul_is_commutative(x.d, a.d);
    lemma_mul_is_commutative(y.d, a.d);
    assert(frac_mul(x, a) == frac_mul(a, x));
    assert(frac_mul(y, a) == frac_mul(a, y));
}

/// `x` lies within the `i128` range.
pub open spec fn fits_i128(x: int) -> bool {
    -0x80000000000000000000000000000000 <= x < 0x80000000000000000000000000000000
}

/// The product of two positive denominators is a positive denominator.
pub proof fn lemma_den_product(a: int, b: int)
    by (nonlinear_arith)
    requires
        a >= 1,
        b >= 1,
    ensures
        a * b >= 1,
{
}

/// Componentwise bounds propagate through a product of integers.
pub proof fn lemma_abs_mul(a: int, b: int, x: int, y: int)
    by (nonlinear_arith)
    requires
        -x <= a <= x,
        -y <= b <= y,
        0 <= x,
        0 <= y,
    ensures
        -(x * y) <= a * b <= x * y,
{
}

/// Bounds for a sum or difference of bounded rationals, together with the
/// bounds on the cross products that the executable operations compute.
pub proof fn lemma_add_bounds(a: Frac, b: Frac, n1: int, d1: int, n2: int, d2: int)
    requires
        frac_bounded(a, n1, d1),
        frac_bounded(b, n2, d2),
    ensures
        frac_bounded(frac_add(a, b), n1 * d2 + n2 * d1, d1 * d2),
        frac_bounded(frac_sub(a, b), n1 * d2 + n2 * d1, d1 * d2),
        -(n1 * d2) <= a.n * b.d <= n1 * d2,
        -(n2 * d1) <= b.n * a.d <= n2 * d1,
        1 <= a.d * b.d <= d1 * d2,
{
    lemma_abs_mul(a.n, b.d, n1, d2);
    lemma_abs_mul(b.n, a.d, n2, d1);
    lemma_abs_mul(a.d, b.d, d1, d2);
    lemma_den_product(a.d, b.d);
}

/// Bounds for a product of bounded rationals.
pub proof fn lemma_mul_bounds(a: Frac, b: Frac, n1: int, d1: int, n2: int, d2: int)
    requires
        frac_bounded(a, n1, d1),
        frac_bounded(b, n2, d2),
    ensures
        frac_bounded(frac_mul(a, b), n1 * n2, d1 * d2),
        -(n1 * n2) <= a.n * b.n <= n1 * n2,
        1 <= a.d * b.d <= d1 * d2,
{
    lemma_abs_mul(a.n, b.n, n1, n2);
    lemma_abs_mul(a.d, b.d, d1, d2);
    lemma_den_product(a.d, b.d);
}

/// Bounds for a quotient of bounded rationals (nonzero divisor).
pub proof fn lemma_div_bounds(a: Frac, b: Frac, n1: int, d1: int, n2: int, d2: int)
    requires
        frac_bounded(a, n1, d1),
        frac_bounded(b, n2, d2),
        b.n != 0,
    ensures
        frac_bounded(frac_div(a, b), n1 * d2, d1 * n2),
        -(n1 * d2) <= a.n * b.d <= n1 * d2,
        -(n1 * d2) <= -(a.n * b.d) <= n1 * d2,
        -(d1 * n2) <= a.d * b.n <= d1 * n2,
        -(d1 * n2) <= a.d * -b.n <= d1 * n2,
{
    lemma_abs_mul(a.n, b.d, n1, d2);
    lemma_abs_mul(a.d, b.n, d1, n2);
    lemma_abs_mul(a.d, -b.n, d1, n2);
    if b.n >= 0 {
        lemma_den_product(a.d, b.n);
    } else {
        lemma_den_product(a.d, -b.n);
    }
}

/// The cross products that a comparison of bounded rationals computes stay
/// within the given bounds.
pub proof fn lemma_cmp_bounds(a: Frac, b: Frac, n1: int, d1: int, n2: int, d2: int)
    requires
        frac_bounded(a, n1, d1),
        frac_bounded(b, n2, d2),
    ensures
        -(n1 * d2) <= a.n * b.d <= n1 * d2,
        -(n2 * d1) <= b.n * a.d <= n2 * d1,
{
    lemma_abs_mul(a.n, b.d, n1, d2);
    lemma_abs_mul(b.n, a.d, n2, d1);
}

/// Ordering of rational values is transitive.
pub proof fn lemma_frac_le_trans(a: Frac, b: Frac, c: Frac)
    by (nonlinear_arith)
    requires
        frac_wf(a),
        frac_wf(b),
        frac_wf(c),
        frac_le(a, b),
        frac_le(b, c),
    ensures
        frac_le(a, c),
{
}

} // verus!
