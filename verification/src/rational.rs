//! Exact rational numbers with 64-bit numerator and denominator.
//!
//! A value is modelled in specifications as a pair `(int, int)` of numerator
//! and denominator with a positive denominator.  Executable results are
//! always reduced by the greatest common divisor; an operation whose reduced
//! result does not fit the 64-bit range reports `ArithmeticOverflow`.

use vstd::prelude::*;
use vstd::arithmetic::div_mod::{
    lemma_fundamental_div_mod, lemma_fundamental_div_mod_converse_div,
    lemma_mod_division_less_than_divisor,
};

use crate::error::LpError;

verus! {

/// Absolute value of a mathematical integer.
pub open spec fn abs_i(n: int) -> int {
    if n < 0 {
        -n
    } else {
        n
    }
}

/// Greatest common divisor by Euclid's rule, defined for non-negative
/// arguments.
pub open spec fn gcd_spec(a: int, b: int) -> int
    decreases b when 0 <= b
{
    if b <= 0 {
        a
    } else {
        gcd_spec(b, a % b)
    }
}

/// `d` divides `n` exactly.
pub open spec fn divides(d: int, n: int) -> bool {
    exists|k: int| n == #[trigger] (d * k)
}

/// A numerator/denominator pair that fits the executable representation:
/// positive denominator, both entries within the symmetric 64-bit range.
pub open spec fn q_wf(q: (int, int)) -> bool {
    &&& 1 <= q.1 <= i64::MAX as int
    &&& -(i64::MAX as int) <= q.0 <= i64::MAX as int
}

/// Value equality of two pairs with positive denominators.
pub open spec fn q_eq(a: (int, int), b: (int, int)) -> bool {
    a.0 * b.1 == b.0 * a.1
}

/// Strict order of two pairs with positive denominators.
pub open spec fn q_lt(a: (int, int), b: (int, int)) -> bool {
    a.0 * b.1 < b.0 * a.1
}

/// Non-strict order of two pairs with positive denominators.
pub open spec fn q_le(a: (int, int), b: (int, int)) -> bool {
    a.0 * b.1 <= b.0 * a.1
}

/// The reduced form of `n / d` for `d >= 1`: both entries divided by their
/// greatest common divisor.
pub open spec fn norm_q(n: int, d: int) -> (int, int) {
    let g = gcd_spec(abs_i(n), d);
    (n / g, d / g)
}

/// Reduced sum of two rational pairs.
pub open spec fn add_q(a: (int, int), b: (int, int)) -> (int, int) {
    norm_q(a.0 * b.1 + b.0 * a.1, a.1 * b.1)
}

/// Reduced product of two rational pairs.
pub open spec fn mul_q(a: (int, int), b: (int, int)) -> (int, int) {
    norm_q(a.0 * b.0, a.1 * b.1)
}

/// Negation of a rational pair.
pub open spec fn neg_q(a: (int, int)) -> (int, int) {
    (-a.0, a.1)
}

/// Absolute value of a rational pair.
pub open spec fn abs_q(a: (int, int)) -> (int, int) {
    (abs_i(a.0), a.1)
}

/// Reduced quotient `a / b` for `b` with a non-zero numerator; the sign is
/// moved into the numerator so the denominator stays positive.
pub open spec fn div_q(a: (int, int), b: (int, int)) -> (int, int) {
    if b.0 > 0 {
        norm_q(a.0 * b.1, a.1 * b.0)
    } else {
        norm_q(-(a.0 * b.1), -(a.1 * b.0))
    }
}

/// The pair denoting zero.
pub open spec fn q_zero() -> (int, int) {
    (0int, 1int)
}

/// Bound on the product of two values bounded by `m`.
proof fn lemma_mul_bound(a: int, b: int, m: int)
    by (nonlinear_arith)
    requires
        0 <= m,
        -m <= a <= m,
        -m <= b <= m,
    ensures
        -(m * m) <= a * b <= m * m,
{
}

/// A product of two positive values bounded by `m` stays in `[1, m * m]`.
proof fn lemma_pos_mul_bound(a: int, b: int, m: int)
    by (nonlinear_arith)
    requires
        1 <= a <= m,
        1 <= b <= m,
    ensures
        1 <= a * b <= m * m,
{
}

/// The greatest common divisor of non-negative arguments divides both, and
/// is positive as soon as one argument is.
proof fn lemma_gcd_props(a: int, b: int)
    requires
        0 <= a,
        0 <= b,
    ensures
        0 <= gcd_spec(a, b),
        divides(gcd_spec(a, b), a),
        divides(gcd_spec(a, b), b),
        a > 0 || b > 0 ==> gcd_spec(a, b) > 0,
    decreases b,
{
    let g = gcd_spec(a, b);
    if b <= 0 {
        assert(g == a);
        assert(a == a * 1) by (nonlinear_arith);
        assert(b == a * 0) by (nonlinear_arith)
            requires
                b == 0,
        ;
    } else {
        let r = a % b;
        lemma_mod_division_less_than_divisor(a, b);
        lemma_gcd_props(b, r);
        assert(g == gcd_spec(b, r));
        let q = a / b;
        lemma_fundamental_div_mod(a, b);
        let k1 = choose|k: int| b == #[trigger] (g * k);
        let k2 = choose|k: int| r == #[trigger] (g * k);
        assert(a == g * (k1 * q + k2)) by (nonlinear_arith)
            requires
                a == b * q + r,
                b == g * k1,
                r == g * k2,
        ;
    }
}

/// Exact division: when `d` divides `n`, the quotient times `d` restores `n`.
proof fn lemma_div_exact(d: int, n: int)
    requires
        0 < d,
        divides(d, n),
    ensures
        d * (n / d) == n,
{
    let k = choose|k: int| n == #[trigger] (d * k);
    assert(d * k == k * d) by (nonlinear_arith);
    lemma_fundamental_div_mod_converse_div(n, d, k, 0);
}

/// A fraction whose entries already lie in the 64-bit range keeps fitting
/// after reduction, since reduction can only shrink magnitudes.
proof fn lemma_norm_small_fits(n: int, d: int)
    requires
        1 <= d <= i64::MAX as int,
        -(i64::MAX as int) <= n <= i64::MAX as int,
    ensures
        q_wf(norm_q(n, d)),
{
    let g = gcd_spec(abs_i(n), d);
    lemma_gcd_props(abs_i(n), d);
    lemma_div_exact(g, d);
    lemma_exact_quotient_bounds(g, d);
    lemma_div_exact(g, abs_i(n));
    lemma_exact_quotient_bounds(g, abs_i(n));
    if n < 0 {
        assert(n == (-(abs_i(n) / g)) * g + 0) by (nonlinear_arith)
            requires
                g * (abs_i(n) / g) == abs_i(n),
                n == -abs_i(n),
        ;
        lemma_fundamental_div_mod_converse_div(n, g, -(abs_i(n) / g), 0);
    }
}

/// Dividing out an exact positive divisor keeps a non-negative value within
/// its old bound, and keeps a positive value positive.
proof fn lemma_exact_quotient_bounds(d: int, n: int)
    requires
        0 < d,
        0 <= n,
        divides(d, n),
    ensures
        0 <= n / d <= n,
        n >= 1 ==> 1 <= n / d,
{
    lemma_div_exact(d, n);
    let q = n / d;
    assert(0 <= q && q <= n && (n >= 1 ==> 1 <= q)) by (nonlinear_arith)
        requires
            d * q == n,
            0 < d,
            0 <= n,
    ;
}

/// An exact positive divisor of a value's magnitude divides the value
/// itself: quotient times divisor restores it, whatever the sign.
proof fn lemma_abs_div_exact(g: int, n: int)
    requires
        0 < g,
        divides(g, abs_i(n)),
    ensures
        g * (n / g) == n,
{
    if n >= 0 {
        lemma_div_exact(g, n);
    } else {
        lemma_div_exact(g, -n);
        assert(n == (-((-n) / g)) * g + 0) by (nonlinear_arith)
            requires
                g * ((-n) / g) == -n,
        ;
        lemma_fundamental_div_mod_converse_div(n, g, -((-n) / g), 0);
        assert(g * (n / g) == n) by (nonlinear_arith)
            requires
                n / g == -((-n) / g),
                g * ((-n) / g) == -n,
        ;
    }
}

/// Reduction preserves the value: the reduced fraction denotes the same
/// rational as the fraction it was reduced from.
pub proof fn lemma_norm_q_preserves_value(n: int, d: int)
    requires
        1 <= d,
    ensures
        q_eq(norm_q(n, d), (n, d)),
{
    let g = gcd_spec(abs_i(n), d);
    lemma_gcd_props(abs_i(n), d);
    lemma_abs_div_exact(g, n);
    lemma_div_exact(g, d);
    assert((n / g) * d == n * (d / g)) by (nonlinear_arith)
        requires
            g * (n / g) == n,
            g * (d / g) == d,
    ;
}

/// The reduced sum denotes the textbook sum of the two fractions.
pub proof fn lemma_add_q_value(a: (int, int), b: (int, int))
    requires
        a.1 >= 1,
        b.1 >= 1,
    ensures
        add_q(a, b).1 >= 1,
        q_eq(add_q(a, b), (a.0 * b.1 + b.0 * a.1, a.1 * b.1)),
{
    assert(a.1 * b.1 >= 1) by (nonlinear_arith)
        requires
            a.1 >= 1,
            b.1 >= 1,
    ;
    lemma_norm_q_preserves_value(a.0 * b.1 + b.0 * a.1, a.1 * b.1);
    lemma_norm_den_pos(a.0 * b.1 + b.0 * a.1, a.1 * b.1);
}

/// The reduced product denotes the textbook product of the two fractions.
pub proof fn lemma_mul_q_value(a: (int, int), b: (int, int))
    requires
        a.1 >= 1,
        b.1 >= 1,
    ensures
        mul_q(a, b).1 >= 1,
        q_eq(mul_q(a, b), (a.0 * b.0, a.1 * b.1)),
{
    assert(a.1 * b.1 >= 1) by (nonlinear_arith)
        requires
            a.1 >= 1,
            b.1 >= 1,
    ;
    lemma_norm_q_preserves_value(a.0 * b.0, a.1 * b.1);
    lemma_norm_den_pos(a.0 * b.0, a.1 * b.1);
}

/// The reduced quotient denotes the textbook quotient: numerators and
/// denominators cross-multiplied, whatever the divisor's sign.
pub proof fn lemma_div_q_value(a: (int, int), b: (int, int))
    requires
        a.1 >= 1,
        b.1 >= 1,
        b.0 != 0,
    ensures
        div_q(a, b).1 >= 1,
        q_eq(div_q(a, b), (a.0 * b.1, a.1 * b.0)),
{
    lemma_div_q_den_pos(a, b);
    if b.0 > 0 {
        assert(a.1 * b.0 >= 1) by (nonlinear_arith)
            requires
                a.1 >= 1,
                b.0 >= 1,
        ;
        lemma_norm_q_preserves_value(a.0 * b.1, a.1 * b.0);
    } else {
        assert(-(a.1 * b.0) >= 1) by (nonlinear_arith)
            requires
                a.1 >= 1,
                b.0 <= -1,
        ;
        lemma_norm_q_preserves_value(-(a.0 * b.1), -(a.1 * b.0));
        let r = div_q(a, b);
        assert(r.0 * (a.1 * b.0) == (a.0 * b.1) * r.1) by (nonlinear_arith)
            requires
                r.0 * (-(a.1 * b.0)) == (-(a.0 * b.1)) * r.1,
        ;
    }
}

/// Transitivity of the non-strict rational order, for positive
/// denominators.
pub proof fn lemma_q_le_trans(a: (int, int), b: (int, int), c: (int, int))
    requires
        a.1 > 0,
        b.1 > 0,
        c.1 > 0,
        q_le(a, b),
        q_le(b, c),
    ensures
        q_le(a, c),
{
    assert(a.0 * c.1 <= c.0 * a.1) by (nonlinear_arith)
        requires
            a.1 > 0,
            b.1 > 0,
            c.1 > 0,
            a.0 * b.1 <= b.0 * a.1,
            b.0 * c.1 <= c.0 * b.1,
    ;
}

/// A strict step followed by a non-strict step stays strict, for positive
/// denominators.
pub proof fn lemma_q_lt_le_trans(a: (int, int), b: (int, int), c: (int, int))
    requires
        a.1 > 0,
        b.1 > 0,
        c.1 > 0,
        q_lt(a, b),
        q_le(b, c),
    ensures
        q_lt(a, c),
{
    assert(a.0 * c.1 < c.0 * a.1) by (nonlinear_arith)
        requires
            a.1 > 0,
            b.1 > 0,
            c.1 > 0,
            a.0 * b.1 < b.0 * a.1,
            b.0 * c.1 <= c.0 * b.1,
    ;
}

/// The reduced form of a fraction with positive denominator keeps its
/// denominator positive.
pub proof fn lemma_norm_den_pos(n: int, d: int)
    requires
        1 <= d,
    ensures
        norm_q(n, d).1 >= 1,
{
    let g = gcd_spec(abs_i(n), d);
    lemma_gcd_props(abs_i(n), d);
    lemma_div_exact(g, d);
    lemma_exact_quotient_bounds(g, d);
}

/// A quotient of a well-formed pair by one with a non-zero numerator keeps
/// its denominator positive.
pub proof fn lemma_div_q_den_pos(a: (int, int), b: (int, int))
    requires
        a.1 >= 1,
        b.1 >= 1,
        b.0 != 0,
    ensures
        div_q(a, b).1 >= 1,
{
    if b.0 > 0 {
        assert(a.1 * b.0 >= 1) by (nonlinear_arith)
            requires
                a.1 >= 1,
                b.0 >= 1,
        ;
        lemma_norm_den_pos(a.0 * b.1, a.1 * b.0);
    } else {
        assert(-(a.1 * b.0) >= 1) by (nonlinear_arith)
            requires
                a.1 >= 1,
                b.0 <= -1,
        ;
        lemma_norm_den_pos(-(a.0 * b.1), -(a.1 * b.0));
    }
}

/// Euclid's algorithm on unsigned 128-bit integers.
fn gcd_u128(a: u128, b: u128) -> (g: u128)
    requires
        a > 0 || b > 0,
    ensures
        g as int == gcd_spec(a as int, b as int),
        g >= 1,
{
    let mut x = a;
    let mut y = b;
    while y != 0
        invariant
            gcd_spec(x as int, y as int) == gcd_spec(a as int, b as int),
            x > 0 || y > 0,
        decreases y,
    {
        proof {
            lemma_mod_division_less_than_divisor(x as int, y as int);
        }
        let r = x % y;
        x = y;
        y = r;
    }
    proof {
        lemma_gcd_props(a as int, b as int);
    }
    x
}

/// An exact rational number.  The denominator is positive, the numerator
/// lies in the symmetric range `[-i64::MAX, i64::MAX]`, and the fraction is
/// kept reduced by every constructor and operation.
#[derive(Clone, Copy, Debug)]
pub struct Rat {
    num: i64,
    den: i64,
}

impl View for Rat {
    type V = (int, int);

    closed spec fn view(&self) -> (int, int) {
        (self.num as int, self.den as int)
    }
}

impl PartialEq for Rat {
    /// Value equality by cross multiplication: reduced or not, two
    /// fractions compare equal exactly when they denote the same rational.
    fn eq(&self, other: &Rat) -> (r: bool) {
        proof {
            lemma_mul_bound(self.num as int, other.den as int, 0x8000_0000_0000_0000);
            lemma_mul_bound(other.num as int, self.den as int, 0x8000_0000_0000_0000);
        }
        (self.num as i128) * (other.den as i128) == (other.num as i128) * (self.den as i128)
    }
}

impl vstd::std_specs::cmp::PartialEqSpecImpl for Rat {
    open spec fn obeys_eq_spec() -> bool {
        true
    }

    open spec fn eq_spec(&self, other: &Rat) -> bool {
        q_eq(self@, other@)
    }
}

/// Reduce the exact wide pair `n / d` and narrow it to 64 bits.
fn normalize(n: i128, d: i128) -> (r: Result<Rat, LpError>)
    requires
        1 <= d,
        i128::MIN < n,
    ensures
        r is Ok <==> q_wf(norm_q(n as int, d as int)),
        r is Ok ==> r.unwrap()@ == norm_q(n as int, d as int) && r.unwrap().wf(),
        r is Err ==> r == Err::<Rat, LpError>(LpError::ArithmeticOverflow),
{
    let neg = n < 0;
    let m: u128 = if neg {
        (-n) as u128
    } else {
        n as u128
    };
    let du: u128 = d as u128;
    proof {
        assert(m as int == abs_i(n as int));
        assert(du as int == d as int);
    }
    let g = gcd_u128(m, du);
    proof {
        lemma_gcd_props(m as int, du as int);
        lemma_div_exact(g as int, m as int);
        lemma_div_exact(g as int, du as int);
        lemma_exact_quotient_bounds(g as int, m as int);
        lemma_exact_quotient_bounds(g as int, du as int);
    }
    let qm = m / g;
    let qd = du / g;
    proof {
        // The reduced numerator is `n / g` up to the recorded sign.
        if neg {
            assert(n as int == (-(qm as int)) * (g as int) + 0) by (nonlinear_arith)
                requires
                    (g as int) * (qm as int) == m as int,
                    n as int == -(m as int),
            ;
            lemma_fundamental_div_mod_converse_div(n as int, g as int, -(qm as int), 0);
        }
        assert(norm_q(n as int, d as int) == (
            if neg {
                -(qm as int)
            } else {
                qm as int
            },
            qd as int,
        ));
    }
    if qm > (i64::MAX as u128) || qd > (i64::MAX as u128) {
        return Err(LpError::ArithmeticOverflow);
    }
    let num: i64 = if neg {
        -(qm as i64)
    } else {
        qm as i64
    };
    let den: i64 = qd as i64;
    Ok(Rat { num, den })
}

impl Rat {
    /// The representation invariant: positive denominator, numerator and
    /// denominator within the symmetric 64-bit range.
    pub open spec fn wf(self) -> bool {
        q_wf(self@)
    }

    /// The rational zero.
    pub fn zero() -> (r: Rat)
        ensures
            r@ == q_zero(),
            r.wf(),
    {
        Rat { num: 0, den: 1 }
    }

    /// The rational one.
    pub fn one() -> (r: Rat)
        ensures
            r@ == (1int, 1int),
            r.wf(),
    {
        Rat { num: 1, den: 1 }
    }

    /// A whole number as a rational.
    pub fn from_int(v: i64) -> (r: Rat)
        requires
            v > i64::MIN,
        ensures
            r@ == (v as int, 1int),
            r.wf(),
    {
        Rat { num: v, den: 1 }
    }

    /// The reduced fraction `n / d`.  Any sign of `d` is accepted; the
    /// stored denominator is positive.
    pub fn new(n: i64, d: i64) -> (r: Rat)
        requires
            d != 0,
            n > i64::MIN,
            d > i64::MIN,
        ensures
            d > 0 ==> r@ == norm_q(n as int, d as int),
            d < 0 ==> r@ == norm_q(-(n as int), -(d as int)),
            r.wf(),
    {
        let (sn, sd): (i64, i64) = if d < 0 {
            (-n, -d)
        } else {
            (n, d)
        };
        proof {
            lemma_norm_small_fits(sn as int, sd as int);
        }
        let r = match normalize(sn as i128, sd as i128) {
            Ok(r) => r,
            Err(_) => {
                proof {
                    assert(false);
                }
                Rat { num: 0, den: 1 }
            },
        };
        r
    }

    /// The stored numerator.
    pub fn num(self) -> (r: i64)
        ensures
            r as int == self@.0,
    {
        self.num
    }

    /// The stored denominator.
    pub fn den(self) -> (r: i64)
        ensures
            r as int == self@.1,
    {
        self.den
    }

    /// Whether the value is exactly zero.  A zero numerator means zero
    /// whatever the denominator, so every representation of zero — however
    /// it was produced — answers `true`.
    pub fn is_zero(self) -> (r: bool)
        ensures
            r == (self@.0 == 0),
    {
        self.num == 0
    }

    /// Whether the value is strictly positive.
    pub fn is_pos(self) -> (r: bool)
        requires
            self.wf(),
        ensures
            r == (self@.0 > 0),
    {
        self.num > 0
    }

    /// Whether the value is strictly negative.
    pub fn is_neg(self) -> (r: bool)
        requires
            self.wf(),
        ensures
            r == (self@.0 < 0),
    {
        self.num < 0
    }

    /// Exact negation; total because the numerator range is symmetric.
    pub fn neg(self) -> (r: Rat)
        requires
            self.wf(),
        ensures
            r@ == neg_q(self@),
            r.wf(),
    {
        Rat { num: -self.num, den: self.den }
    }

    /// Exact absolute value.
    pub fn abs(self) -> (r: Rat)
        requires
            self.wf(),
        ensures
            r@ == abs_q(self@),
            r.wf(),
    {
        if self.num < 0 {
            Rat { num: -self.num, den: self.den }
        } else {
            Rat { num: self.num, den: self.den }
        }
    }

    /// Strict comparison by cross multiplication.
    pub fn lt(self, other: Rat) -> (r: bool)
        requires
            self.wf(),
            other.wf(),
        ensures
            r == q_lt(self@, other@),
    {
        proof {
            lemma_mul_bound(self.num as int, other.den as int, i64::MAX as int);
            lemma_mul_bound(other.num as int, self.den as int, i64::MAX as int);
        }
        (self.num as i128) * (other.den as i128) < (other.num as i128) * (self.den as i128)
    }

    /// Non-strict comparison by cross multiplication.
    pub fn le(self, other: Rat) -> (r: bool)
        requires
            self.wf(),
            other.wf(),
        ensures
            r == q_le(self@, other@),
    {
        proof {
            lemma_mul_bound(self.num as int, other.den as int, i64::MAX as int);
            lemma_mul_bound(other.num as int, self.den as int, i64::MAX as int);
        }
        (self.num as i128) * (other.den as i128) <= (other.num as i128) * (self.den as i128)
    }

    /// Exact sum, reduced; `Err` exactly when the reduced result leaves the
    /// 64-bit range.
    pub fn add(self, other: Rat) -> (r: Result<Rat, LpError>)
        requires
            self.wf(),
            other.wf(),
        ensures
            r is Ok <==> q_wf(add_q(self@, other@)),
            r is Ok ==> r.unwrap()@ == add_q(self@, other@) && r.unwrap().wf(),
            r is Err ==> r == Err::<Rat, LpError>(LpError::ArithmeticOverflow),
    {
        proof {
            lemma_mul_bound(self.num as int, other.den as int, i64::MAX as int);
            lemma_mul_bound(other.num as int, self.den as int, i64::MAX as int);
            lemma_pos_mul_bound(self.den as int, other.den as int, i64::MAX as int);
        }
        let wn = (self.num as i128) * (other.den as i128) + (other.num as i128) * (self.den
            as i128);
        let wd = (self.den as i128) * (other.den as i128);
        normalize(wn, wd)
    }

    /// Exact difference, reduced; `Err` exactly when the reduced result
    /// leaves the 64-bit range.
    pub fn sub(self, other: Rat) -> (r: Result<Rat, LpError>)
        requires
            self.wf(),
            other.wf(),
        ensures
            r is Ok <==> q_wf(add_q(self@, neg_q(other@))),
            r is Ok ==> r.unwrap()@ == add_q(self@, neg_q(other@)) && r.unwrap().wf(),
            r is Err ==> r == Err::<Rat, LpError>(LpError::ArithmeticOverflow),
    {
        self.add(other.neg())
    }

    /// Exact product, reduced; `Err` exactly when the reduced result leaves
    /// the 64-bit range.
    pub fn mul(self, other: Rat) -> (r: Result<Rat, LpError>)
        requires
            self.wf(),
            other.wf(),
        ensures
            r is Ok <==> q_wf(mul_q(self@, other@)),
            r is Ok ==> r.unwrap()@ == mul_q(self@, other@) && r.unwrap().wf(),
            r is Err ==> r == Err::<Rat, LpError>(LpError::ArithmeticOverflow),
    {
        proof {
            lemma_mul_bound(self.num as int, other.num as int, i64::MAX as int);
            lemma_pos_mul_bound(self.den as int, other.den as int, i64::MAX as int);
        }
        let wn = (self.num as i128) * (other.num as i128);
        let wd = (self.den as i128) * (other.den as i128);
        normalize(wn, wd)
    }

    /// Exact quotient, reduced.  The divisor must not be zero — the pivot
    /// engine checks that before dividing; `Err` exactly when the reduced
    /// result leaves the 64-bit range.
    pub fn div(self, other: Rat) -> (r: Result<Rat, LpError>)
        requires
            self.wf(),
            other.wf(),
            other@.0 != 0,
        ensures
            r is Ok <==> q_wf(div_q(self@, other@)),
            r is Ok ==> r.unwrap()@ == div_q(self@, other@) && r.unwrap().wf(),
            r is Err ==> r == Err::<Rat, LpError>(LpError::ArithmeticOverflow),
    {
        proof {
            lemma_mul_bound(self.num as int, other.den as int, i64::MAX as int);
            lemma_mul_bound(self.den as int, other.num as int, i64::MAX as int);
            if other.num > 0 {
                lemma_pos_mul_bound(self.den as int, other.num as int, i64::MAX as int);
            } else {
                lemma_pos_mul_bound(self.den as int, -(other.num as int), i64::MAX as int);
            }
        }
        let wn = (self.num as i128) * (other.den as i128);
        let wd = (self.den as i128) * (other.num as i128);
        if other.num > 0 {
            normalize(wn, wd)
        } else {
            proof {
                assert(-((self.den as int) * (other.num as int)) == (self.den as int) * (-(
                other.num as int))) by (nonlinear_arith);
            }
            normalize(-wn, -wd)
        }
    }
}

} // verus!
