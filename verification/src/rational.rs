//! Exact rational numbers in lowest terms: the `Number` atoms of the value
//! model. A rational is stored as a sign, a numerator magnitude and a
//! positive denominator, with the magnitude and denominator coprime.

use vstd::prelude::*;

verus! {

/// Greatest common divisor by Euclid's algorithm; `gcd(0, 0) == 0`.
pub open spec fn gcd(a: nat, b: nat) -> nat
    decreases b,
{
    if b == 0 {
        a
    } else {
        gcd(b, a % b)
    }
}

/// `d` divides `n`.
pub open spec fn divides(d: nat, n: nat) -> bool {
    exists|k: nat| n == #[trigger] (k * d)
}

/// The greatest common divisor divides both arguments and is positive
/// unless both are zero.
pub proof fn lemma_gcd_divides(a: nat, b: nat)
    ensures
        divides(gcd(a, b), a),
        divides(gcd(a, b), b),
        a > 0 || b > 0 ==> gcd(a, b) > 0,
    decreases b,
{
    if b == 0 {
        assert(1 * a == a) by (nonlinear_arith);
        assert(0 * a == 0) by (nonlinear_arith);
        assert(divides(a, a));
        assert(divides(a, b));
    } else {
        lemma_gcd_divides(b, a % b);
        let g = gcd(b, a % b);
        let k1 = choose|k: nat| b == #[trigger] (k * g);
        let k2 = choose|k: nat| (a % b) == #[trigger] (k * g);
        vstd::arithmetic::div_mod::lemma_fundamental_div_mod(a as int, b as int);
        assert(a == b * (a / b) + a % b);
        let q = a / b;
        assert(a == (k1 * q + k2) * g) by (nonlinear_arith)
            requires
                a == b * q + a % b,
                b == k1 * g,
                (a % b) == k2 * g,
        ;
        assert(divides(g, a));
    }
}

/// Every common divisor of `a` and `b` divides `gcd(a, b)`.
pub proof fn lemma_gcd_greatest(a: nat, b: nat, d: nat)
    requires
        d > 0,
        divides(d, a),
        divides(d, b),
    ensures
        divides(d, gcd(a, b)),
    decreases b,
{
    if b == 0 {
    } else {
        let ka = choose|k: nat| a == #[trigger] (k * d);
        let kb = choose|k: nat| b == #[trigger] (k * d);
        vstd::arithmetic::div_mod::lemma_fundamental_div_mod(a as int, b as int);
        let q = a / b;
        let m = (a % b) as int;
        let km = ka - q * kb;
        assert(m == km * d) by (nonlinear_arith)
            requires
                a == b * q + m,
                a == ka * d,
                b == kb * d,
                km == ka - q * kb,
        ;
        assert(km >= 0) by (nonlinear_arith)
            requires
                km * d == m,
                m >= 0,
                d > 0,
        ;
        assert((a % b) == (km as nat) * d);
        assert(divides(d, (a % b) as nat));
        lemma_gcd_greatest(b, a % b, d);
    }
}

/// `d` divides a positive `n` only if `d <= n`.
pub proof fn lemma_divides_le(d: nat, n: nat)
    requires
        divides(d, n),
        n > 0,
    ensures
        d <= n,
{
    let k = choose|k: nat| n == #[trigger] (k * d);
    assert(d <= n) by (nonlinear_arith)
        requires
            n == k * d,
            n > 0,
    ;
}

/// Dividing both arguments by their greatest common divisor leaves
/// coprime quotients.
pub proof fn lemma_gcd_quotients_coprime(a: nat, b: nat)
    requires
        b > 0,
    ensures
        gcd(a / gcd(a, b), b / gcd(a, b)) == 1,
{
    lemma_gcd_divides(a, b);
    let g = gcd(a, b);
    let ka = choose|k: nat| a == #[trigger] (k * g);
    let kb = choose|k: nat| b == #[trigger] (k * g);
    assert(a / g == ka && b / g == kb) by (nonlinear_arith)
        requires
            a == ka * g,
            b == kb * g,
            g > 0,
    ;
    let h = gcd(ka, kb);
    lemma_gcd_divides(ka, kb);
    assert(kb > 0) by (nonlinear_arith)
        requires
            b == kb * g,
            b > 0,
    ;
    let ja = choose|k: nat| ka == #[trigger] (k * h);
    let jb = choose|k: nat| kb == #[trigger] (k * h);
    assert(a == ja * (h * g) && b == jb * (h * g)) by (nonlinear_arith)
        requires
            a == ka * g,
            b == kb * g,
            ka == ja * h,
            kb == jb * h,
    ;
    assert(h * g > 0) by (nonlinear_arith)
        requires
            h > 0,
            g > 0,
    ;
    lemma_gcd_greatest(a, b, h * g);
    lemma_divides_le(h * g, g);
    assert(h == 1) by (nonlinear_arith)
        requires
            h * g <= g,
            h > 0,
            g > 0,
    ;
}

/// The magnitude of an integer.
pub open spec fn int_mag(n: int) -> nat {
    if n < 0 {
        (-n) as nat
    } else {
        n as nat
    }
}

/// A signed numerator and a denominator in lowest terms.
pub open spec fn canonical_pair(n: int, d: int) -> bool {
    d >= 1 && gcd(int_mag(n), d as nat) == 1
}

/// The signed value of a sign-and-magnitude pair.
pub open spec fn signed(neg: bool, mag: nat) -> int {
    if neg {
        -(mag as int)
    } else {
        mag as int
    }
}

/// The canonical (lowest-terms) form of the fraction `n / d`, for `d > 0`:
/// a pair of a signed numerator and a positive denominator.
pub open spec fn canon(n: int, d: int) -> (int, int)
    recommends
        d > 0,
{
    let m = if n < 0 {
        (-n) as nat
    } else {
        n as nat
    };
    let g = gcd(m, d as nat);
    let mr = m / g;
    let dr = d as nat / g;
    (if n < 0 {
        -(mr as int)
    } else {
        mr as int
    }, dr as int)
}

/// An exact rational number in lowest terms. The `Number` atom of the value
/// model holds one of these; equality of reduced forms is plain structural
/// equality.
#[derive(Clone, Copy, Debug, PartialEq, Eq, Hash)]
pub struct Rational {
    neg: bool,
    num: u64,
    den: u64,
}

impl View for Rational {
    type V = (int, int);

    /// A rational is viewed as the pair (signed numerator, denominator).
    closed spec fn view(&self) -> (int, int) {
        (signed(self.neg, self.num as nat), self.den as int)
    }
}

impl Rational {
    /// Lowest terms: positive denominator, coprime magnitude and
    /// denominator, and no negative zero.
    pub closed spec fn wf(self) -> bool {
        &&& self.den >= 1
        &&& gcd(self.num as nat, self.den as nat) == 1
        &&& (self.num == 0 ==> !self.neg)
    }

    /// Builds the rational `mag / den` (negated when `neg` is set),
    /// canonicalized to lowest terms.
    pub fn new(neg: bool, mag: u64, den: u64) -> (r: Rational)
        requires
            den >= 1,
        ensures
            r.wf(),
            canonical_pair(r@.0, r@.1),
            r@ == canon(signed(neg, mag as nat), den as int),
    {
        let g = gcd_u64(mag, den);
        proof {
            lemma_gcd_divides(mag as nat, den as nat);
        }
        assert(g >= 1);
        let mr = mag / g;
        let dr = den / g;
        proof {
            lemma_gcd_quotients_coprime(mag as nat, den as nat);
            lemma_divides_le(g as nat, den as nat);
            assert(dr >= 1) by (nonlinear_arith)
                requires
                    dr == den as nat / g as nat,
                    1 <= g <= den,
            ;
        }
        Rational { neg: neg && mr != 0, num: mr, den: dr }
    }

    /// Builds the integer `mag` (negated when `neg` is set) as a rational
    /// with denominator one.
    pub fn from_integer(neg: bool, mag: u64) -> (r: Rational)
        ensures
            r.wf(),
            canonical_pair(r@.0, r@.1),
            r@ == (signed(neg, mag as nat), 1int),
    {
        proof {
            lemma_gcd_one_right(mag as nat);
        }
        Rational { neg: neg && mag != 0, num: mag, den: 1 }
    }

    /// The sign of the rational: true only for strictly negative values.
    pub fn is_negative(&self) -> (b: bool)
        requires
            self.wf(),
        ensures
            b == (self@.0 < 0),
    {
        self.neg
    }

    /// The numerator magnitude of the reduced form.
    pub fn numerator_magnitude(&self) -> (n: u64)
        ensures
            n as int == if self@.0 < 0 {
                -self@.0
            } else {
                self@.0
            },
    {
        self.num
    }

    /// The denominator of the reduced form.
    pub fn denominator(&self) -> (d: u64)
        ensures
            d as int == self@.1,
    {
        self.den
    }
}

/// `gcd(m, 1) == 1`.
pub proof fn lemma_gcd_one_right(m: nat)
    ensures
        gcd(m, 1) == 1,
{
    vstd::arithmetic::div_mod::lemma_mod_division_less_than_divisor(m as int, 1);
    assert(m % 1 == 0);
    assert(gcd(m, 1) == gcd(1, 0));
    assert(gcd(1, 0) == 1);
}

/// Equality of reduced rationals, decided field by field; the result
/// reflects equality of the two views.
pub fn rat_eq(a: &Rational, b: &Rational) -> (r: bool)
    requires
        a.wf(),
        b.wf(),
    ensures
        r == (a@ == b@),
{
    proof {
        if a.num == 0 && b.num == 0 {
            assert(!a.neg && !b.neg);
        }
    }
    a.neg == b.neg && a.num == b.num && a.den == b.den
}

/// Euclid's algorithm on machine integers.
pub fn gcd_u64(a: u64, b: u64) -> (g: u64)
    ensures
        g as nat == gcd(a as nat, b as nat),
    decreases b,
{
    if b == 0 {
        a
    } else {
        gcd_u64(b, a % b)
    }
}

} // verus!
