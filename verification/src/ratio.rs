//! Exact fractions. Colour quantities that are not yet quantised to eight
//! bits are carried as a signed numerator over a positive denominator, so
//! that every rounding step of the colour arithmetic is decided exactly.

use vstd::prelude::*;
use vstd::arithmetic::div_mod::{lemma_div_is_ordered, lemma_div_multiples_vanish_quotient};

verus! {

/// The integer nearest to `n / d`, for `d > 0`; a value exactly halfway
/// between two integers goes to the one further from zero.
pub open spec fn round_div(n: int, d: int) -> int {
    if n >= 0 {
        (2 * n + d) / (2 * d)
    } else {
        -((2 * (-n) + d) / (2 * d))
    }
}

/// `round_div(n, d)` lies within half a unit of `n / d`, and on the far side
/// of zero where it is exactly half a unit away.
pub proof fn lemma_round_div_nearest(n: int, d: int)
    requires
        d > 0,
    ensures
        -d <= 2 * n - 2 * d * round_div(n, d) <= d,
        n >= 0 ==> 2 * n - 2 * d * round_div(n, d) < d,
        n < 0 ==> -d < 2 * n - 2 * d * round_div(n, d),
        n >= 0 ==> 0 <= round_div(n, d) <= n,
        n <= 0 ==> n <= round_div(n, d) <= 0,
{
    let m = if n >= 0 { n } else { -n };
    let q = (2 * m + d) / (2 * d);
    let r = (2 * m + d) % (2 * d);
    assert(2 * m + d == (2 * d) * q + r && 0 <= r < 2 * d) by (nonlinear_arith)
        requires
            d > 0,
            q == (2 * m + d) / (2 * d),
            r == (2 * m + d) % (2 * d),
    ;
    assert(0 <= q <= m) by (nonlinear_arith)
        requires
            d > 0,
            m >= 0,
            q == (2 * m + d) / (2 * d),
    ;
    assert((2 * d) * q == 2 * d * q) by (nonlinear_arith);
    assert(2 * d * (-q) == -(2 * d * q)) by (nonlinear_arith);
    if n < 0 && q == 0 {
        assert(2 * m + d == r);
    }
}

/// Scaling both terms of a fraction by the same positive factor does not
/// change what it rounds to.
pub proof fn lemma_round_div_scale(n: int, d: int, m: int)
    requires
        d > 0,
        m > 0,
    ensures
        round_div(n * m, d * m) == round_div(n, d),
{
    let a = if n >= 0 { n } else { -n };
    lemma_div_multiples_vanish_quotient(m, 2 * a + d, 2 * d);
    assert(m * (2 * a + d) == 2 * (a * m) + d * m) by (nonlinear_arith);
    assert(m * (2 * d) == 2 * (d * m)) by (nonlinear_arith);
    assert(n >= 0 ==> n * m >= 0 && a * m == n * m) by (nonlinear_arith)
        requires
            m > 0,
            a == if n >= 0 { n } else { -n },
    ;
    assert(n < 0 ==> n * m < 0 && a * m == -(n * m)) by (nonlinear_arith)
        requires
            m > 0,
            a == if n >= 0 { n } else { -n },
    ;
}

/// A larger numerator never rounds to a smaller integer.
pub proof fn lemma_round_div_monotone(a: int, b: int, d: int)
    requires
        d > 0,
        a <= b,
    ensures
        round_div(a, d) <= round_div(b, d),
{
    lemma_round_div_nearest(a, d);
    lemma_round_div_nearest(b, d);
    if a >= 0 {
        lemma_div_is_ordered(2 * a + d, 2 * b + d, 2 * d);
    } else if b < 0 {
        lemma_div_is_ordered(2 * (-b) + d, 2 * (-a) + d, 2 * d);
    }
}

/// A fraction `num / den` with `den > 0`. Two fractions of equal value may
/// differ in their terms: nothing is reduced.
#[derive(Clone, Copy, Debug)]
pub struct Ratio {
    num: i32,
    den: u32,
}

impl Ratio {
    #[verifier::type_invariant]
    spec fn positive_denominator(self) -> bool {
        self.den > 0
    }

    /// The numerator.
    pub closed spec fn num(self) -> int {
        self.num as int
    }

    /// The denominator.
    pub closed spec fn den(self) -> int {
        self.den as int
    }

    /// What every fraction built by this module satisfies.
    pub open spec fn wf(self) -> bool {
        &&& self.den() > 0
        &&& self.den() <= u32::MAX
        &&& i32::MIN <= self.num() <= i32::MAX
    }

    /// The fraction `num / den`; there is none with a denominator of zero.
    pub fn new(num: i32, den: u32) -> (r: Option<Ratio>)
        ensures
            den == 0 <==> r is None,
            r matches Some(x) ==> x.num() == num && x.den() == den && x.wf(),
    {
        if den == 0 {
            None
        } else {
            Some(Ratio { num, den })
        }
    }

    /// The fraction `byte / 255`: an eight-bit channel as a share of full
    /// intensity.
    pub fn from_byte(byte: u8) -> (r: Ratio)
        ensures
            r.num() == byte,
            r.den() == 255,
            r.wf(),
    {
        Ratio { num: byte as i32, den: 255 }
    }

    /// The numerator.
    pub fn numerator(&self) -> (n: i32)
        ensures
            n == self.num(),
            self.wf(),
    {
        proof {
            use_type_invariant(self);
        }
        self.num
    }

    /// The denominator, which is never zero.
    pub fn denominator(&self) -> (d: u32)
        ensures
            d == self.den(),
            d > 0,
            self.wf(),
    {
        proof {
            use_type_invariant(self);
        }
        self.den
    }

    /// Whether two fractions have the same value.
    pub open spec fn same_value(self, other: Ratio) -> bool {
        self.num() * other.den() == other.num() * self.den()
    }

    /// Compares two fractions by value, so that `1/2` equals `2/4`.
    pub fn equals(&self, other: &Ratio) -> (b: bool)
        ensures
            b == self.same_value(*other),
    {
        proof {
            use_type_invariant(self);
            use_type_invariant(other);
        }
        let a: i64 = self.num as i64;
        let b: i64 = other.den as i64;
        let c: i64 = other.num as i64;
        let d: i64 = self.den as i64;
        assert(-0x8000_0000_0000_0000 <= a * b < 0x8000_0000_0000_0000) by (nonlinear_arith)
            requires
                -0x8000_0000 <= a < 0x8000_0000,
                0 <= b < 0x1_0000_0000,
        ;
        assert(-0x8000_0000_0000_0000 <= c * d < 0x8000_0000_0000_0000) by (nonlinear_arith)
            requires
                -0x8000_0000 <= c < 0x8000_0000,
                0 <= d < 0x1_0000_0000,
        ;
        a * b == c * d
    }

    /// The integer nearest to `scale` times the fraction, halves away from
    /// zero.
    pub fn round_scaled(&self, scale: u32) -> (q: i64)
        ensures
            q == round_div(scale * self.num(), self.den()),
    {
        proof {
            use_type_invariant(self);
        }
        let a: i128 = self.num as i128;
        let b: i128 = scale as i128;
        assert(-0x8000_0000_0000_0000 < a * b < 0x8000_0000_0000_0000 && a * b == b * a)
            by (nonlinear_arith)
            requires
                -0x8000_0000 <= a < 0x8000_0000,
                0 <= b < 0x1_0000_0000,
        ;
        round_div_i128(a * b, self.den as i128) as i64
    }
}

/// `round_div` on machine integers, for operands small enough that twice the
/// numerator plus the denominator cannot overflow.
pub(crate) fn round_div_i128(n: i128, d: i128) -> (q: i128)
    requires
        0 < d <= 0x1_0000_0000_0000_0000_0000_0000_0000,
        -0x1_0000_0000_0000_0000_0000_0000_0000 <= n <= 0x1_0000_0000_0000_0000_0000_0000_0000,
    ensures
        q == round_div(n as int, d as int),
        n >= 0 ==> 0 <= q <= n,
        n <= 0 ==> n <= q <= 0,
{
    let m: i128 = if n >= 0 { n } else { -n };
    let q: i128 = (2 * m + d) / (2 * d);
    assert(0 <= q <= m) by (nonlinear_arith)
        requires
            d > 0,
            m >= 0,
            q == (2 * m + d) / (2 * d),
    ;
    if n >= 0 {
        q
    } else {
        -q
    }
}

} // verus!
