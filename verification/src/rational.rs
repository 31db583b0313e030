//! Exact rational scalars.
//!
//! Every element value in the engine is a rational number with a 64-bit
//! numerator and a positive 64-bit denominator. Results are kept unreduced:
//! each arithmetic operation forms the textbook numerator and denominator of
//! the fraction result, and reports `Overflow` when a component leaves the
//! 64-bit range. This keeps evaluation fully deterministic and lets the
//! specification state the exact value of every computation.

use vstd::prelude::*;

use crate::error::Error;

verus! {

/// Mathematical value of a [`Rational`]: a numerator over a positive
/// denominator, as unbounded integers.
pub struct Rat {
    pub n: int,
    pub d: int,
}

/// A well-formed rational value has a positive denominator.
pub open spec fn rat_wf(r: Rat) -> bool {
    r.d > 0
}

/// The rational value one.
pub open spec fn rat_one() -> Rat {
    Rat { n: 1, d: 1 }
}

/// The rational value zero.
pub open spec fn rat_zero() -> Rat {
    Rat { n: 0, d: 1 }
}

/// Two fractions denote the same rational number (cross multiplication).
pub open spec fn rat_eq(a: Rat, b: Rat) -> bool {
    a.n * b.d == b.n * a.d
}

/// The unreduced fraction sum.
pub open spec fn rat_add(a: Rat, b: Rat) -> Rat {
    Rat { n: a.n * b.d + b.n * a.d, d: a.d * b.d }
}

/// The unreduced fraction difference.
pub open spec fn rat_sub(a: Rat, b: Rat) -> Rat {
    Rat { n: a.n * b.d - b.n * a.d, d: a.d * b.d }
}

/// The unreduced fraction product.
pub open spec fn rat_mul(a: Rat, b: Rat) -> Rat {
    Rat { n: a.n * b.n, d: a.d * b.d }
}

/// The negation of a fraction.
pub open spec fn rat_neg(a: Rat) -> Rat {
    Rat { n: -a.n, d: a.d }
}

/// The unreduced fraction quotient, with the sign moved into the numerator
/// so that the denominator stays positive. Meaningful only when `b.n != 0`.
pub open spec fn rat_div(a: Rat, b: Rat) -> Rat {
    if b.n >= 0 {
        Rat { n: a.n * b.d, d: a.d * b.n }
    } else {
        Rat { n: -(a.n * b.d), d: a.d * -b.n }
    }
}

/// Whether an unbounded integer fits in 64 signed bits.
pub open spec fn in_i64(x: int) -> bool {
    i64::MIN <= x <= i64::MAX
}

/// Whether both components of a fraction fit in 64 signed bits.
pub open spec fn rat_in_range(r: Rat) -> bool {
    in_i64(r.n) && in_i64(r.d)
}

/// The views of a sequence of stored rationals.
pub open spec fn rats_of(s: Seq<Rational>) -> Seq<Rat> {
    s.map_values(|r: Rational| r@)
}

/// Every element of the sequence is a well-formed rational value.
pub open spec fn rats_wf(s: Seq<Rat>) -> bool {
    forall|i: int| 0 <= i < s.len() ==> rat_wf(#[trigger] s[i])
}

/// An exact rational scalar: `num / den` with `den > 0`.
///
/// Fractions are compared for identity structurally (`==` on both
/// components); use [`Rational::eq_value`] to compare the rational numbers
/// they denote.
#[derive(Clone, Copy, Debug, PartialEq, Eq, Structural)]
pub struct Rational {
    num: i64,
    den: i64,
}

impl View for Rational {
    type V = Rat;

    closed spec fn view(&self) -> Rat {
        Rat { n: self.num as int, d: self.den as int }
    }
}

proof fn lemma_prod_fits_i128(x: int, y: int)
    requires
        i64::MIN <= x <= i64::MAX,
        i64::MIN <= y <= i64::MAX,
    ensures
        -0x40000000000000000000000000000000 <= x * y
            <= 0x40000000000000000000000000000000,
{
    assert(-0x40000000000000000000000000000000 <= x * y
        <= 0x40000000000000000000000000000000) by (nonlinear_arith)
        requires
            -0x8000000000000000 <= x <= 0x7fffffffffffffff,
            -0x8000000000000000 <= y <= 0x7fffffffffffffff,
    ;
}

proof fn lemma_prod_by_den_fits(x: int, y: int)
    requires
        i64::MIN <= x <= i64::MAX,
        0 < y <= i64::MAX,
    ensures
        -0x3fffffffffffffff8000000000000000 <= x * y
            <= 0x3fffffffffffffff8000000000000000,
{
    assert(-0x3fffffffffffffff8000000000000000 <= x * y
        <= 0x3fffffffffffffff8000000000000000) by (nonlinear_arith)
        requires
            -0x8000000000000000 <= x <= 0x7fffffffffffffff,
            0 < y <= 0x7fffffffffffffff,
    ;
}

proof fn lemma_den_prod_positive(x: int, y: int)
    requires
        0 < x <= i64::MAX,
        0 < y <= i64::MAX,
    ensures
        0 < x * y <= 0x40000000000000000000000000000000,
{
    assert(0 < x * y) by (nonlinear_arith)
        requires
            0 < x,
            0 < y,
    ;
    lemma_prod_fits_i128(x, y);
}

impl Rational {
    /// The integer `value` as a rational with denominator one.
    pub fn from_int(value: i64) -> (r: Rational)
        ensures
            r@ == (Rat { n: value as int, d: 1 }),
            rat_wf(r@),
    {
        Rational { num: value, den: 1 }
    }

    /// The fraction `num / den`. Fails with `DivisionByZero` when `den` is
    /// zero; a negative denominator is moved into the numerator, which can
    /// overflow at the very edge of the 64-bit range.
    pub fn new(num: i64, den: i64) -> (r: Result<Rational, Error>)
        ensures
            den == 0 ==> r == Err::<Rational, Error>(Error::DivisionByZero),
            den > 0 ==> (r matches Ok(v) && v@ == (Rat { n: num as int, d: den as int })),
            den < 0 && (num == i64::MIN || den == i64::MIN) ==> r == Err::<
                Rational,
                Error,
            >(Error::Overflow),
            den < 0 && num != i64::MIN && den != i64::MIN ==> {
                &&& r is Ok
                &&& r matches Ok(v) && v@ == (Rat { n: -(num as int), d: -(den as int) })
            },
            r matches Ok(v) ==> rat_wf(v@) && rat_eq(v@, Rat { n: num as int, d: den as int }),
    {
        if den == 0 {
            Err(Error::DivisionByZero)
        } else if den > 0 {
            Ok(Rational { num, den })
        } else if num == i64::MIN || den == i64::MIN {
            Err(Error::Overflow)
        } else {
            proof {
                assert(-(num as int) * (den as int) == (num as int) * -(den as int))
                    by (nonlinear_arith);
            }
            Ok(Rational { num: -num, den: -den })
        }
    }

    /// The numerator.
    pub fn numerator(&self) -> (r: i64)
        ensures
            r as int == self@.n,
    {
        self.num
    }

    /// The denominator, always positive for a well-formed value.
    pub fn denominator(&self) -> (r: i64)
        ensures
            r as int == self@.d,
    {
        self.den
    }

    /// Whether `self` and `other` denote the same rational number, even if
    /// their unreduced components differ.
    pub fn eq_value(&self, other: &Rational) -> (r: bool)
        requires
            rat_wf(self@),
            rat_wf(other@),
        ensures
            r == rat_eq(self@, other@),
    {
        proof {
            lemma_prod_fits_i128(self@.n, other@.d);
            lemma_prod_fits_i128(other@.n, self@.d);
        }
        let lhs: i128 = (self.num as i128) * (other.den as i128);
        let rhs: i128 = (other.num as i128) * (self.den as i128);
        lhs == rhs
    }

    /// The exact sum, or `None` when a component leaves the 64-bit range.
    pub fn checked_add(&self, other: &Rational) -> (r: Option<Rational>)
        requires
            rat_wf(self@),
            rat_wf(other@),
        ensures
            r matches Some(v) ==> v@ == rat_add(self@, other@) && rat_wf(v@),
            r is Some <==> rat_in_range(rat_add(self@, other@)),
    {
        proof {
            lemma_prod_by_den_fits(self@.n, other@.d);
            lemma_prod_by_den_fits(other@.n, self@.d);
            lemma_den_prod_positive(self@.d, other@.d);
        }
        let n: i128 = (self.num as i128) * (other.den as i128) + (other.num as i128)
            * (self.den as i128);
        let d: i128 = (self.den as i128) * (other.den as i128);
        Self::pack(n, d)
    }

    /// The exact difference, or `None` when a component leaves the 64-bit
    /// range.
    pub fn checked_sub(&self, other: &Rational) -> (r: Option<Rational>)
        requires
            rat_wf(self@),
            rat_wf(other@),
        ensures
            r matches Some(v) ==> v@ == rat_sub(self@, other@) && rat_wf(v@),
            r is Some <==> rat_in_range(rat_sub(self@, other@)),
    {
        proof {
            lemma_prod_by_den_fits(self@.n, other@.d);
            lemma_prod_by_den_fits(other@.n, self@.d);
            lemma_den_prod_positive(self@.d, other@.d);
        }
        let n: i128 = (self.num as i128) * (other.den as i128) - (other.num as i128)
            * (self.den as i128);
        let d: i128 = (self.den as i128) * (other.den as i128);
        Self::pack(n, d)
    }

    /// The exact product, or `None` when a component leaves the 64-bit
    /// range.
    pub fn checked_mul(&self, other: &Rational) -> (r: Option<Rational>)
        requires
            rat_wf(self@),
            rat_wf(other@),
        ensures
            r matches Some(v) ==> v@ == rat_mul(self@, other@) && rat_wf(v@),
            r is Some <==> rat_in_range(rat_mul(self@, other@)),
    {
        proof {
            lemma_prod_fits_i128(self@.n, other@.n);
            lemma_den_prod_positive(self@.d, other@.d);
        }
        let n: i128 = (self.num as i128) * (other.num as i128);
        let d: i128 = (self.den as i128) * (other.den as i128);
        Self::pack(n, d)
    }

    /// The exact negation, or `None` at the very edge of the 64-bit range.
    pub fn checked_neg(&self) -> (r: Option<Rational>)
        requires
            rat_wf(self@),
        ensures
            r matches Some(v) ==> v@ == rat_neg(self@) && rat_wf(v@),
            r is Some <==> rat_in_range(rat_neg(self@)),
    {
        if self.num == i64::MIN {
            None
        } else {
            Some(Rational { num: -self.num, den: self.den })
        }
    }

    /// The exact quotient. Fails with `DivisionByZero` when `other` is zero
    /// and with `Overflow` when a component leaves the 64-bit range.
    pub fn checked_div(&self, other: &Rational) -> (r: Result<Rational, Error>)
        requires
            rat_wf(self@),
            rat_wf(other@),
        ensures
            other@.n == 0 ==> r == Err::<Rational, Error>(Error::DivisionByZero),
            other@.n != 0 ==> {
                &&& (r matches Ok(v) ==> v@ == rat_div(self@, other@) && rat_wf(v@))
                &&& (r is Ok <==> rat_in_range(rat_div(self@, other@)))
                &&& (r is Err ==> r == Err::<Rational, Error>(Error::Overflow))
            },
    {
        if other.num == 0 {
            return Err(Error::DivisionByZero);
        }
        proof {
            lemma_prod_fits_i128(self@.n, other@.d);
            lemma_prod_fits_i128(self@.d, other@.n);
        }
        let n128: i128 = (self.num as i128) * (other.den as i128);
        let d128: i128 = (self.den as i128) * (other.num as i128);
        let (n, d): (i128, i128) = if other.num > 0 {
            (n128, d128)
        } else {
            proof {
                assert(-(self@.d * other@.n) == self@.d * -other@.n) by (nonlinear_arith);
            }
            (-n128, -d128)
        };
        proof {
            assert(d == rat_div(self@, other@).d && n == rat_div(self@, other@).n);
            assert(rat_div(self@, other@).d > 0) by (nonlinear_arith)
                requires
                    self@.d > 0,
                    other@.n != 0,
                    rat_div(self@, other@).d == (if other@.n >= 0 {
                        self@.d * other@.n
                    } else {
                        self@.d * -other@.n
                    }),
            ;
        }
        match Self::pack(n, d) {
            Some(v) => Ok(v),
            None => Err(Error::Overflow),
        }
    }

    /// Narrows an exact fraction with positive denominator back to 64-bit
    /// components.
    fn pack(n: i128, d: i128) -> (r: Option<Rational>)
        requires
            d > 0,
        ensures
            r matches Some(v) ==> v@ == (Rat { n: n as int, d: d as int }) && rat_wf(v@),
            r is Some <==> rat_in_range(Rat { n: n as int, d: d as int }),
    {
        if n >= i64::MIN as i128 && n <= i64::MAX as i128 && d <= i64::MAX as i128 {
            Some(Rational { num: n as i64, den: d as i64 })
        } else {
            None
        }
    }
}

} // verus!
