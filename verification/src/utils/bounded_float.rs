//! Numbers that are guaranteed to lie in a closed range.
//!
//! Magnitudes are exact fractions. A [`Fraction`] whose denominator is zero
//! is not a number; every other fraction stands for `num / den`.

use vstd::prelude::*;
use vstd::std_specs::cmp::PartialEqSpecImpl;

verus! {

/// An exact fraction `num / den`. A zero denominator marks a value that is
/// not a number.
#[derive(Debug, Clone, Copy)]
pub struct Fraction {
    pub num: i64,
    pub den: u32,
}

/// The exact result of adding or subtracting two bounded values. It may lie
/// outside the range of either operand. The denominator is never zero.
#[derive(Debug, Clone, Copy)]
pub struct WideFraction {
    pub num: i128,
    pub den: u64,
}

impl Fraction {
    /// The fraction is not a number.
    pub open spec fn is_nan(self) -> bool {
        self.den == 0
    }

    /// `self <= other` as magnitudes; meaningful when neither is not-a-number.
    pub open spec fn le_spec(self, other: Fraction) -> bool {
        self.num * other.den <= other.num * self.den
    }

    /// `self < other` as magnitudes; meaningful when neither is not-a-number.
    pub open spec fn lt_spec(self, other: Fraction) -> bool {
        self.num * other.den < other.num * self.den
    }

    /// The two fractions stand for the same magnitude.
    pub open spec fn same_value(self, other: Fraction) -> bool {
        self.num * other.den == other.num * self.den
    }

    /// The magnitude lies in the closed range from `low` to `high`.
    pub open spec fn within(self, low: int, high: int) -> bool {
        low * self.den <= self.num <= high * self.den
    }

    /// The fraction `num / den`.
    pub fn new(num: i64, den: u32) -> (f: Fraction)
        ensures
            f.num == num,
            f.den == den,
    {
        Fraction { num, den }
    }

    /// The fraction that stands for the whole number `n`.
    pub fn whole(n: i64) -> (f: Fraction)
        ensures
            f.num == n,
            f.den == 1,
    {
        Fraction { num: n, den: 1 }
    }

    /// Whether the fraction is not a number.
    pub fn is_not_a_number(&self) -> (r: bool)
        ensures
            r == self.is_nan(),
    {
        self.den == 0
    }

    /// Whether `self <= other`.
    pub fn le(&self, other: &Fraction) -> (r: bool)
        ensures
            r == self.le_spec(*other),
    {
        let (a, b) = cross(self.num, self.den, other.num, other.den);
        a <= b
    }

    /// Whether `self < other`.
    pub fn lt(&self, other: &Fraction) -> (r: bool)
        ensures
            r == self.lt_spec(*other),
    {
        let (a, b) = cross(self.num, self.den, other.num, other.den);
        a < b
    }

    /// Whether the two fractions stand for the same magnitude.
    pub fn same(&self, other: &Fraction) -> (r: bool)
        ensures
            r == self.same_value(*other),
    {
        let (a, b) = cross(self.num, self.den, other.num, other.den);
        a == b
    }
}

/// The two cross products `n1 * d2` and `n2 * d1` by which `n1 / d1` and
/// `n2 / d2` are compared.
pub fn cross(n1: i64, d1: u32, n2: i64, d2: u32) -> (r: (i128, i128))
    ensures
        r.0 == n1 * d2,
        r.1 == n2 * d1,
{
    proof {
        lemma_product_bound(n1 as int, d2 as int);
        lemma_product_bound(n2 as int, d1 as int);
    }
    let n1w: i128 = n1 as i128;
    let n2w: i128 = n2 as i128;
    let d1w: i128 = d1 as i128;
    let d2w: i128 = d2 as i128;
    (n1w * d2w, n2w * d1w)
}

/// A 64-bit numerator times a 32-bit denominator stays far inside 128 bits.
pub proof fn lemma_product_bound(n: int, d: int)
    requires
        -0x8000_0000_0000_0000 <= n < 0x8000_0000_0000_0000,
        0 <= d < 0x1_0000_0000,
    ensures
        -0x8000_0000_0000_0000_0000_0000 <= n * d <= 0x8000_0000_0000_0000_0000_0000,
{
    assert(-0x8000_0000_0000_0000 * 0x1_0000_0000 <= n * d <= 0x8000_0000_0000_0000
        * 0x1_0000_0000) by (nonlinear_arith)
        requires
            -0x8000_0000_0000_0000 <= n < 0x8000_0000_0000_0000,
            0 <= d < 0x1_0000_0000,
    ;
}

/// Whether `value` is a value of the closed range from `low` to `high`:
/// it is a number, and it is neither less than `low` nor greater than
/// `high`.
pub open spec fn accepts(value: Fraction, low: int, high: int) -> bool {
    !value.is_nan() && value.within(low, high)
}

/// A value that lies in the closed range from `low` to `high`.
///
/// A bounded value can only be made by [`BoundedFloat::new`], which checks the
/// range, so every value of this type is a number inside its range.
#[derive(Debug, Clone, Copy)]
pub struct BoundedFloat {
    num: i64,
    den: u32,
    low: i16,
    high: i16,
}

impl BoundedFloat {
    /// Every bounded value is a number and lies inside its own range.
    #[verifier::type_invariant]
    pub closed spec fn wf(self) -> bool {
        &&& self.den > 0
        &&& self.low * self.den <= self.num <= self.high * self.den
    }

    /// The magnitude of the bounded value.
    pub closed spec fn value(self) -> Fraction {
        Fraction { num: self.num, den: self.den }
    }

    /// The lower end of the range.
    pub closed spec fn low_spec(self) -> int {
        self.low as int
    }

    /// The upper end of the range.
    pub closed spec fn high_spec(self) -> int {
        self.high as int
    }

    /// A well-formed bounded value is a number inside its range.
    pub proof fn lemma_wf(self)
        requires
            self.wf(),
        ensures
            !self.value().is_nan(),
            self.value().within(self.low_spec(), self.high_spec()),
            self.low_spec() <= self.high_spec(),
    {
        let d = self.den as int;
        let lo = self.low as int;
        let hi = self.high as int;
        assert(lo <= hi) by (nonlinear_arith)
            requires
                d > 0,
                lo * d <= hi * d,
        ;
    }

    /// Both ends of a range are values of the range. What is not a number
    /// is a value of no range, and neither is what lies below the lower or
    /// above the upper end.
    pub proof fn lemma_accepts(value: Fraction, low: i16, high: i16)
        ensures
            low <= high ==> accepts(Fraction { num: low as i64, den: 1 }, low as int, high as int),
            low <= high ==> accepts(Fraction { num: high as i64, den: 1 }, low as int, high as int),
            value.is_nan() ==> !accepts(value, low as int, high as int),
            value.den > 0 && value.num < low * value.den ==> !accepts(
                value,
                low as int,
                high as int,
            ),
            value.den > 0 && value.num > high * value.den ==> !accepts(
                value,
                low as int,
                high as int,
            ),
    {
    }

    /// A bounded value with magnitude `value` in the range from `low` to
    /// `high`, both ends included. There is none when `value` is not a number
    /// or lies outside the range.
    pub fn new(value: Fraction, low: i16, high: i16) -> (r: Option<BoundedFloat>)
        ensures
            r is Some <==> accepts(value, low as int, high as int),
            r matches Some(b) ==> b.wf() && b.value() == value && b.low_spec() == low
                && b.high_spec() == high,
    {
        if value.den == 0 {
            return None;
        }
        let den: i128 = value.den as i128;
        let num: i128 = value.num as i128;
        let lo: i128 = low as i128;
        let hi: i128 = high as i128;
        proof {
            lemma_product_bound(low as int, value.den as int);
            lemma_product_bound(high as int, value.den as int);
        }
        if lo * den <= num && num <= hi * den {
            Some(BoundedFloat { num: value.num, den: value.den, low, high })
        } else {
            None
        }
    }

    /// The least value of the range from `low` to `high`.
    pub fn min(low: i16, high: i16) -> (r: BoundedFloat)
        requires
            low <= high,
        ensures
            r.wf(),
            r.value() == (Fraction { num: low as i64, den: 1 }),
            r.low_spec() == low,
            r.high_spec() == high,
    {
        BoundedFloat { num: low as i64, den: 1, low, high }
    }

    /// The greatest value of the range from `low` to `high`.
    pub fn max(low: i16, high: i16) -> (r: BoundedFloat)
        requires
            low <= high,
        ensures
            r.wf(),
            r.value() == (Fraction { num: high as i64, den: 1 }),
            r.low_spec() == low,
            r.high_spec() == high,
    {
        BoundedFloat { num: high as i64, den: 1, low, high }
    }

    /// The magnitude of the bounded value.
    pub fn get(&self) -> (f: Fraction)
        ensures
            f == self.value(),
            !f.is_nan(),
            f.within(self.low_spec(), self.high_spec()),
    {
        proof {
            use_type_invariant(self);
        }
        Fraction { num: self.num, den: self.den }
    }

    /// The lower end of the range.
    pub fn low(&self) -> (r: i16)
        ensures
            r == self.low_spec(),
    {
        self.low
    }

    /// The upper end of the range.
    pub fn high(&self) -> (r: i16)
        ensures
            r == self.high_spec(),
    {
        self.high
    }

    /// Whether `self` is less than `other`.
    pub fn lt(&self, other: &BoundedFloat) -> (r: bool)
        ensures
            r == self.value().lt_spec(other.value()),
    {
        self.get().lt(&other.get())
    }

    /// Whether `self` is at most `other`.
    pub fn le(&self, other: &BoundedFloat) -> (r: bool)
        ensures
            r == self.value().le_spec(other.value()),
    {
        self.get().le(&other.get())
    }

    /// The exact difference `self - other`, which may lie outside the range.
    pub fn sub(&self, other: &BoundedFloat) -> (r: WideFraction)
        ensures
            r.num == self.value().num * other.value().den - other.value().num * self.value().den,
            r.den == self.value().den * other.value().den,
            r.den > 0,
    {
        proof {
            use_type_invariant(self);
            use_type_invariant(other);
            lemma_product_bound(self.num as int, other.den as int);
            lemma_product_bound(other.num as int, self.den as int);
        }
        let (a, b) = cross(self.num, self.den, other.num, other.den);
        WideFraction { num: a - b, den: den_product(self.den, other.den) }
    }

    /// The exact sum `self + other`, which may lie outside the range.
    pub fn add(&self, other: &BoundedFloat) -> (r: WideFraction)
        ensures
            r.num == self.value().num * other.value().den + other.value().num * self.value().den,
            r.den == self.value().den * other.value().den,
            r.den > 0,
    {
        proof {
            use_type_invariant(self);
            use_type_invariant(other);
            lemma_product_bound(self.num as int, other.den as int);
            lemma_product_bound(other.num as int, self.den as int);
        }
        let (a, b) = cross(self.num, self.den, other.num, other.den);
        WideFraction { num: a + b, den: den_product(self.den, other.den) }
    }
}

/// The product of two non-zero 32-bit denominators.
fn den_product(a: u32, b: u32) -> (r: u64)
    requires
        a > 0,
        b > 0,
    ensures
        r == a * b,
        r > 0,
{
    assert(0 < a * b <= 0xFFFF_FFFF * 0xFFFF_FFFF) by (nonlinear_arith)
        requires
            0 < a <= 0xFFFF_FFFF,
            0 < b <= 0xFFFF_FFFF,
    ;
    let aw: u64 = a as u64;
    let bw: u64 = b as u64;
    aw * bw
}

impl PartialEq for BoundedFloat {
    /// Two bounded values are equal when their magnitudes are equal.
    fn eq(&self, other: &BoundedFloat) -> (r: bool) {
        self.get().same(&other.get())
    }
}

impl PartialEqSpecImpl for BoundedFloat {
    open spec fn obeys_eq_spec() -> bool {
        true
    }

    open spec fn eq_spec(&self, other: &BoundedFloat) -> bool {
        self.value().same_value(other.value())
    }
}

} // verus!
