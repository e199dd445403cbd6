//! Binary floating-point numbers, held by their bit patterns.
//!
//! Every operation gives the exact result rounded to the nearest number of the
//! format, and of two the one with an even last digit. What is not a number has
//! one pattern here.
use crate::magnitude::{
    add_magnitudes, div_magnitudes, gap, integral_magnitude, lemma_units_monotonic, made_whole,
    mul_magnitudes, narrow_magnitude, sub_magnitudes, unit, whole, whole_magnitude, whole_part,
    widen_magnitude, Toward,
};
use crate::rounding::{
    exec_infinite, infinite, lemma_two_pos, lemma_two_values, rounded, two, units,
};
use vstd::prelude::*;

verus! {

/// A number of 53 significant bits.
#[derive(Clone, Copy, Debug, PartialEq, Eq, Structural)]
pub struct Real {
    pub bits: u64,
}

/// A number of 24 significant bits.
#[derive(Clone, Copy, Debug, PartialEq, Eq, Structural)]
pub struct Real32 {
    pub bits: u32,
}

/// The sign and the magnitude of a number.
#[derive(Clone, Copy, Debug, PartialEq, Eq, Structural)]
pub struct Num {
    pub neg: bool,
    pub mag: u64,
}

/// The magnitude of what is not a number.
pub open spec fn nan_magnitude(p: nat) -> u64 {
    if p == 24 {
        0x7fc0_0000
    } else {
        0x7ff8_0000_0000_0000
    }
}

pub open spec fn nan(p: nat) -> Num {
    Num { neg: false, mag: nan_magnitude(p) }
}

impl Num {
    pub open spec fn is_finite(self, p: nat) -> bool {
        self.mag < infinite(p)
    }

    pub open spec fn is_infinite(self, p: nat) -> bool {
        self.mag == infinite(p)
    }

    pub open spec fn is_nan(self, p: nat) -> bool {
        self.mag > infinite(p)
    }

    /// The value in the smallest units of the format.
    pub open spec fn value(self, p: nat) -> int {
        if self.neg {
            -(units(self.mag as nat, p) as int)
        } else {
            units(self.mag as nat, p) as int
        }
    }

    /// An integer that orders numbers as their values do.
    pub open spec fn rank(self) -> int {
        if self.neg {
            -(self.mag as int)
        } else {
            self.mag as int
        }
    }

    pub open spec fn negated(self) -> Num {
        Num { neg: !self.neg, mag: self.mag }
    }
}

/// The number nearest to `v` units.
pub open spec fn of_units(v: int, p: nat) -> Num {
    if v < 0 {
        Num { neg: true, mag: rounded((-v) as nat, 1, p) as u64 }
    } else {
        Num { neg: false, mag: rounded(v as nat, 1, p) as u64 }
    }
}

/// Whether the first number is less than the second.
pub open spec fn less(a: Num, b: Num, p: nat) -> bool {
    !a.is_nan(p) && !b.is_nan(p) && a.rank() < b.rank()
}

/// The sum of two numbers.
pub open spec fn sum(a: Num, b: Num, p: nat) -> Num {
    if a.is_nan(p) || b.is_nan(p) {
        nan(p)
    } else if a.is_infinite(p) {
        if b.is_infinite(p) && a.neg != b.neg {
            nan(p)
        } else {
            a
        }
    } else if b.is_infinite(p) {
        b
    } else if a.mag == 0 && b.mag == 0 {
        Num { neg: a.neg && b.neg, mag: 0 }
    } else {
        of_units(a.value(p) + b.value(p), p)
    }
}

/// The product of two numbers.
pub open spec fn product(a: Num, b: Num, p: nat) -> Num {
    let neg = a.neg != b.neg;
    if a.is_nan(p) || b.is_nan(p) {
        nan(p)
    } else if a.is_infinite(p) || b.is_infinite(p) {
        if a.mag == 0 || b.mag == 0 {
            nan(p)
        } else {
            Num { neg, mag: infinite(p) as u64 }
        }
    } else {
        Num {
            neg,
            mag: rounded(
                units(a.mag as nat, p) * units(b.mag as nat, p),
                two(unit(p)),
                p,
            ) as u64,
        }
    }
}

/// The quotient of two numbers.
pub open spec fn quotient(a: Num, b: Num, p: nat) -> Num {
    let neg = a.neg != b.neg;
    if a.is_nan(p) || b.is_nan(p) {
        nan(p)
    } else if a.is_infinite(p) {
        if b.is_infinite(p) {
            nan(p)
        } else {
            Num { neg, mag: infinite(p) as u64 }
        }
    } else if b.is_infinite(p) {
        Num { neg, mag: 0 }
    } else if b.mag == 0 {
        if a.mag == 0 {
            nan(p)
        } else {
            Num { neg, mag: infinite(p) as u64 }
        }
    } else {
        Num {
            neg,
            mag: rounded(units(a.mag as nat, p) * two(unit(p)), units(b.mag as nat, p), p) as u64,
        }
    }
}

/// A number made whole, its sign kept.
pub open spec fn integral(a: Num, toward: Toward, p: nat) -> Num {
    if a.is_finite(p) {
        Num {
            neg: a.neg,
            mag: rounded(made_whole(a.mag as nat, p, toward) * two(unit(p)), 1, p) as u64,
        }
    } else {
        a
    }
}

/// The larger of two numbers, or the one that is a number.
pub open spec fn larger(a: Num, b: Num, p: nat) -> Num {
    if a.is_nan(p) {
        b
    } else if less(a, b, p) {
        b
    } else {
        a
    }
}

/// The number nearest to a whole number.
pub open spec fn of_int(v: int, p: nat) -> Num {
    of_units(v * two(unit(p)), p)
}

/// The whole part of a number that a signed 64-bit integer can hold, the nearest
/// such integer beyond the range, and nothing where there is no number.
pub open spec fn to_int(a: Num, p: nat) -> int {
    if a.is_nan(p) {
        0
    } else if a.is_infinite(p) {
        if a.neg {
            i64::MIN as int
        } else {
            i64::MAX as int
        }
    } else {
        let w = whole(a.mag as nat, p);
        if a.neg {
            if -w < i64::MIN {
                i64::MIN as int
            } else {
                -w
            }
        } else {
            if w > i64::MAX {
                i64::MAX as int
            } else {
                w as int
            }
        }
    }
}

/// A magnitude of a format fits its pattern.
proof fn lemma_rounded_fits(n: nat, d: nat, p: nat)
    requires
        p == 24 || p == 53,
    ensures
        rounded(n, d, p) <= infinite(p) <= 0x7ff0_0000_0000_0000,
        p == 24 ==> infinite(p) == 0x7f80_0000,
        p == 53 ==> infinite(p) == 0x7ff0_0000_0000_0000,
{
    lemma_two_values();
}

pub fn num_sum(a: Num, b: Num, p: u32) -> (r: Num)
    requires
        p == 24 || p == 53,
    ensures
        r == sum(a, b, p as nat),
{
    let top: u64 = exec_infinite(p);
    if a.mag > top || b.mag > top {
        return exec_nan(p);
    }
    if a.mag == top {
        if b.mag == top && a.neg != b.neg {
            return exec_nan(p);
        }
        return a;
    }
    if b.mag == top {
        return b;
    }
    if a.mag == 0 && b.mag == 0 {
        return Num { neg: a.neg && b.neg, mag: 0 };
    }
    let ghost ua = units(a.mag as nat, p as nat);
    let ghost ub = units(b.mag as nat, p as nat);
    proof {
        lemma_two_values();
        lemma_positive(a.mag as nat, p as nat);
        lemma_positive(b.mag as nat, p as nat);
    }
    if a.neg == b.neg {
        let mag: u64 = add_magnitudes(a.mag, b.mag, p);
        assert(ua + ub > 0);
        Num { neg: a.neg, mag }
    } else if a.mag == b.mag {
        let mag: u64 = sub_magnitudes(a.mag, b.mag, p);
        Num { neg: false, mag }
    } else if a.mag > b.mag {
        proof {
            lemma_units_monotonic(b.mag as nat, a.mag as nat, p as nat);
        }
        let mag: u64 = sub_magnitudes(a.mag, b.mag, p);
        Num { neg: a.neg, mag }
    } else {
        proof {
            lemma_units_monotonic(a.mag as nat, b.mag as nat, p as nat);
        }
        let mag: u64 = sub_magnitudes(b.mag, a.mag, p);
        Num { neg: b.neg, mag }
    }
}

/// A magnitude above zero has a value above zero.
proof fn lemma_positive(m: nat, p: nat)
    requires
        p == 24 || p == 53,
    ensures
        m > 0 ==> units(m, p) > 0,
        units(0, p) == 0,
{
    lemma_two_values();
    if m > 0 {
        lemma_units_monotonic(0, m, p);
    }
}

fn exec_nan(p: u32) -> (r: Num)
    requires
        p == 24 || p == 53,
    ensures
        r == nan(p as nat),
{
    if p == 24 {
        Num { neg: false, mag: 0x7fc0_0000 }
    } else {
        Num { neg: false, mag: 0x7ff8_0000_0000_0000 }
    }
}

pub fn num_product(a: Num, b: Num, p: u32) -> (r: Num)
    requires
        p == 24 || p == 53,
    ensures
        r == product(a, b, p as nat),
{
    let top: u64 = exec_infinite(p);
    let neg: bool = a.neg != b.neg;
    if a.mag > top || b.mag > top {
        return exec_nan(p);
    }
    if a.mag == top || b.mag == top {
        if a.mag == 0 || b.mag == 0 {
            return exec_nan(p);
        }
        return Num { neg, mag: top };
    }
    Num { neg, mag: mul_magnitudes(a.mag, b.mag, p) }
}

pub fn num_quotient(a: Num, b: Num, p: u32) -> (r: Num)
    requires
        p == 24 || p == 53,
    ensures
        r == quotient(a, b, p as nat),
{
    let top: u64 = exec_infinite(p);
    let neg: bool = a.neg != b.neg;
    if a.mag > top || b.mag > top {
        return exec_nan(p);
    }
    if a.mag == top {
        if b.mag == top {
            return exec_nan(p);
        }
        return Num { neg, mag: top };
    }
    if b.mag == top {
        return Num { neg, mag: 0 };
    }
    if b.mag == 0 {
        if a.mag == 0 {
            return exec_nan(p);
        }
        return Num { neg, mag: top };
    }
    Num { neg, mag: div_magnitudes(a.mag, b.mag, p) }
}

pub fn num_integral(a: Num, toward: Toward, p: u32) -> (r: Num)
    requires
        p == 24 || p == 53,
    ensures
        r == integral(a, toward, p as nat),
{
    if a.mag < exec_infinite(p) {
        Num { neg: a.neg, mag: integral_magnitude(a.mag, p, toward) }
    } else {
        a
    }
}

pub fn num_less(a: Num, b: Num, p: u32) -> (r: bool)
    requires
        p == 24 || p == 53,
    ensures
        r == less(a, b, p as nat),
{
    let top: u64 = exec_infinite(p);
    if a.mag > top || b.mag > top {
        return false;
    }
    if a.neg {
        if b.neg {
            b.mag < a.mag
        } else {
            a.mag != 0 || b.mag != 0
        }
    } else {
        if b.neg {
            false
        } else {
            a.mag < b.mag
        }
    }
}

pub fn num_of_int(v: i64, p: u32) -> (r: Num)
    requires
        p == 24 || p == 53,
    ensures
        r == of_int(v as int, p as nat),
{
    let ghost t = two(unit(p as nat));
    proof {
        lemma_two_pos(unit(p as nat));
    }
    if v < 0 {
        let size: u64 = (-(v as i128)) as u64;
        proof {
            assert(v * t < 0) by (nonlinear_arith)
                requires
                    v < 0,
                    t > 0,
            ;
            assert(-(v * t) == size * t) by (nonlinear_arith)
                requires
                    size == -v,
            ;
        }
        Num { neg: true, mag: whole_magnitude(size, p) }
    } else {
        proof {
            assert(v * t >= 0) by (nonlinear_arith)
                requires
                    v >= 0,
            ;
        }
        Num { neg: false, mag: whole_magnitude(v as u64, p) }
    }
}

impl Real {
    /// The sign and the magnitude.
    pub open spec fn num(self) -> Num {
        if self.bits < 0x8000_0000_0000_0000 {
            Num { neg: false, mag: self.bits }
        } else {
            Num { neg: true, mag: (self.bits - 0x8000_0000_0000_0000) as u64 }
        }
    }

    /// The number with a sign and a magnitude.
    pub open spec fn from_num(n: Num) -> Real {
        if n.neg {
            Real { bits: (n.mag + 0x8000_0000_0000_0000) as u64 }
        } else {
            Real { bits: n.mag }
        }
    }

    pub open spec fn finite(self) -> bool {
        self.num().is_finite(53)
    }

    /// Whether it is a number that is finite and not below zero.
    pub open spec fn amount(self) -> bool {
        self.num().is_finite(53) && !less(self.num(), Real { bits: ZERO }.num(), 53)
    }

    pub open spec fn lt(self, other: Real) -> bool {
        less(self.num(), other.num(), 53)
    }

    pub open spec fn le(self, other: Real) -> bool {
        !self.num().is_nan(53) && !other.num().is_nan(53) && self.num().rank()
            <= other.num().rank()
    }

    pub open spec fn plus(self, other: Real) -> Real {
        Real::from_num(sum(self.num(), other.num(), 53))
    }

    pub open spec fn minus(self, other: Real) -> Real {
        Real::from_num(sum(self.num(), other.num().negated(), 53))
    }

    pub open spec fn times(self, other: Real) -> Real {
        Real::from_num(product(self.num(), other.num(), 53))
    }

    pub open spec fn over(self, other: Real) -> Real {
        Real::from_num(quotient(self.num(), other.num(), 53))
    }

    pub open spec fn rounding(self, toward: Toward) -> Real {
        Real::from_num(integral(self.num(), toward, 53))
    }

    /// The least whole number that is not below.
    pub open spec fn ceiling(self) -> Real {
        self.rounding(
            if self.num().neg {
                Toward::Zero
            } else {
                Toward::Up
            },
        )
    }

    pub open spec fn or_larger(self, other: Real) -> Real {
        Real::from_num(larger(self.num(), other.num(), 53))
    }

    /// The number itself between two bounds, else the bound that it passes.
    pub open spec fn within(self, low: Real, high: Real) -> Real {
        if self.lt(low) {
            low
        } else if high.lt(self) {
            high
        } else {
            self
        }
    }

    pub open spec fn of(v: int) -> Real {
        Real::from_num(of_int(v, 53))
    }

    pub open spec fn as_int(self) -> int {
        to_int(self.num(), 53)
    }

    /// The nearest number of 24 bits.
    pub open spec fn narrowed(self) -> Real32 {
        let n = self.num();
        if n.is_nan(53) {
            Real32::from_num(nan(24))
        } else if n.is_infinite(53) {
            Real32::from_num(Num { neg: n.neg, mag: infinite(24) as u64 })
        } else {
            Real32::from_num(
                Num { neg: n.neg, mag: rounded(units(n.mag as nat, 53), two(gap()), 24) as u64 },
            )
        }
    }

    pub(crate) fn exec_num(&self) -> (r: Num)
        ensures
            r == self.num(),
    {
        if self.bits < 0x8000_0000_0000_0000 {
            Num { neg: false, mag: self.bits }
        } else {
            Num { neg: true, mag: self.bits - 0x8000_0000_0000_0000 }
        }
    }

    fn exec_from(n: Num) -> (r: Real)
        requires
            n.mag < 0x8000_0000_0000_0000,
        ensures
            r == Real::from_num(n),
    {
        if n.neg {
            Real { bits: n.mag + 0x8000_0000_0000_0000 }
        } else {
            Real { bits: n.mag }
        }
    }

    pub fn is_finite(&self) -> (r: bool)
        ensures
            r == self.finite(),
    {
        self.exec_num().mag < exec_infinite(53)
    }

    /// Whether it is finite and not below zero.
    pub fn is_amount(&self) -> (r: bool)
        ensures
            r == self.amount(),
    {
        self.is_finite() && !self.less_than(&Real { bits: ZERO })
    }

    pub fn less_than(&self, other: &Real) -> (r: bool)
        ensures
            r == self.lt(*other),
    {
        num_less(self.exec_num(), other.exec_num(), 53)
    }

    pub fn at_most(&self, other: &Real) -> (r: bool)
        ensures
            r == self.le(*other),
    {
        let top: u64 = exec_infinite(53);
        self.exec_num().mag <= top && other.exec_num().mag <= top && !other.less_than(self)
    }

    pub fn add(&self, other: &Real) -> (r: Real)
        ensures
            r == self.plus(*other),
    {
        let n = num_sum(self.exec_num(), other.exec_num(), 53);
        proof {
            lemma_sum_fits(self.num(), other.num());
        }
        Real::exec_from(n)
    }

    pub fn sub(&self, other: &Real) -> (r: Real)
        ensures
            r == self.minus(*other),
    {
        let b = other.exec_num();
        let b = Num { neg: !b.neg, mag: b.mag };
        let n = num_sum(self.exec_num(), b, 53);
        proof {
            lemma_sum_fits(self.num(), b);
        }
        Real::exec_from(n)
    }

    pub fn mul(&self, other: &Real) -> (r: Real)
        ensures
            r == self.times(*other),
    {
        let n = num_product(self.exec_num(), other.exec_num(), 53);
        proof {
            let (a, b) = (self.num(), other.num());
            lemma_rounded_fits(
                units(a.mag as nat, 53) * units(b.mag as nat, 53),
                two(unit(53)),
                53,
            );
        }
        Real::exec_from(n)
    }

    pub fn div(&self, other: &Real) -> (r: Real)
        ensures
            r == self.over(*other),
    {
        let n = num_quotient(self.exec_num(), other.exec_num(), 53);
        proof {
            let (a, b) = (self.num(), other.num());
            lemma_rounded_fits(
                units(a.mag as nat, 53) * two(unit(53)),
                units(b.mag as nat, 53),
                53,
            );
        }
        Real::exec_from(n)
    }

    fn integral(&self, toward: Toward) -> (r: Real)
        ensures
            r == self.rounding(toward),
    {
        let n = num_integral(self.exec_num(), toward, 53);
        proof {
            let a = self.num();
            lemma_rounded_fits(made_whole(a.mag as nat, 53, toward) * two(unit(53)), 1, 53);
        }
        Real::exec_from(n)
    }

    pub fn ceil(&self) -> (r: Real)
        ensures
            r == self.ceiling(),
    {
        let toward = if self.exec_num().neg {
            Toward::Zero
        } else {
            Toward::Up
        };
        self.integral(toward)
    }

    /// The nearest whole number, away from zero from the middle.
    pub fn round(&self) -> (r: Real)
        ensures
            r == self.rounding(Toward::Nearest),
    {
        self.integral(Toward::Nearest)
    }

    pub fn trunc(&self) -> (r: Real)
        ensures
            r == self.rounding(Toward::Zero),
    {
        self.integral(Toward::Zero)
    }

    pub fn max(&self, other: &Real) -> (r: Real)
        ensures
            r == self.or_larger(*other),
    {
        if self.exec_num().mag > exec_infinite(53) {
            *other
        } else if self.less_than(other) {
            *other
        } else {
            *self
        }
    }

    pub fn clamp(&self, low: &Real, high: &Real) -> (r: Real)
        ensures
            r == self.within(*low, *high),
    {
        if self.less_than(low) {
            *low
        } else if high.less_than(self) {
            *high
        } else {
            *self
        }
    }

    pub fn from_i64(v: i64) -> (r: Real)
        ensures
            r == Real::of(v as int),
    {
        let n = num_of_int(v, 53);
        proof {
            lemma_of_units_fits(v * two(unit(53)), 53);
        }
        Real::exec_from(n)
    }

    /// The whole part, as far as a 64-bit integer can hold it.
    pub fn to_i64(&self) -> (v: i64)
        ensures
            v == self.as_int(),
    {
        let n = self.exec_num();
        let top: u64 = exec_infinite(53);
        if n.mag > top {
            return 0;
        }
        if n.mag == top {
            return if n.neg {
                i64::MIN
            } else {
                i64::MAX
            };
        }
        let w: u128 = whole_part(n.mag, 53);
        if n.neg {
            if w > 0x8000_0000_0000_0000 {
                i64::MIN
            } else {
                (-(w as i128)) as i64
            }
        } else {
            if w > 0x7fff_ffff_ffff_ffff {
                i64::MAX
            } else {
                w as i64
            }
        }
    }

    /// The nearest number of 24 bits.
    pub fn narrow(&self) -> (r: Real32)
        ensures
            r == self.narrowed(),
    {
        let n = self.exec_num();
        let top: u64 = exec_infinite(53);
        proof {
            lemma_two_values();
        }
        if n.mag > top {
            return Real32::exec_from(exec_nan(24));
        }
        if n.mag == top {
            return Real32::exec_from(Num { neg: n.neg, mag: exec_infinite(24) });
        }
        let mag: u64 = narrow_magnitude(n.mag);
        proof {
            lemma_rounded_fits(units(n.mag as nat, 53), two(gap()), 24);
        }
        Real32::exec_from(Num { neg: n.neg, mag })
    }
}

proof fn lemma_sum_fits(a: Num, b: Num)
    requires
        a.mag < 0x8000_0000_0000_0000,
        b.mag < 0x8000_0000_0000_0000,
    ensures
        sum(a, b, 53).mag < 0x8000_0000_0000_0000,
{
    lemma_of_units_fits(a.value(53) + b.value(53), 53);
}

proof fn lemma_of_units_fits(v: int, p: nat)
    requires
        p == 24 || p == 53,
    ensures
        p == 53 ==> of_units(v, p).mag < 0x8000_0000_0000_0000,
        p == 24 ==> of_units(v, p).mag < 0x8000_0000,
{
    if v < 0 {
        lemma_rounded_fits((-v) as nat, 1, p);
    } else {
        lemma_rounded_fits(v as nat, 1, p);
    }
}

impl Real32 {
    pub open spec fn num(self) -> Num {
        if self.bits < 0x8000_0000 {
            Num { neg: false, mag: self.bits as u64 }
        } else {
            Num { neg: true, mag: (self.bits - 0x8000_0000) as u64 }
        }
    }

    pub open spec fn from_num(n: Num) -> Real32 {
        if n.neg {
            Real32 { bits: (n.mag + 0x8000_0000) as u32 }
        } else {
            Real32 { bits: n.mag as u32 }
        }
    }

    /// Whether it is a number that is finite and not below zero.
    pub open spec fn amount(self) -> bool {
        self.num().is_finite(24) && !less(self.num(), Num { neg: false, mag: 0 }, 24)
    }

    pub open spec fn plus(self, other: Real32) -> Real32 {
        Real32::from_num(sum(self.num(), other.num(), 24))
    }

    pub open spec fn times(self, other: Real32) -> Real32 {
        Real32::from_num(product(self.num(), other.num(), 24))
    }

    pub open spec fn truncated(self) -> Real32 {
        Real32::from_num(integral(self.num(), Toward::Zero, 24))
    }

    pub open spec fn of(v: int) -> Real32 {
        Real32::from_num(of_int(v, 24))
    }

    /// The same value with 53 bits.
    pub open spec fn widened(self) -> Real {
        let n = self.num();
        if n.is_nan(24) {
            Real::from_num(nan(53))
        } else if n.is_infinite(24) {
            Real::from_num(Num { neg: n.neg, mag: infinite(53) as u64 })
        } else {
            Real::from_num(
                Num {
                    neg: n.neg,
                    mag: rounded(units(n.mag as nat, 24) * two(gap()), 1, 53) as u64,
                },
            )
        }
    }

    fn exec_num(&self) -> (r: Num)
        ensures
            r == self.num(),
    {
        if self.bits < 0x8000_0000 {
            Num { neg: false, mag: self.bits as u64 }
        } else {
            Num { neg: true, mag: (self.bits - 0x8000_0000) as u64 }
        }
    }

    fn exec_from(n: Num) -> (r: Real32)
        requires
            n.mag < 0x8000_0000,
        ensures
            r == Real32::from_num(n),
    {
        if n.neg {
            Real32 { bits: (n.mag + 0x8000_0000) as u32 }
        } else {
            Real32 { bits: n.mag as u32 }
        }
    }

    /// Whether it is finite and not below zero.
    pub fn is_amount(&self) -> (r: bool)
        ensures
            r == self.amount(),
    {
        let n = self.exec_num();
        n.mag < exec_infinite(24) && !num_less(n, Num { neg: false, mag: 0 }, 24)
    }

    pub fn add(&self, other: &Real32) -> (r: Real32)
        ensures
            r == self.plus(*other),
    {
        let n = num_sum(self.exec_num(), other.exec_num(), 24);
        proof {
            lemma_of_units_fits(self.num().value(24) + other.num().value(24), 24);
        }
        Real32::exec_from(n)
    }

    pub fn mul(&self, other: &Real32) -> (r: Real32)
        ensures
            r == self.times(*other),
    {
        let n = num_product(self.exec_num(), other.exec_num(), 24);
        proof {
            let (a, b) = (self.num(), other.num());
            lemma_rounded_fits(
                units(a.mag as nat, 24) * units(b.mag as nat, 24),
                two(unit(24)),
                24,
            );
        }
        Real32::exec_from(n)
    }

    pub fn trunc(&self) -> (r: Real32)
        ensures
            r == self.truncated(),
    {
        let n = num_integral(self.exec_num(), Toward::Zero, 24);
        proof {
            let a = self.num();
            lemma_rounded_fits(made_whole(a.mag as nat, 24, Toward::Zero) * two(unit(24)), 1, 24);
        }
        Real32::exec_from(n)
    }

    pub fn from_i64(v: i64) -> (r: Real32)
        ensures
            r == Real32::of(v as int),
    {
        let n = num_of_int(v, 24);
        proof {
            lemma_of_units_fits(v * two(unit(24)), 24);
        }
        Real32::exec_from(n)
    }

    /// The same value with 53 bits.
    pub fn widen(&self) -> (r: Real)
        ensures
            r == self.widened(),
    {
        let n = self.exec_num();
        let top: u64 = exec_infinite(24);
        proof {
            lemma_two_values();
        }
        if n.mag > top {
            return Real::exec_from(exec_nan(53));
        }
        if n.mag == top {
            return Real::exec_from(Num { neg: n.neg, mag: exec_infinite(53) });
        }
        let mag: u64 = widen_magnitude(n.mag);
        proof {
            lemma_rounded_fits(units(n.mag as nat, 24) * two(gap()), 1, 53);
        }
        Real::exec_from(Num { neg: n.neg, mag })
    }
}

/// The pattern of zero.
pub const ZERO: u64 = 0;

/// The pattern of one.
pub const ONE: u64 = 0x3ff0_0000_0000_0000;

/// The pattern of one, with 24 bits.
pub const ONE_32: u32 = 0x3f80_0000;

} // verus!
