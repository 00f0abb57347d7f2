//! The arithmetic that the rest of the crate computes with.
//!
//! Nothing in this crate fixes how a number is represented. A layer or an
//! optimizer works with a [`Single`] precision type, and accumulates in the
//! [`Double`] precision type that belongs to it. Each operation comes as a pair:
//! a specification function, which contracts speak of, and the executable
//! function that computes it. Sums and products are not taken to be associative
//! or distributive, so a contract over these functions fixes every operation and
//! the order in which the operations are carried out.
//!
//! What is taken of the operations stands in the proof functions of the traits:
//! facts about order, sign and the numbers zero and one that rounding keeps. Two
//! values that are not numbers are not told apart.
use vstd::pervasive::arbitrary;
use vstd::prelude::*;

verus! {

/// Operations that both precisions have.
pub trait Real: Copy + Sized {
    /// The number nearest to `mantissa * 10^exponent`.
    open spec fn decimal(mantissa: int, exponent: int) -> Self {
        arbitrary()
    }

    open spec fn positive_infinity() -> Self {
        arbitrary()
    }

    open spec fn not_a_number() -> Self {
        arbitrary()
    }

    open spec fn plus(self, other: Self) -> Self {
        arbitrary()
    }

    open spec fn minus(self, other: Self) -> Self {
        arbitrary()
    }

    open spec fn times(self, other: Self) -> Self {
        arbitrary()
    }

    open spec fn over(self, other: Self) -> Self {
        arbitrary()
    }

    open spec fn negated(self) -> Self {
        arbitrary()
    }

    /// `self * factor + addend` with a single rounding.
    open spec fn fused(self, factor: Self, addend: Self) -> Self {
        arbitrary()
    }

    open spec fn root(self) -> Self {
        arbitrary()
    }

    open spec fn magnitude(self) -> Self {
        arbitrary()
    }

    /// The larger of two numbers, or the number where only one operand is one.
    open spec fn larger(self, other: Self) -> Self {
        arbitrary()
    }

    /// The smaller of two numbers, or the number where only one operand is one.
    open spec fn smaller(self, other: Self) -> Self {
        arbitrary()
    }

    /// `self` raised to an integer power.
    open spec fn powered(self, exponent: i32) -> Self {
        arbitrary()
    }

    open spec fn finite(self) -> bool {
        arbitrary()
    }

    open spec fn undefined(self) -> bool {
        arbitrary()
    }

    open spec fn less(self, other: Self) -> bool {
        arbitrary()
    }

    open spec fn at_most(self, other: Self) -> bool {
        arbitrary()
    }

    open spec fn same(self, other: Self) -> bool {
        arbitrary()
    }

    /// The number in writing.
    open spec fn shown(self) -> Seq<char> {
        arbitrary()
    }

    /// One compares equal to itself.
    proof fn one_equals_one()
        ensures
            Self::decimal(1, 0).same(Self::decimal(1, 0)),
    ;

    /// Of two numbers the larger one is larger and the smaller one is smaller, and
    /// no number is above the larger of itself and another value.
    proof fn extremes(self, other: Self)
        ensures
            self.less(other) ==> {
                &&& self.larger(other) == other
                &&& other.larger(self) == other
                &&& self.smaller(other) == self
                &&& other.smaller(self) == self
            },
            self.at_most(self) ==> self.at_most(other.larger(self)),
            self.at_most(self) && other.at_most(other) ==> {
                &&& self.larger(other) == self || self.larger(other) == other
                &&& self.smaller(other) == self || self.smaller(other) == other
            },
    ;

    /// Numbers are totally ordered. Only numbers compare with anything, and what
    /// lies between finite numbers is finite. Rounding keeps the order of sums,
    /// differences, products, quotients and roots, as far as they are numbers.
    proof fn order(self, other: Self, third: Self)
        ensures
            self.finite() ==> self.at_most(self),
            self.at_most(self) ==> !self.undefined(),
            self.at_most(other) ==> self.at_most(self) && other.at_most(other),
            self.less(other) ==> self.at_most(other) && !other.at_most(self),
            self.at_most(self) && other.at_most(other) && !self.less(other) ==> other.at_most(self),
            self.at_most(other) && other.at_most(third) ==> self.at_most(third),
            self.at_most(other) && other.less(third) ==> self.less(third),
            self.less(other) && other.at_most(third) ==> self.less(third),
            self.at_most(other) && other.at_most(third) && self.finite() && third.finite()
                ==> other.finite(),
            self.same(other) <==> self.at_most(other) && other.at_most(self),
            self.at_most(other) && self.plus(third).at_most(self.plus(third)) && other.plus(
                third,
            ).at_most(other.plus(third)) ==> self.plus(third).at_most(other.plus(third)),
            self.at_most(other) && self.minus(third).at_most(self.minus(third)) && other.minus(
                third,
            ).at_most(other.minus(third)) ==> self.minus(third).at_most(other.minus(third)),
            self.at_most(other) && third.minus(self).at_most(third.minus(self)) && third.minus(
                other,
            ).at_most(third.minus(other)) ==> third.minus(other).at_most(third.minus(self)),
            self.at_most(other) && self.times(third).at_most(self.times(third)) && other.times(
                third,
            ).at_most(other.times(third)) ==> {
                &&& Self::decimal(0, 0).at_most(third) ==> self.times(third).at_most(
                    other.times(third),
                )
                &&& third.at_most(Self::decimal(0, 0)) ==> other.times(third).at_most(
                    self.times(third),
                )
            },
            self.at_most(other) && Self::decimal(0, 0).less(third) && self.over(third).at_most(
                self.over(third),
            ) && other.over(third).at_most(other.over(third)) ==> self.over(third).at_most(
                other.over(third),
            ),
            self.at_most(other) && Self::decimal(0, 0).less(self) && third.over(self).at_most(
                third.over(self),
            ) && third.over(other).at_most(third.over(other)) ==> {
                &&& Self::decimal(0, 0).at_most(third) ==> third.over(other).at_most(
                    third.over(self),
                )
                &&& third.at_most(Self::decimal(0, 0)) ==> third.over(self).at_most(
                    third.over(other),
                )
            },
            Self::decimal(0, 0).at_most(self) && self.at_most(other) ==> {
                &&& Self::decimal(0, 0).at_most(self.root())
                &&& self.root().at_most(other.root())
            },
            self.at_most(other) && self.root().at_most(self.root()) ==> self.root().at_most(
                other.root(),
            ),
            Self::decimal(0, 0).less(self) ==> Self::decimal(0, 0).less(self.root()),
    ;

    /// Rounding keeps the signs of products, quotients and differences and the
    /// direction in which a sum or a product moves.
    proof fn signs(self, other: Self)
        ensures
            self.finite() && other.finite() && Self::decimal(0, 0).at_most(self) ==> {
                &&& Self::decimal(0, 0).at_most(other) ==> Self::decimal(0, 0).at_most(
                    self.times(other),
                )
                &&& other.at_most(Self::decimal(0, 0)) ==> self.times(other).at_most(
                    Self::decimal(0, 0),
                )
                &&& Self::decimal(1, 0).at_most(other) ==> self.at_most(self.times(other))
                &&& Self::decimal(0, 0).at_most(other) && other.at_most(Self::decimal(1, 0)) ==> {
                    &&& other.times(self).finite()
                    &&& other.times(self).at_most(self)
                }
                &&& self.at_most(other) ==> {
                    &&& other.minus(self).finite()
                    &&& Self::decimal(0, 0).at_most(other.minus(self))
                }
            },
            self.finite() && Self::decimal(0, 0).at_most(other) ==> self.at_most(self.plus(other)),
            self.finite() && other.at_most(Self::decimal(0, 0)) ==> self.plus(other).at_most(self),
            Self::decimal(0, 0).less(self.minus(other)) ==> other.less(self),
            Self::decimal(0, 0).at_most(self) && Self::decimal(0, 0).at_most(other) ==> {
                &&& self.at_most(self.plus(other))
                &&& other.at_most(self.plus(other))
            },
            self.finite() && Self::decimal(0, 0).at_most(self) && Self::decimal(0, 0).less(other)
                ==> Self::decimal(0, 0).at_most(self.over(other)),
            Self::decimal(0, 0).at_most(self) ==> self.negated().at_most(Self::decimal(0, 0)),
            self.finite() ==> Self::decimal(0, 0).at_most(self.magnitude()),
            Self::decimal(0, 0).at_most(self) ==> self.magnitude().same(self),
            self.at_most(Self::decimal(0, 0)) ==> self.magnitude().same(self.negated()),
            self.finite() && other.finite() && other.less(self) ==> Self::decimal(0, 0).less(
                self.minus(other),
            ),
            self.at_most(Self::decimal(0, 0)) ==> Self::decimal(0, 0).at_most(self.negated()),
            self.at_most(other) ==> other.negated().at_most(self.negated()),
            Self::decimal(0, 0).at_most(self) && self.less(other) ==> self.over(other).at_most(
                Self::decimal(1, 0),
            ),
            self.times(other).at_most(self.times(other)) ==> {
                &&& self.at_most(Self::decimal(0, 0)) && other.at_most(Self::decimal(0, 0))
                    ==> Self::decimal(0, 0).at_most(self.times(other))
                &&& Self::decimal(0, 0).at_most(self) && Self::decimal(0, 0).at_most(other)
                    ==> Self::decimal(0, 0).at_most(self.times(other))
                &&& self.at_most(Self::decimal(0, 0)) && Self::decimal(0, 0).at_most(other)
                    ==> self.times(other).at_most(Self::decimal(0, 0))
            },
            Self::decimal(0, 0).less(other) && self.over(other).at_most(self.over(other)) ==> {
                &&& Self::decimal(0, 0).at_most(self) ==> Self::decimal(0, 0).at_most(
                    self.over(other),
                )
                &&& self.at_most(Self::decimal(0, 0)) ==> self.over(other).at_most(
                    Self::decimal(0, 0),
                )
            },
            self.plus(other).at_most(self.plus(other)) ==> {
                &&& Self::decimal(0, 0).at_most(other) ==> self.at_most(self.plus(other))
                &&& other.at_most(Self::decimal(0, 0)) ==> self.plus(other).at_most(self)
            },
            self.minus(other).at_most(self.minus(other)) ==> {
                &&& Self::decimal(0, 0).at_most(other) ==> self.minus(other).at_most(self)
                &&& other.at_most(Self::decimal(0, 0)) ==> self.at_most(self.minus(other))
            },
    ;

    /// A number that is not negative and not above two others is not above half
    /// their sum, and one that is not below them is not below half their sum, unless
    /// the sum is beyond all numbers.
    proof fn midpoint(self, low: Self, high: Self)
        ensures
            Self::decimal(0, 0).at_most(low) && Self::decimal(0, 0).at_most(high) && low.at_most(
                self,
            ) && high.at_most(self) && low.plus(high).over(Self::decimal(2, 0)).less(
                low.plus(high),
            ) ==> low.plus(high).over(Self::decimal(2, 0)).at_most(self),
            Self::decimal(0, 0).at_most(self) && self.at_most(low) && self.at_most(high)
                ==> self.at_most(low.plus(high).over(Self::decimal(2, 0))),
    ;

    /// The numbers from zero to one stay there when they are multiplied and when
    /// they are taken from one.
    proof fn unit_interval(self, other: Self)
        ensures
            Self::decimal(0, 0).finite(),
            Self::decimal(1, 0).finite(),
            Self::decimal(0, 0).at_most(Self::decimal(1, 0)),
            self.finite() && Self::decimal(0, 0).at_most(self) && self.at_most(Self::decimal(1, 0))
                ==> {
                &&& Self::decimal(1, 0).minus(self).finite()
                &&& Self::decimal(0, 0).at_most(Self::decimal(1, 0).minus(self))
                &&& Self::decimal(1, 0).minus(self).at_most(Self::decimal(1, 0))
                &&& other.finite() && Self::decimal(0, 0).at_most(other) && other.at_most(
                    Self::decimal(1, 0),
                ) ==> {
                    &&& self.times(other).finite()
                    &&& Self::decimal(0, 0).at_most(self.times(other))
                    &&& self.times(other).at_most(Self::decimal(1, 0))
                }
            },
    ;

    /// Decimal numbers with the same number of places are ordered by their mantissas,
    /// and a zero at the end of a mantissa makes no difference. With few digits they
    /// are finite and told apart, and small integers are computed with exactly.
    proof fn decimals(low: i64, high: i64, places: u32)
        ensures
            low <= high ==> Self::decimal(low as int, -places).at_most(
                Self::decimal(high as int, -places),
            ),
            Self::decimal(10 * low, -places - 1) == Self::decimal(low as int, -places),
            -1000 <= low <= 1000 ==> Self::decimal(low as int, -places).finite(),
            -1000 <= low < high <= 1000 && places <= 9 ==> Self::decimal(low as int, -places).less(
                Self::decimal(high as int, -places),
            ),
            -1000 <= low <= 1000 && -1000 <= high <= 1000 ==> {
                let (a, b) = (Self::decimal(low as int, 0), Self::decimal(high as int, 0));
                &&& a.plus(b) == Self::decimal(low + high, 0)
                &&& a.minus(b) == Self::decimal(low - high, 0)
                &&& 0 <= low && 0 <= high ==> a.times(b) == Self::decimal(low * high, 0)
                &&& 0 <= low && 0 < high ==> Self::decimal(low * high, 0).over(b) == a
            },
    ;

    /// Multiplying by one changes nothing, a finite number times zero does not
    /// change a one that it is taken from, a fused product with minus one is a
    /// difference, and one with zero leaves a number that compares equal. A number
    /// from zero to one and what is left of one make one. The order of the operands of
    /// a sum or a product makes no difference. A number that halving makes smaller, so
    /// that it is neither zero nor beyond all others, goes into itself once.
    proof fn neutral(self, other: Self)
        ensures
            Self::decimal(0, 0).same(Self::decimal(0, 0)),
            self.times(Self::decimal(1, 0)) == self,
            self.finite() ==> Self::decimal(1, 0).minus(self.times(Self::decimal(0, 0)))
                == Self::decimal(1, 0),
            Self::decimal(1, 0).negated().fused(other, self) == self.minus(other),
            self.finite() && other.finite() ==> Self::decimal(0, 0).fused(other, self).same(self),
            Self::decimal(1, 0).fused(other, self) == other.plus(self),
            self.finite() && Self::decimal(0, 0).at_most(self) && self.at_most(Self::decimal(1, 0))
                ==> self.plus(Self::decimal(1, 0).minus(self)) == Self::decimal(1, 0),
            self.finite() && other.finite() ==> self.fused(other, Self::decimal(0, 0)).same(
                self.times(other),
            ),
            self.plus(other) == other.plus(self),
            self.times(other) == other.times(self),
            Self::decimal(1, 0).negated().times(self) == self.negated(),
            self.over(Self::decimal(1, 0)) == self,
            self.minus(Self::decimal(0, 0)) == self,
            self.finite() ==> {
                &&& self.plus(Self::decimal(0, 0)).same(self)
                &&& !self.same(Self::decimal(0, 0)) ==> self.plus(Self::decimal(0, 0)) == self
                &&& self.minus(self) == Self::decimal(0, 0)
                &&& self.times(Self::decimal(0, 0)).same(Self::decimal(0, 0))
                &&& Self::decimal(0, 0).at_most(self) ==> self.plus(
                    Self::decimal(0, 0).minus(self),
                ) == Self::decimal(0, 0)
                &&& self.at_most(Self::decimal(0, 0)) ==> self.plus(
                    Self::decimal(0, 0).minus(self),
                ).at_most(Self::decimal(0, 0))
            },
            self.negated().negated() == self ==> other.plus(self.negated()) == other.minus(self),
            self.over(Self::decimal(2, 0)).less(self) ==> self.over(self) == Self::decimal(1, 0),
            Self::decimal(0, 0).root() == Self::decimal(0, 0),
            Self::decimal(1, 0).root() == Self::decimal(1, 0),
            Self::decimal(4, 0).root() == Self::decimal(2, 0),
            Self::decimal(25, -2).root() == Self::decimal(5, -1),
            Self::decimal(1, 0).minus(Self::decimal(5, -1)) == Self::decimal(5, -1),
            Self::decimal(2, 0).times(Self::decimal(5, -1)) == Self::decimal(1, 0),
            Self::decimal(1, 0).over(Self::decimal(5, -1)) == Self::decimal(2, 0),
            Self::decimal(2, 0).over(Self::decimal(5, -1)) == Self::decimal(4, 0),
            Self::decimal(2, 0).times(Self::decimal(2, 0)) == Self::decimal(4, 0),
            Self::decimal(2, 0).fused(Self::decimal(2, 0), Self::decimal(0, 0)) == Self::decimal(
                4,
                0,
            ),
            Self::decimal(4, 0).over(Self::decimal(2, 0)) == Self::decimal(2, 0),
            self.powered(0) == Self::decimal(1, 0),
            self.powered(1) == self,
            self.powered(2) == self.times(self),
    ;

    /// A fused product and sum is finite only where its operands are, and what is
    /// computed is a number only where its operands are. Sums, differences and
    /// products of finite numbers are numbers. Rounding keeps the direction in which
    /// a fused product moves a sum, and the order of fused sums. The order of the
    /// factors makes no difference.
    proof fn fused_operands(self, factor: Self, addend: Self)
        ensures
            self.fused(factor, addend).finite() ==> self.finite() && factor.finite()
                && addend.finite(),
            self.fused(factor, addend).at_most(self.fused(factor, addend)) ==> {
                &&& self.at_most(self) && factor.at_most(factor) && addend.at_most(addend)
                &&& Self::decimal(0, 0).at_most(self) && Self::decimal(0, 0).at_most(factor)
                    ==> addend.at_most(self.fused(factor, addend))
                &&& self.at_most(Self::decimal(0, 0)) && factor.at_most(Self::decimal(0, 0))
                    ==> addend.at_most(self.fused(factor, addend))
                &&& Self::decimal(0, 0).at_most(self) && factor.at_most(Self::decimal(0, 0))
                    ==> self.fused(factor, addend).at_most(addend)
                &&& self.at_most(Self::decimal(0, 0)) && Self::decimal(0, 0).at_most(factor)
                    ==> self.fused(factor, addend).at_most(addend)
            },
            self.fused(factor, addend) == factor.fused(self, addend),
            forall|other: Self|
                addend.at_most(other) && self.fused(factor, addend).at_most(
                    self.fused(factor, addend),
                ) && self.fused(factor, other).at_most(self.fused(factor, other)) ==> self.fused(
                    factor,
                    addend,
                ).at_most(#[trigger] self.fused(factor, other)),
            forall|other: Self|
                factor.at_most(other) && Self::decimal(0, 0).at_most(self) && self.fused(
                    factor,
                    addend,
                ).at_most(self.fused(factor, addend)) && self.fused(other, addend).at_most(
                    self.fused(other, addend),
                ) ==> self.fused(factor, addend).at_most(#[trigger] self.fused(other, addend)),
            forall|other: Self|
                factor.at_most(other) && self.at_most(Self::decimal(0, 0)) && self.fused(
                    factor,
                    addend,
                ).at_most(self.fused(factor, addend)) && self.fused(other, addend).at_most(
                    self.fused(other, addend),
                ) ==> (#[trigger] self.fused(other, addend)).at_most(self.fused(factor, addend)),
            self.plus(factor).at_most(self.plus(factor)) ==> self.at_most(self) && factor.at_most(
                factor,
            ),
            self.minus(factor).at_most(self.minus(factor)) ==> self.at_most(self)
                && factor.at_most(factor),
            self.times(factor).at_most(self.times(factor)) ==> self.at_most(self)
                && factor.at_most(factor),
            self.over(factor).at_most(self.over(factor)) ==> self.at_most(self) && factor.at_most(
                factor,
            ),
            self.root().at_most(self.root()) ==> self.at_most(self) && Self::decimal(0, 0).at_most(
                self.root(),
            ),
            self.negated().at_most(self.negated()) ==> self.at_most(self),
            self.finite() && factor.finite() ==> {
                &&& self.plus(factor).at_most(self.plus(factor))
                &&& self.minus(factor).at_most(self.minus(factor))
                &&& self.times(factor).at_most(self.times(factor))
            },
    ;

    fn literal(mantissa: i64, exponent: i32) -> (r: Self)
        ensures
            r == Self::decimal(mantissa as int, exponent as int),
    ;

    fn infinity() -> (r: Self)
        ensures
            r == Self::positive_infinity(),
    ;

    fn nan() -> (r: Self)
        ensures
            r == Self::not_a_number(),
    ;

    fn add(self, other: Self) -> (r: Self)
        ensures
            r == self.plus(other),
    ;

    fn sub(self, other: Self) -> (r: Self)
        ensures
            r == self.minus(other),
    ;

    fn mul(self, other: Self) -> (r: Self)
        ensures
            r == self.times(other),
    ;

    fn div(self, other: Self) -> (r: Self)
        ensures
            r == self.over(other),
    ;

    fn neg(self) -> (r: Self)
        ensures
            r == self.negated(),
    ;

    fn mul_add(self, factor: Self, addend: Self) -> (r: Self)
        ensures
            r == self.fused(factor, addend),
    ;

    fn sqrt(self) -> (r: Self)
        ensures
            r == self.root(),
    ;

    fn abs(self) -> (r: Self)
        ensures
            r == self.magnitude(),
    ;

    fn max(self, other: Self) -> (r: Self)
        ensures
            r == self.larger(other),
    ;

    fn min(self, other: Self) -> (r: Self)
        ensures
            r == self.smaller(other),
    ;

    fn powi(self, exponent: i32) -> (r: Self)
        ensures
            r == self.powered(exponent),
    ;

    fn is_finite(self) -> (r: bool)
        ensures
            r == self.finite(),
    ;

    fn is_nan(self) -> (r: bool)
        ensures
            r == self.undefined(),
    ;

    fn lt(self, other: Self) -> (r: bool)
        ensures
            r == self.less(other),
    ;

    fn le(self, other: Self) -> (r: bool)
        ensures
            r == self.at_most(other),
    ;

    fn eq(self, other: Self) -> (r: bool)
        ensures
            r == self.same(other),
    ;

    fn show(self) -> (r: String)
        ensures
            r@ == self.shown(),
    ;
}

/// The precision in which reductions, bias corrections and schedules are
/// computed.
pub trait Double: Real {
    open spec fn of_integer(n: u128) -> Self {
        arbitrary()
    }

    open spec fn raised(self, exponent: Self) -> Self {
        arbitrary()
    }

    open spec fn cosine(self) -> Self {
        arbitrary()
    }

    open spec fn sine(self) -> Self {
        arbitrary()
    }

    /// The bit pattern that stands for the number.
    open spec fn bits(self) -> u64 {
        arbitrary()
    }

    open spec fn of_bits(bits: u64) -> Self {
        arbitrary()
    }

    /// A number is recovered from its bit pattern.
    proof fn of_bits_inverts_bits(self)
        ensures
            Self::of_bits(self.bits()) == self,
    ;

    /// Integers are finite, not negative and in their order, and those that are not too
    /// large are counted exactly.
    proof fn integers(n: u128)
        ensures
            Self::of_integer(n).finite(),
            Self::decimal(0, 0).at_most(Self::of_integer(n)),
            Self::of_integer(0) == Self::decimal(0, 0),
            Self::of_integer(1) == Self::decimal(1, 0),
            Self::of_integer(n).plus(Self::decimal(1, 0)).finite(),
            n <= 1_000_000_000 ==> Self::of_integer(n).plus(Self::decimal(1, 0))
                == Self::of_integer((n + 1) as u128),
            forall|m: u128|
                m <= n ==> #[trigger] Self::of_integer(m).at_most(Self::of_integer(n)),
    ;

    /// The numbers from zero to one stay there when they are raised to a power that
    /// is not negative. The powers with exponents zero and one are one and the number
    /// itself. The cosine of zero is one, and its sine is zero.
    proof fn powers(self, exponent: Self)
        ensures
            self.finite() && Self::decimal(0, 0).at_most(self) && self.at_most(Self::decimal(1, 0))
                && Self::decimal(0, 0).at_most(exponent) ==> {
                &&& self.raised(exponent).finite()
                &&& Self::decimal(0, 0).at_most(self.raised(exponent))
                &&& self.raised(exponent).at_most(Self::decimal(1, 0))
            },
            exponent.same(Self::decimal(0, 0)) ==> self.raised(exponent) == Self::decimal(1, 0),
            self.raised(Self::decimal(0, 0)) == Self::decimal(1, 0),
            self.raised(Self::decimal(1, 0)) == self,
            self.same(Self::decimal(0, 0)) ==> self.cosine() == Self::decimal(1, 0),
            self.same(Self::decimal(0, 0)) ==> self.sine().same(Self::decimal(0, 0)),
    ;

    fn from_integer(n: u128) -> (r: Self)
        ensures
            r == Self::of_integer(n),
    ;

    fn powf(self, exponent: Self) -> (r: Self)
        ensures
            r == self.raised(exponent),
    ;

    fn cos(self) -> (r: Self)
        ensures
            r == self.cosine(),
    ;

    fn sin(self) -> (r: Self)
        ensures
            r == self.sine(),
    ;

    fn to_bits(self) -> (r: u64)
        ensures
            r == self.bits(),
    ;

    fn from_bits(bits: u64) -> (r: Self)
        ensures
            r == Self::of_bits(bits),
    ;
}

/// The precision of parameters, gradients and optimizer buffers.
pub trait Single: Real {
    type Wide: Double;

    /// `self` in the wider precision.
    open spec fn widened(self) -> Self::Wide {
        arbitrary()
    }

    /// `wide` rounded to this precision.
    open spec fn rounded(wide: Self::Wide) -> Self {
        arbitrary()
    }

    /// The number equal to `word`.
    open spec fn of_word(word: u16) -> Self {
        arbitrary()
    }

    /// The word that `self` stands for, where it stands for one.
    open spec fn word(self) -> u16 {
        arbitrary()
    }

    /// Whether `self` has no fractional part.
    open spec fn integral(self) -> bool {
        arbitrary()
    }

    open spec fn subnormal(self) -> bool {
        arbitrary()
    }

    /// Whether `self` is a power of two by which a number is scaled exactly, unless
    /// the result is too large or too small.
    open spec fn binary(self) -> bool {
        arbitrary()
    }

    /// Every word is carried exactly.
    proof fn words_are_exact(word: u16)
        ensures
            Self::of_word(word).finite(),
            Self::of_word(word).integral(),
            Self::decimal(0, 0).at_most(Self::of_word(word)),
            Self::of_word(word).at_most(Self::decimal(65535, 0)),
            Self::of_word(word).word() == word,
    ;

    /// A finite number stays finite and on its side of zero and of one when it is
    /// widened, and the numbers from zero to one stay there when they are rounded.
    /// Rounding undoes widening, and does not pass a number of this precision.
    /// Both keep the order, and what is not a number stays that. What a number has more
    /// than another, added to the other, gives it back. Widening keeps zero
    /// and one, and what a number of this precision lacks of one is not lost, nor its
    /// root.
    proof fn precisions(self, wide: Self::Wide)
        ensures
            self.finite() ==> self.widened().finite(),
            Self::decimal(0, 0).at_most(self) ==> <Self::Wide as Real>::decimal(0, 0).at_most(
                self.widened(),
            ),
            self.at_most(Self::decimal(1, 0)) ==> self.widened().at_most(
                <Self::Wide as Real>::decimal(1, 0),
            ),
            wide.finite() && <Self::Wide as Real>::decimal(0, 0).at_most(wide) && wide.at_most(
                <Self::Wide as Real>::decimal(1, 0),
            ) ==> {
                &&& Self::rounded(wide).finite()
                &&& Self::decimal(0, 0).at_most(Self::rounded(wide))
                &&& Self::rounded(wide).at_most(Self::decimal(1, 0))
            },
            self.finite() ==> Self::rounded(self.widened()) == self,
            self.widened().at_most(wide) ==> self.at_most(Self::rounded(wide)),
            wide.at_most(self.widened()) ==> Self::rounded(wide).at_most(self),
            forall|other: Self|
                self.at_most(other) ==> self.widened().at_most(#[trigger] other.widened()),
            forall|other: Self::Wide|
                wide.at_most(other) ==> Self::rounded(wide).at_most(
                    #[trigger] Self::rounded(other),
                ),
            forall|other: Self|
                Self::decimal(0, 0).at_most(self) && self.at_most(other) && other.finite()
                    ==> Self::rounded(
                    self.widened().plus((#[trigger] other.widened()).minus(self.widened())),
                ).same(other),
            self.widened().at_most(self.widened()) ==> self.at_most(self),
            Self::rounded(wide).at_most(Self::rounded(wide)) ==> wide.at_most(wide),
            self.finite() && self.less(Self::decimal(1, 0)) ==> <Self as Real>::decimal(0, 0).less(
                Self::rounded(<Self::Wide as Real>::decimal(1, 0).minus(self.widened())),
            ) && <Self as Real>::decimal(0, 0).less(
                Self::rounded(<Self::Wide as Real>::decimal(1, 0).minus(self.widened()).root()),
            ),
            Self::decimal(0, 0).widened() == <Self::Wide as Real>::decimal(0, 0),
            Self::decimal(1, 0).widened() == <Self::Wide as Real>::decimal(1, 0),
    ;

    /// Dividing by a power of two undoes multiplying by it, unless the product is
    /// too large or too small to be carried exactly.
    proof fn binary_scaling(self, scale: Self)
        requires
            scale.binary(),
            self.finite(),
            self.times(scale).finite(),
            !self.times(scale).subnormal(),
            self.times(scale).same(Self::decimal(0, 0)) ==> self.same(Self::decimal(0, 0)),
        ensures
            self.times(scale).over(scale) == self,
    ;

    fn widen(self) -> (r: Self::Wide)
        ensures
            r == self.widened(),
    ;

    fn round(wide: Self::Wide) -> (r: Self)
        ensures
            r == Self::rounded(wide),
    ;

    fn from_word(word: u16) -> (r: Self)
        ensures
            r == Self::of_word(word),
    ;

    fn to_word(self) -> (r: u16)
        ensures
            r == self.word(),
    ;

    fn is_integral(self) -> (r: bool)
        ensures
            r == self.integral(),
    ;

    fn is_subnormal(self) -> (r: bool)
        ensures
            r == self.subnormal(),
    ;
}

/// The number zero.
pub open spec fn zero<R: Real>() -> R {
    R::decimal(0, 0)
}

/// The number one.
pub open spec fn one<R: Real>() -> R {
    R::decimal(1, 0)
}

/// Whether a value is a number.
pub open spec fn is_number<R: Real>(x: R) -> bool {
    x.at_most(x)
}

/// A finite number that is not below zero.
pub open spec fn non_negative<R: Real>(x: R) -> bool {
    x.finite() && zero::<R>().at_most(x)
}

/// A finite number above zero.
pub open spec fn positive<R: Real>(x: R) -> bool {
    x.finite() && zero::<R>().less(x)
}

/// A finite number in the half-open interval from zero to one.
pub open spec fn fraction<R: Real>(x: R) -> bool {
    x.finite() && zero::<R>().at_most(x) && x.less(one())
}

/// A finite number in the closed interval from zero to one.
pub open spec fn in_unit_range<R: Real>(value: R) -> bool {
    value.finite() && zero::<R>().at_most(value) && value.at_most(one())
}

/// Zero and one lie from zero to one, and so do the product of two such numbers
/// and what one exceeds such a number by.
pub proof fn unit_range_is_closed<R: Real>(x: R, y: R)
    ensures
        in_unit_range(zero::<R>()),
        in_unit_range(one::<R>()),
        in_unit_range(x) ==> in_unit_range(one::<R>().minus(x)),
        in_unit_range(x) && in_unit_range(y) ==> in_unit_range(x.times(y)),
        fraction(x) ==> in_unit_range(x),
{
    x.unit_interval(y);
    x.order(one(), one());
    zero::<R>().order(one(), one());
}

/// A fraction lies from zero to one in the wider precision too.
pub proof fn widened_fraction_in_unit_range<S: Single>(x: S)
    ensures
        fraction(x) ==> in_unit_range(x.widened()),
{
    x.precisions(x.widened());
    x.order(one(), one());
}

pub fn is_non_negative<R: Real>(x: R) -> (r: bool)
    ensures
        r == non_negative(x),
{
    x.is_finite() && R::literal(0, 0).le(x)
}

pub fn is_positive<R: Real>(x: R) -> (r: bool)
    ensures
        r == positive(x),
{
    x.is_finite() && R::literal(0, 0).lt(x)
}

pub fn is_fraction<R: Real>(x: R) -> (r: bool)
    ensures
        r == fraction(x),
{
    x.is_finite() && R::literal(0, 0).le(x) && x.lt(R::literal(1, 0))
}

} // verus!
