//! Numbers as weights, probabilities, scores and draws use them here: kept as
//! the bits of an IEEE-754 double and compared by those bits. Their arithmetic
//! is done outside and handed in.
use vstd::prelude::*;

verus! {

/// The lowest bit pattern that carries a minus sign.
pub const SIGN: u64 = 0x8000_0000_0000_0000;

/// The bit pattern of infinity without its sign; larger magnitudes are not
/// numbers.
pub const INFINITE: u64 = 0x7FF0_0000_0000_0000;

/// The bit pattern of one.
pub const UNIT: u64 = 0x3FF0_0000_0000_0000;

/// A double, by its bits.
#[derive(Clone, Copy, PartialEq, Eq, Structural, Debug)]
pub struct Number {
    pub bits: u64,
}

impl Number {
    pub open spec fn negative(self) -> bool {
        self.bits >= SIGN
    }

    pub open spec fn magnitude(self) -> int {
        if self.negative() {
            self.bits - SIGN
        } else {
            self.bits as int
        }
    }

    /// False of the bit patterns that stand for "not a number".
    pub open spec fn is_number(self) -> bool {
        self.magnitude() <= INFINITE
    }

    /// The place of the number on the line: a larger number has a larger
    /// place, and both zeros have place 0.
    pub open spec fn place(self) -> int {
        if self.negative() {
            -self.magnitude()
        } else {
            self.magnitude()
        }
    }

    /// `self < other`, false as soon as one of them is not a number.
    pub open spec fn below(self, other: Number) -> bool {
        self.is_number() && other.is_number() && self.place() < other.place()
    }

    /// `self <= other`, false as soon as one of them is not a number.
    pub open spec fn at_most(self, other: Number) -> bool {
        self.is_number() && other.is_number() && self.place() <= other.place()
    }

    /// The larger of two numbers; where one is not a number, the other.
    pub open spec fn max_of(self, other: Number) -> Number {
        if !self.is_number() || self.below(other) {
            other
        } else {
            self
        }
    }

    /// The smaller of two numbers; where one is not a number, the other.
    pub open spec fn min_of(self, other: Number) -> Number {
        if !self.is_number() || other.below(self) {
            other
        } else {
            self
        }
    }

    pub open spec fn nought() -> Number {
        Number { bits: 0 }
    }

    pub open spec fn unit() -> Number {
        Number { bits: UNIT }
    }

    pub open spec fn top() -> Number {
        Number { bits: INFINITE }
    }

    pub open spec fn bottom() -> Number {
        Number { bits: (SIGN + INFINITE) as u64 }
    }

    /// The least number above minus infinity.
    pub open spec fn least() -> Number {
        Number { bits: (SIGN + INFINITE - 1) as u64 }
    }

    /// The number with the given bits.
    pub fn from_bits(bits: u64) -> (r: Number)
        ensures
            r.bits == bits,
    {
        Number { bits }
    }

    /// The bits of the number.
    pub fn to_bits(self) -> (bits: u64)
        ensures
            bits == self.bits,
    {
        self.bits
    }

    pub fn zero() -> (r: Number)
        ensures
            r == Number::nought(),
    {
        Number { bits: 0 }
    }

    pub fn one() -> (r: Number)
        ensures
            r == Number::unit(),
    {
        Number { bits: UNIT }
    }

    pub fn infinity() -> (r: Number)
        ensures
            r == Number::top(),
    {
        Number { bits: INFINITE }
    }

    pub fn neg_infinity() -> (r: Number)
        ensures
            r == Number::bottom(),
    {
        Number { bits: SIGN + INFINITE }
    }

    pub fn least_finite() -> (r: Number)
        ensures
            r == Number::least(),
    {
        Number { bits: SIGN + INFINITE - 1 }
    }

    fn size(self) -> (m: u64)
        ensures
            m == self.magnitude(),
    {
        if self.bits >= SIGN {
            self.bits - SIGN
        } else {
            self.bits
        }
    }

    /// Whether this is a number at all; infinities are.
    pub fn is_valid(self) -> (b: bool)
        ensures
            b == self.is_number(),
    {
        self.size() <= INFINITE
    }

    /// Whether `self < other`.
    pub fn is_below(self, other: Number) -> (b: bool)
        ensures
            b == self.below(other),
    {
        let a: u64 = self.size();
        let c: u64 = other.size();
        if a > INFINITE || c > INFINITE {
            return false;
        }
        if self.bits >= SIGN {
            if other.bits >= SIGN {
                c < a
            } else {
                a > 0 || c > 0
            }
        } else {
            other.bits < SIGN && a < c
        }
    }

    /// Whether `self <= other`.
    pub fn is_at_most(self, other: Number) -> (b: bool)
        ensures
            b == self.at_most(other),
    {
        self.is_valid() && other.is_valid() && !other.is_below(self)
    }

    /// The larger of two numbers; where one is not a number, the other.
    pub fn max(self, other: Number) -> (r: Number)
        ensures
            r == self.max_of(other),
    {
        if !self.is_valid() || self.is_below(other) {
            other
        } else {
            self
        }
    }

    /// The smaller of two numbers; where one is not a number, the other.
    pub fn min(self, other: Number) -> (r: Number)
        ensures
            r == self.min_of(other),
    {
        if !self.is_valid() || other.is_below(self) {
            other
        } else {
            self
        }
    }
}

/// Of two numbers exactly one is below the other, or they are at the same
/// place; what is not a number is neither below, nor at most, anything.
pub proof fn law_numbers_are_ordered(a: Number, b: Number)
    ensures
        a.is_number() && b.is_number() ==> (a.at_most(b) <==> !b.below(a)),
        a.at_most(b) && b.at_most(a) ==> a.place() == b.place(),
        !a.is_number() ==> !a.below(b) && !b.below(a) && !a.at_most(b) && !b.at_most(a),
{
}

/// Numbers compare by their bits: without a sign the larger bits are the
/// larger number, with one they are the smaller, a number with a sign is never
/// above one without, and the two zeros are the same. Bits beyond those of an
/// infinity are not a number, and compare with nothing.
pub proof fn law_bits_decide(a: Number, b: Number)
    ensures
        a.bits <= 0x7FF0_0000_0000_0000 && b.bits <= 0x7FF0_0000_0000_0000 ==> (a.below(b)
            <==> a.bits < b.bits) && (a.at_most(b) <==> a.bits <= b.bits),
        0x8000_0000_0000_0000 <= a.bits <= 0xFFF0_0000_0000_0000 && 0x8000_0000_0000_0000 <= b.bits
            <= 0xFFF0_0000_0000_0000 ==> (a.below(b) <==> b.bits < a.bits) && (a.at_most(b)
            <==> b.bits <= a.bits),
        0x8000_0000_0000_0000 <= a.bits <= 0xFFF0_0000_0000_0000 && b.bits <= 0x7FF0_0000_0000_0000
            ==> a.at_most(b) && (a.below(b) <==> a.bits != 0x8000_0000_0000_0000 || b.bits != 0)
            && !b.below(a),
        a.is_number() <==> a.bits <= 0x7FF0_0000_0000_0000 || 0x8000_0000_0000_0000 <= a.bits
            <= 0xFFF0_0000_0000_0000,
        a.below(b) ==> a.is_number() && b.is_number(),
        a.at_most(b) ==> a.is_number() && b.is_number(),
{
}

/// Being below is transitive, and so is being at most.
pub proof fn law_order_is_transitive(a: Number, b: Number, c: Number)
    ensures
        a.below(b) && b.at_most(c) ==> a.below(c),
        a.at_most(b) && b.below(c) ==> a.below(c),
        a.at_most(b) && b.at_most(c) ==> a.at_most(c),
        !a.below(a),
{
}

/// The larger of two numbers is one of them and neither is above it, the
/// smaller is one of them and neither is below it; where only one of the two is
/// a number, it is both.
pub proof fn law_larger_and_smaller(a: Number, b: Number)
    ensures
        a.max_of(b) == a || a.max_of(b) == b,
        a.min_of(b) == a || a.min_of(b) == b,
        a.is_number() && b.is_number() ==> a.at_most(a.max_of(b)) && b.at_most(a.max_of(b))
            && a.min_of(b).at_most(a) && a.min_of(b).at_most(b),
        a.is_number() && !b.is_number() ==> a.max_of(b) == a && a.min_of(b) == a,
        !a.is_number() ==> a.max_of(b) == b && a.min_of(b) == b,
{
}

/// Where the marked numbers stand: nought, one, the infinities and the least
/// number above minus infinity, with every other number between the infinities.
pub proof fn law_marked_numbers(a: Number)
    ensures
        Number::nought().bits == 0,
        Number::unit().bits == 0x3FF0_0000_0000_0000,
        Number::top().bits == 0x7FF0_0000_0000_0000,
        Number::bottom().bits == 0xFFF0_0000_0000_0000,
        a.is_number() ==> Number::bottom().at_most(a) && a.at_most(Number::top()),
        Number::bottom().below(a) <==> a.is_number() && a.bits != 0xFFF0_0000_0000_0000,
        Number::bottom().below(a) ==> Number::least().at_most(a),
        Number::bottom().below(Number::least()),
{
}

} // verus!
