//! Single-precision numbers, carried by their bit patterns.
//!
//! Energies and log-probabilities are measured elsewhere, in floating point. The decisions
//! that are taken on them only compare, and the order of two IEEE 754 numbers can be read
//! off their bits: the sign bit, and below it a magnitude that grows with the number.

use vstd::prelude::*;

verus! {

/// The smallest bit pattern with the sign bit set.
pub const SIGN_BIT: u32 = 0x8000_0000;

/// The magnitude of the infinities; every larger magnitude is a NaN.
pub const INFINITY_MAGNITUDE: u32 = 0x7f80_0000;

/// An IEEE 754 single-precision number.
#[derive(Clone, Copy, Debug)]
pub struct Single {
    /// The bit pattern.
    pub bits: u32,
}

impl Single {
    /// The pattern without its sign bit.
    pub open spec fn magnitude(self) -> int {
        if self.bits >= SIGN_BIT {
            self.bits - SIGN_BIT
        } else {
            self.bits as int
        }
    }

    /// Whether this is no number.
    pub open spec fn is_nan(self) -> bool {
        self.magnitude() > INFINITY_MAGNITUDE
    }

    /// An integer that orders the numbers as their values do; both zeros have rank 0.
    pub open spec fn rank(self) -> int {
        if self.bits >= SIGN_BIT {
            -self.magnitude()
        } else {
            self.magnitude()
        }
    }

    /// `self > other`: false whenever one of the two is a NaN.
    pub open spec fn above(self, other: Single) -> bool {
        !self.is_nan() && !other.is_nan() && self.rank() > other.rank()
    }

    /// `self >= other`: false whenever one of the two is a NaN.
    pub open spec fn at_least(self, other: Single) -> bool {
        !self.is_nan() && !other.is_nan() && self.rank() >= other.rank()
    }

    /// The number with the given bit pattern.
    pub fn from_bits(bits: u32) -> (r: Single)
        ensures
            r.bits == bits,
    {
        Single { bits }
    }

    fn ordinal(self) -> (r: Option<i64>)
        ensures
            r == (if self.is_nan() {
                None::<i64>
            } else {
                Some(self.rank() as i64)
            }),
    {
        let magnitude: u32 = if self.bits >= SIGN_BIT {
            self.bits - SIGN_BIT
        } else {
            self.bits
        };
        if magnitude > INFINITY_MAGNITUDE {
            None
        } else if self.bits >= SIGN_BIT {
            Some(-(magnitude as i64))
        } else {
            Some(magnitude as i64)
        }
    }

    /// Whether this number is greater than the other one.
    pub fn gt(self, other: Single) -> (b: bool)
        ensures
            b == self.above(other),
    {
        match (self.ordinal(), other.ordinal()) {
            (Some(a), Some(b)) => a > b,
            _ => false,
        }
    }

    /// Whether this number is greater than the other one or equal to it.
    pub fn ge(self, other: Single) -> (b: bool)
        ensures
            b == self.at_least(other),
    {
        match (self.ordinal(), other.ordinal()) {
            (Some(a), Some(b)) => a >= b,
            _ => false,
        }
    }
}

/// Of two numbers, either one is above the other or each is at least the other.
pub proof fn numbers_are_ordered(a: Single, b: Single)
    requires
        !a.is_nan(),
        !b.is_nan(),
    ensures
        a.above(b) <==> !b.at_least(a),
        a.at_least(b) || b.at_least(a),
{
}

/// Two numbers compare as their patterns do if both are positive, the other way round if both
/// are negative, and a positive number is above a negative one unless both are zero. Nothing is
/// above or at least something that is no number, nor the other way round.
pub proof fn numbers_compare_by_their_patterns(a: Single, b: Single)
    ensures
        a.bits <= 0x7f80_0000 && b.bits <= 0x7f80_0000 ==> (a.above(b) <==> a.bits > b.bits) && (
        a.at_least(b) <==> a.bits >= b.bits),
        0x8000_0000 <= a.bits <= 0xff80_0000 && 0x8000_0000 <= b.bits <= 0xff80_0000 ==> (a.above(
            b,
        ) <==> a.bits < b.bits) && (a.at_least(b) <==> a.bits <= b.bits),
        a.bits <= 0x7f80_0000 && 0x8000_0000 <= b.bits <= 0xff80_0000 ==> a.at_least(b) && (a.above(
            b,
        ) <==> a.bits != 0 || b.bits != 0x8000_0000) && !b.above(a) && (b.at_least(a) <==> a.bits
            == 0 && b.bits == 0x8000_0000),
        0x7f80_0000 < a.bits < 0x8000_0000 || a.bits > 0xff80_0000 ==> !a.above(b) && !b.above(a)
            && !a.at_least(b) && !b.at_least(a),
{
}

/// The two comparisons agree: what is greater is at least as great and the other way round it is
/// neither, what is at least as great both ways is greater neither way, and of two numbers one is
/// at least the other.
pub proof fn comparisons_agree(a: Single, b: Single, gt: bool, ge: bool, lt: bool, le: bool)
    requires
        call_ensures(Single::gt, (a, b), gt),
        call_ensures(Single::ge, (a, b), ge),
        call_ensures(Single::gt, (b, a), lt),
        call_ensures(Single::ge, (b, a), le),
    ensures
        gt ==> ge && !lt && !le,
        ge && le ==> !gt && !lt,
        a.bits <= 0x7f80_0000 && b.bits <= 0x7f80_0000 ==> (gt <==> a.bits > b.bits) && (ge
            <==> a.bits >= b.bits),
        !a.is_nan() && !b.is_nan() ==> ge || le,
{
    numbers_compare_by_their_patterns(a, b);
}

} // verus!
