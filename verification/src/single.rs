//! Single-precision numbers carried as their IEEE 754 bit patterns.
//!
//! Audio samples, sound levels, confidence scores and thresholds travel through
//! the library as patterns. The library never calculates with them: it compares
//! them, and comparing takes no more than the pattern.

use vstd::prelude::*;

verus! {

/// A single-precision number, held as its bit pattern.
#[derive(Clone, Copy, Debug, PartialEq, Eq, Structural)]
pub struct Single {
    pub bits: u32,
}

impl Single {
    /// The pattern without its sign bit.
    pub open spec fn magnitude(self) -> int {
        self.bits as int % 0x8000_0000
    }

    /// Whether the sign bit is set.
    pub open spec fn negative(self) -> bool {
        self.bits >= 0x8000_0000
    }

    /// Whether the pattern stands for no number.
    pub open spec fn nan(self) -> bool {
        self.magnitude() > 0x7f80_0000
    }

    /// Where a number stands among the others: equal numbers (the two zeros)
    /// have one rank, a larger number has a larger rank.
    pub open spec fn rank(self) -> int {
        if self.negative() {
            -self.magnitude()
        } else {
            self.magnitude()
        }
    }

    /// Whether `self > other`. A pattern that stands for no number is above
    /// nothing, and nothing is above it.
    pub open spec fn above(self, other: Single) -> bool {
        !self.nan() && !other.nan() && self.rank() > other.rank()
    }

    /// Whether `self >= other`.
    pub open spec fn reaches(self, other: Single) -> bool {
        !self.nan() && !other.nan() && self.rank() >= other.rank()
    }

    /// The larger of two numbers, or the one that is a number.
    pub open spec fn larger(self, other: Single) -> Single {
        if self.nan() {
            other
        } else if other.above(self) {
            other
        } else {
            self
        }
    }

    /// Whether the pattern stands for no number.
    pub fn is_nan(self) -> (nan: bool)
        ensures
            nan == self.nan(),
    {
        self.bits % 0x8000_0000 > 0x7f80_0000
    }

    /// The rank of the number.
    fn position(self) -> (rank: i64)
        ensures
            rank == self.rank(),
    {
        if self.bits >= 0x8000_0000 {
            -((self.bits % 0x8000_0000) as i64)
        } else {
            (self.bits % 0x8000_0000) as i64
        }
    }

    /// Whether `self > other`.
    pub fn is_above(self, other: Single) -> (above: bool)
        ensures
            above == self.above(other),
    {
        !self.is_nan() && !other.is_nan() && self.position() > other.position()
    }

    /// Whether `self >= other`.
    pub fn is_at_least(self, other: Single) -> (reaches: bool)
        ensures
            reaches == self.reaches(other),
    {
        !self.is_nan() && !other.is_nan() && self.position() >= other.position()
    }

    /// The larger of two numbers, or the one that is a number.
    pub fn max(self, other: Single) -> (larger: Single)
        ensures
            larger == self.larger(other),
    {
        if self.is_nan() || other.is_above(self) {
            other
        } else {
            self
        }
    }
}

/// Being above is transitive, and nothing is above itself.
pub proof fn law_above_is_an_order(a: Single, b: Single, c: Single)
    ensures
        !a.above(a),
        a.above(b) && b.above(c) ==> a.above(c),
        a.above(b) ==> !b.above(a),
{
}

/// Of two numbers exactly one is above the other, unless each reaches the
/// other.
pub proof fn law_numbers_compare(a: Single, b: Single)
    requires
        !a.nan(),
        !b.nan(),
    ensures
        a.above(b) <==> !b.reaches(a),
        a.reaches(b) || b.reaches(a),
        a.reaches(b) <==> a.above(b) || a.rank() == b.rank(),
{
}

/// The larger of two numbers is one of the two, and each is reached by it.
pub proof fn law_larger_reaches_both(a: Single, b: Single)
    requires
        !a.nan(),
        !b.nan(),
    ensures
        a.larger(b) == a || a.larger(b) == b,
        a.larger(b).reaches(a),
        a.larger(b).reaches(b),
{
}

/// Beside a pattern that stands for no number the other one is taken.
pub proof fn law_larger_skips_nan(a: Single, b: Single)
    requires
        a.nan() != b.nan(),
    ensures
        a.larger(b) == if a.nan() {
            b
        } else {
            a
        },
{
}

/// The value of a number of a given magnitude, in units of the smallest positive
/// number: a fraction of 23 bits, scaled by the exponent in the eight bits above
/// it, with a leading one unless the exponent is zero.
#[verifier::opaque]
pub open spec fn scaled(magnitude: int) -> int {
    let exponent = magnitude / 0x80_0000;
    let fraction = magnitude % 0x80_0000;
    if exponent == 0 {
        fraction
    } else {
        (0x80_0000 + fraction) * vstd::arithmetic::power2::pow2((exponent - 1) as nat)
    }
}

/// A larger magnitude has a larger value.
proof fn lemma_scaled_increases(x: int, y: int)
    requires
        0 <= x < y,
    ensures
        scaled(x) < scaled(y),
    decreases y - x,
{
    reveal(scaled);
    let w = y - 1;
    if x < w {
        lemma_scaled_increases(x, w);
    }
    let e = w / 0x80_0000;
    let f = w % 0x80_0000;
    if e > 0 {
        let p = vstd::arithmetic::power2::pow2((e - 1) as nat);
        vstd::arithmetic::power2::lemma_pow2_pos((e - 1) as nat);
        vstd::arithmetic::power2::lemma_pow2_unfold(e as nat);
        if f < 0x7f_ffff {
            assert(y / 0x80_0000 == e && y % 0x80_0000 == f + 1);
            assert(scaled(w) == (0x80_0000 + f) * p);
            assert(scaled(y) == (0x80_0000 + (f + 1)) * p);
            assert((0x80_0000 + f) * p < (0x80_0000 + (f + 1)) * p) by (nonlinear_arith)
                requires
                    p > 0,
            ;
        } else {
            assert(y / 0x80_0000 == e + 1 && y % 0x80_0000 == 0);
            assert(scaled(w) == (0x80_0000 + 0x7f_ffff) * p);
            assert(scaled(y) == (0x80_0000 + 0) * (2 * p));
            assert((0x80_0000 + 0x7f_ffff) * p < (0x80_0000 + 0) * (2 * p)) by (nonlinear_arith)
                requires
                    p > 0,
            ;
        }
    } else {
        vstd::arithmetic::power2::lemma2_to64();
        if f < 0x7f_ffff {
            assert(y / 0x80_0000 == 0 && y % 0x80_0000 == f + 1);
        } else {
            assert(y / 0x80_0000 == 1 && y % 0x80_0000 == 0);
            assert(scaled(w) == 0x7f_ffff);
            assert(scaled(y) == (0x80_0000 + 0) * vstd::arithmetic::power2::pow2(0));
        }
    }
}

/// Magnitudes are ordered as their values are, and only zero has the value zero.
proof fn lemma_scaled_compare(x: int, y: int)
    requires
        0 <= x,
        0 <= y,
    ensures
        x < y <==> scaled(x) < scaled(y),
        y < x <==> scaled(y) < scaled(x),
        x > 0 <==> scaled(x) > 0,
        y > 0 <==> scaled(y) > 0,
        scaled(x) >= 0,
        scaled(y) >= 0,
{
    assert(scaled(0) == 0) by {
        reveal(scaled);
    }
    if x < y {
        lemma_scaled_increases(x, y);
    } else if y < x {
        lemma_scaled_increases(y, x);
    }
    if x > 0 {
        lemma_scaled_increases(0, x);
    }
    if y > 0 {
        lemma_scaled_increases(0, y);
    }
}

/// The value of a number, in units of the smallest positive number; infinity
/// counts as the power of two that follows the largest number.
pub open spec fn value(a: Single) -> int {
    if a.bits >= 0x8000_0000 {
        -scaled(a.bits - 0x8000_0000)
    } else {
        scaled(a.bits as int)
    }
}

/// A pattern stands for no number if it has the highest exponent and a fraction.
proof fn lemma_no_number(a: Single)
    ensures
        a.nan() <==> a.bits % 0x8000_0000 / 0x80_0000 == 0xff && a.bits % 0x80_0000 != 0,
{
    let m = a.bits % 0x8000_0000;
    assert(m % 0x80_0000 == a.bits % 0x80_0000);
    assert(m > 0x7f80_0000 <==> m / 0x80_0000 == 0xff && m % 0x80_0000 != 0);
}

/// Ranks are ordered as values are.
proof fn lemma_values_compare(a: Single, b: Single)
    ensures
        a.rank() > b.rank() <==> value(a) > value(b),
        a.rank() >= b.rank() <==> value(a) >= value(b),
{
    lemma_scaled_compare(a.magnitude(), b.magnitude());
    assert(a.negative() ==> a.bits - 0x8000_0000 == a.magnitude());
    assert(b.negative() ==> b.bits - 0x8000_0000 == b.magnitude());
    assert(!a.negative() ==> a.bits == a.magnitude());
    assert(!b.negative() ==> b.bits == b.magnitude());
}

/// Comparing patterns compares the values that they stand for. A pattern with the
/// highest exponent and a fraction stands for none, and compares with nothing.
pub proof fn law_patterns_compare_as_values(a: Single, b: Single)
    ensures
        ({
            let no_a = a.bits % 0x8000_0000 / 0x80_0000 == 0xff && a.bits % 0x80_0000 != 0;
            let no_b = b.bits % 0x8000_0000 / 0x80_0000 == 0xff && b.bits % 0x80_0000 != 0;
            &&& a.nan() <==> no_a
            &&& a.above(b) <==> !no_a && !no_b && value(a) > value(b)
            &&& a.reaches(b) <==> !no_a && !no_b && value(a) >= value(b)
        }),
{
    lemma_no_number(a);
    lemma_no_number(b);
    lemma_values_compare(a, b);
}

/// The larger of two patterns that stand for no number stands for none either.
pub proof fn law_larger_of_no_numbers(a: Single, b: Single)
    requires
        a.nan(),
        b.nan(),
    ensures
        a.larger(b).nan(),
{
}

} // verus!
