use vstd::arithmetic::div_mod::lemma_div_is_ordered;
use vstd::arithmetic::div_mod::lemma_div_multiples_vanish;
use vstd::arithmetic::div_mod::lemma_div_pos_is_pos;
use vstd::arithmetic::mul::lemma_mul_inequality;
use vstd::arithmetic::mul::lemma_mul_nonnegative;
use vstd::prelude::*;

verus! {

/// Number of length units in one pixel.
pub const UNITS_PER_PIXEL: u64 = 64;

/// A signed length on screen, held as a whole number of 1/64 pixel.
#[derive(Clone, Copy, Debug, PartialEq, Eq, Structural)]
pub struct PixelLength {
    pub units: i64,
}

impl PixelLength {
    /// The length of `units` sixty-fourths of a pixel.
    pub fn new(units: i64) -> (r: PixelLength)
        ensures
            r.units == units,
    {
        PixelLength { units }
    }

    /// The empty length.
    pub fn zero() -> (r: PixelLength)
        ensures
            r.units == 0,
    {
        PixelLength { units: 0 }
    }
}

/// A non-negative scale factor, the fraction `num / den`.
#[derive(Clone, Copy, Debug, PartialEq, Eq, Structural)]
pub struct Scale {
    pub num: u64,
    pub den: u64,
}

/// `magnitude * num / den`, rounded towards zero.
pub open spec fn scaled_magnitude(magnitude: nat, num: nat, den: nat) -> nat {
    (magnitude * num / den) as nat
}

/// Scaling by a factor of at most one does not lengthen, and scaling by
/// exactly one changes nothing.
pub proof fn lemma_scaled_magnitude_bounds(magnitude: nat, num: nat, den: nat)
    requires
        0 < den,
        num <= den,
    ensures
        scaled_magnitude(magnitude, num, den) <= magnitude,
        num == den ==> scaled_magnitude(magnitude, num, den) == magnitude,
{
    let m = magnitude as int;
    let n = num as int;
    let d = den as int;
    lemma_mul_nonnegative(m, n);
    lemma_div_pos_is_pos(m * n, d);
    assert(m * n <= m * d) by {
        lemma_mul_inequality(n, d, m);
        assert(n * m == m * n) by (nonlinear_arith);
        assert(d * m == m * d) by (nonlinear_arith);
    }
    lemma_div_is_ordered(m * n, m * d, d);
    assert((m * d) / d == m) by {
        assert(m * d == d * m) by (nonlinear_arith);
        lemma_div_multiples_vanish(m, d);
    }
}

impl Scale {
    /// A scale is usable when its denominator is not zero.
    pub open spec fn well_formed(self) -> bool {
        self.den > 0
    }

    /// True of every fraction whose value is one.
    pub open spec fn is_unit(self) -> bool {
        self.num == self.den && self.den > 0
    }

    /// What a signed length of `units` becomes under this scale, rounded
    /// towards zero.
    pub open spec fn apply(self, units: int) -> int {
        if units >= 0 {
            scaled_magnitude(units as nat, self.num as nat, self.den as nat) as int
        } else {
            -(scaled_magnitude((-units) as nat, self.num as nat, self.den as nat) as int)
        }
    }

    /// The scale that changes nothing.
    pub fn unit() -> (r: Scale)
        ensures
            r == (Scale { num: 1, den: 1 }),
            r.is_unit(),
    {
        Scale { num: 1, den: 1 }
    }

    /// Whether this scale leaves every length as it is.
    pub fn is_identity(&self) -> (r: bool)
        ensures
            r == self.is_unit(),
    {
        self.num == self.den && self.den > 0
    }

    /// Scales a count of pixels, rounding down.
    pub fn scale_count(&self, count: usize) -> (r: usize)
        requires
            self.well_formed(),
            scaled_magnitude(count as nat, self.num as nat, self.den as nat) <= usize::MAX,
        ensures
            r == scaled_magnitude(count as nat, self.num as nat, self.den as nat),
    {
        proof {
            assert(0 <= (count as int) * (self.num as int) <= 0xffff_ffff_ffff_ffff
                * 0xffff_ffff_ffff_ffff) by (nonlinear_arith)
                requires
                    0 <= count <= 0xffff_ffff_ffff_ffff,
                    0 <= self.num <= 0xffff_ffff_ffff_ffff,
            ;
        }
        let product: u128 = (count as u128) * (self.num as u128);
        let quotient: u128 = product / (self.den as u128);
        quotient as usize
    }

    /// Scales a signed length, rounding towards zero.
    pub fn scale_length(&self, length: PixelLength) -> (r: PixelLength)
        requires
            self.well_formed(),
            i64::MIN <= self.apply(length.units as int) <= i64::MAX,
        ensures
            r.units == self.apply(length.units as int),
    {
        // The magnitude of the most negative length does not fit an i64.
        let magnitude: u64 = if length.units >= 0 {
            length.units as u64
        } else if length.units == i64::MIN {
            0x8000_0000_0000_0000u64
        } else {
            (-length.units) as u64
        };
        proof {
            assert(0 <= (magnitude as int) * (self.num as int) <= 0xffff_ffff_ffff_ffff
                * 0xffff_ffff_ffff_ffff) by (nonlinear_arith)
                requires
                    0 <= magnitude <= 0xffff_ffff_ffff_ffff,
                    0 <= self.num <= 0xffff_ffff_ffff_ffff,
            ;
        }
        let product: u128 = (magnitude as u128) * (self.num as u128);
        let quotient: u128 = product / (self.den as u128);
        if length.units >= 0 {
            PixelLength { units: quotient as i64 }
        } else if quotient == 0x8000_0000_0000_0000u128 {
            PixelLength { units: i64::MIN }
        } else {
            PixelLength { units: -(quotient as i64) }
        }
    }
}

} // verus!
