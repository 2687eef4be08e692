//! Numbers of the language: IEEE-754 binary64 values, held by their bit pattern.
//!
//! The library never computes with floating point itself. What can be read off the
//! bit pattern (sign, order, whether a value is a natural number) is done here on
//! integers; sums, products, parsing and printing are asked of the host.

use vstd::prelude::*;
use vstd::std_specs::cmp::PartialEqSpecImpl;

verus! {

/// An IEEE-754 binary64 value, stored as its 64 bits.
#[derive(Clone, Copy, Debug)]
pub struct Number {
    pub bits: u64,
}

/// The bit that is set in a negative number.
pub const SIGN_BIT: u64 = 0x8000_0000_0000_0000;

/// The bits of positive infinity: the exponent is all ones, the fraction zero.
pub const INFINITY_BITS: u64 = 0x7FF0_0000_0000_0000;

/// The bits of 1.
pub const ONE_BITS: u64 = 0x3FF0_0000_0000_0000;

/// Two to the power 52: the bit that a normal number has before its fraction.
pub const HIDDEN_BIT: u64 = 0x0010_0000_0000_0000;

/// The bits without the sign.
pub open spec fn magnitude(bits: u64) -> u64 {
    if bits >= SIGN_BIT {
        (bits - SIGN_BIT) as u64
    } else {
        bits
    }
}

/// Whether the bits encode a NaN: the exponent is all ones and the fraction is not zero.
pub open spec fn is_nan(bits: u64) -> bool {
    magnitude(bits) > INFINITY_BITS
}

/// The place of a value that is not a NaN in the order of the numbers: binary64
/// values are ordered as sign-and-magnitude integers, with both zeros at 0.
pub open spec fn ordinal(bits: u64) -> int {
    if bits >= SIGN_BIT {
        -(magnitude(bits) as int)
    } else {
        magnitude(bits) as int
    }
}

/// IEEE equality: a NaN equals nothing, the two zeros are equal.
pub open spec fn number_equal(a: u64, b: u64) -> bool {
    !is_nan(a) && !is_nan(b) && ordinal(a) == ordinal(b)
}

/// IEEE `<`: false whenever a NaN is involved.
pub open spec fn number_less(a: u64, b: u64) -> bool {
    !is_nan(a) && !is_nan(b) && ordinal(a) < ordinal(b)
}

/// The biased exponent, 0 to 2047.
pub open spec fn exponent(bits: u64) -> u64 {
    magnitude(bits) / HIDDEN_BIT
}

/// The significand with its hidden bit, for a normal value.
pub open spec fn significand(bits: u64) -> u64 {
    (magnitude(bits) % HIDDEN_BIT + HIDDEN_BIT) as u64
}

/// The natural number that the bits stand for, if they stand for one that fits in
/// 64 bits; `u64::MAX` for every larger finite integer. `None` for a negative value
/// other than `-0.0`, a fraction, an infinity and a NaN.
pub open spec fn natural_of(bits: u64) -> Option<u64> {
    let e = exponent(bits);
    let m = significand(bits);
    if magnitude(bits) == 0 {
        Some(0u64)
    } else if bits >= SIGN_BIT || e < 1023 || e == 2047 {
        None
    } else if e >= 1087 {
        Some(u64::MAX)
    } else if e >= 1075 {
        Some((m * pow2_small((e - 1075) as nat)) as u64)
    } else if m as nat % pow2_small((1075 - e) as nat) == 0 {
        Some((m as nat / pow2_small((1075 - e) as nat)) as u64)
    } else {
        None
    }
}

/// Two to the power `k`.
pub open spec fn pow2_small(k: nat) -> nat
    decreases k,
{
    if k == 0 {
        1
    } else {
        2 * pow2_small((k - 1) as nat)
    }
}

proof fn lemma_pow2_monotonic(j: nat, k: nat)
    requires
        j <= k,
    ensures
        1 <= pow2_small(j) <= pow2_small(k),
    decreases k,
{
    if j < k {
        lemma_pow2_monotonic(j, (k - 1) as nat);
    } else if k > 0 {
        lemma_pow2_monotonic((j - 1) as nat, (k - 1) as nat);
    }
}

/// Powers of two are positive, and small for small exponents.
proof fn lemma_pow2_small(k: nat)
    ensures
        pow2_small(k) >= 1,
        k <= 63 ==> pow2_small(k) <= 0x8000_0000_0000_0000,
        k <= 52 ==> pow2_small(k) <= HIDDEN_BIT,
        k <= 11 ==> pow2_small(k) <= 2048,
{
    lemma_pow2_monotonic(k, k);
    if k <= 63 {
        lemma_pow2_monotonic(k, 63);
        assert(pow2_small(63) == 0x8000_0000_0000_0000) by {
            reveal_with_fuel(pow2_small, 65);
        }
    }
    if k <= 52 {
        lemma_pow2_monotonic(k, 52);
        assert(pow2_small(52) == HIDDEN_BIT) by {
            reveal_with_fuel(pow2_small, 54);
        }
    }
    if k <= 11 {
        lemma_pow2_monotonic(k, 11);
        assert(pow2_small(11) == 2048) by {
            reveal_with_fuel(pow2_small, 13);
        }
    }
}

/// Computes `pow2_small(k)`.
fn power_of_two(k: u64) -> (r: u64)
    requires
        k < 64,
    ensures
        r == pow2_small(k as nat),
{
    let mut r: u64 = 1;
    let mut i: u64 = 0;
    while i < k
        invariant
            i <= k < 64,
            r == pow2_small(i as nat),
        decreases k - i,
    {
        proof {
            lemma_pow2_small((i + 1) as nat);
        }
        r = r * 2;
        i += 1;
    }
    r
}

impl Number {
    /// The number with its sign flipped.
    pub open spec fn spec_negated(self) -> Number {
        Number { bits: if self.bits >= SIGN_BIT { (self.bits - SIGN_BIT) as u64 } else { (self.bits + SIGN_BIT) as u64 } }
    }

    /// The number with the given bit pattern.
    pub fn from_bits(bits: u64) -> (r: Number)
        ensures
            r.bits == bits,
    {
        Number { bits }
    }

    /// The bit pattern.
    pub fn to_bits(&self) -> (r: u64)
        ensures
            r == self.bits,
    {
        self.bits
    }

    /// Positive zero.
    pub fn zero() -> (r: Number)
        ensures
            r.bits == 0,
    {
        Number { bits: 0 }
    }

    /// One.
    pub fn one() -> (r: Number)
        ensures
            r.bits == ONE_BITS,
    {
        Number { bits: ONE_BITS }
    }

    fn magnitude(&self) -> (r: u64)
        ensures
            r == magnitude(self.bits),
    {
        if self.bits >= SIGN_BIT {
            self.bits - SIGN_BIT
        } else {
            self.bits
        }
    }

    /// Whether the number is a NaN.
    pub fn is_nan(&self) -> (r: bool)
        ensures
            r == is_nan(self.bits),
    {
        self.magnitude() > INFINITY_BITS
    }

    /// Whether the number is `0.0` or `-0.0`.
    pub fn is_zero(&self) -> (r: bool)
        ensures
            r == (magnitude(self.bits) == 0),
            r == number_equal(self.bits, 0),
    {
        self.magnitude() == 0
    }

    /// IEEE equality.
    pub fn equals(&self, other: &Number) -> (r: bool)
        ensures
            r == number_equal(self.bits, other.bits),
    {
        if self.is_nan() || other.is_nan() {
            false
        } else if self.magnitude() == 0 {
            other.magnitude() == 0
        } else {
            self.bits == other.bits
        }
    }

    /// IEEE `<`.
    pub fn less_than(&self, other: &Number) -> (r: bool)
        ensures
            r == number_less(self.bits, other.bits),
    {
        if self.is_nan() || other.is_nan() {
            false
        } else {
            let a = self.magnitude();
            let b = other.magnitude();
            if self.bits >= SIGN_BIT {
                if other.bits >= SIGN_BIT {
                    b < a
                } else {
                    a != 0 || b != 0
                }
            } else {
                if other.bits >= SIGN_BIT {
                    false
                } else {
                    a < b
                }
            }
        }
    }

    /// The number with its sign flipped, as unary minus gives it.
    pub fn negated(&self) -> (r: Number)
        ensures
            r == self.spec_negated(),
    {
        if self.bits >= SIGN_BIT {
            Number { bits: self.bits - SIGN_BIT }
        } else {
            Number { bits: self.bits + SIGN_BIT }
        }
    }

    /// The natural number that this number stands for, saturated at `u64::MAX`;
    /// `None` where it is negative, fractional, infinite or a NaN.
    pub fn to_natural(&self) -> (r: Option<u64>)
        ensures
            r == natural_of(self.bits),
    {
        let mag = self.magnitude();
        let e = mag / HIDDEN_BIT;
        let m = mag % HIDDEN_BIT + HIDDEN_BIT;
        if mag == 0 {
            Some(0)
        } else if self.bits >= SIGN_BIT || e < 1023 || e == 2047 {
            None
        } else if e >= 1087 {
            Some(u64::MAX)
        } else if e >= 1075 {
            let p = power_of_two(e - 1075);
            proof {
                lemma_pow2_small((e - 1075) as nat);
                assert(m * p <= 0x001F_FFFF_FFFF_FFFF * 2048) by (nonlinear_arith)
                    requires
                        m <= 0x001F_FFFF_FFFF_FFFF,
                        p <= 2048,
                ;
            }
            Some(m * p)
        } else {
            let p = power_of_two(1075 - e);
            proof {
                lemma_pow2_small((1075 - e) as nat);
            }
            if m % p == 0 {
                Some(m / p)
            } else {
                None
            }
        }
    }
}

impl PartialEq for Number {
    fn eq(&self, other: &Number) -> (r: bool) {
        self.equals(other)
    }
}

impl PartialEqSpecImpl for Number {
    open spec fn obeys_eq_spec() -> bool {
        true
    }

    open spec fn eq_spec(&self, other: &Number) -> bool {
        number_equal(self.bits, other.bits)
    }
}

} // verus!
