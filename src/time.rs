//! 48-bit integers and the microsecond instants and durations built on them

use vstd::prelude::*;

verus! {

/// The largest value that fits in 48 bits
pub const U48_MASK: u64 = 0xffff_ffff_ffff;

/// The number of distinct 48-bit values
pub open spec fn u48_modulus() -> int {
    0x1_0000_0000_0000
}

/// Half of the 48-bit range: instants closer than this compare without wrapping
pub open spec fn u48_half() -> int {
    0x8000_0000_0000
}

/// An error indicating that a value does not fit in the target type
#[derive(Copy, Clone, Debug, PartialEq, Eq, Structural)]
pub struct InvalidValue;

/// A 48-bit unsigned integer
#[derive(Copy, Clone, Debug, PartialEq, Eq, Structural, PartialOrd, Ord, Hash, Default)]
pub struct U48(u64);

impl View for U48 {
    type V = int;

    /// The value; the type's invariant keeps the field below 2^48, so the reduction only
    /// makes that bound visible without the invariant
    closed spec fn view(&self) -> int {
        self.0 as int % u48_modulus()
    }
}

/// Every 48-bit integer lies in `[0, 2^48)`.
pub broadcast proof fn lemma_u48_range(x: U48)
    ensures
        0 <= (#[trigger] x@) <= U48_MASK,
{
}

impl U48 {
    #[verifier::type_invariant]
    spec fn in_range(self) -> bool {
        self.0 <= U48_MASK
    }

    /// The minimum 48-bit integer value
    pub fn min_value() -> (r: U48)
        ensures
            r@ == 0,
    {
        U48(0)
    }

    /// The maximum 48-bit integer value
    pub fn max_value() -> (r: U48)
        ensures
            r@ == U48_MASK,
    {
        U48(U48_MASK)
    }

    /// The value as a `u64`
    pub fn as_u64(&self) -> (r: u64)
        ensures
            r == self@,
            r <= U48_MASK,
    {
        proof {
            use_type_invariant(self);
        }
        self.0
    }

    /// Adds two integers, wrapping on overflow
    pub fn wrapping_add(&self, rhs: Self) -> (r: Self)
        ensures
            r@ == (self@ + rhs@) % u48_modulus(),
    {
        proof {
            use_type_invariant(self);
            use_type_invariant(rhs);
        }
        let s: u64 = self.0 + rhs.0;
        assert((s & 0xffff_ffff_ffff) == s % 0x1_0000_0000_0000) by (bit_vector);
        U48(s & U48_MASK)
    }

    /// Subtracts two integers, wrapping on underflow
    pub fn wrapping_sub(&self, rhs: Self) -> (r: Self)
        ensures
            r@ == (self@ - rhs@) % u48_modulus(),
    {
        proof {
            use_type_invariant(self);
            use_type_invariant(rhs);
        }
        let a: u64 = self.0;
        let b: u64 = rhs.0;
        if a >= b {
            let d: u64 = a - b;
            assert(d == (a - b) % 0x1_0000_0000_0000);
            U48(d)
        } else {
            let d: u64 = (a + 0x1_0000_0000_0000) - b;
            assert(d == (a - b) % 0x1_0000_0000_0000);
            U48(d)
        }
    }

    /// Converts a `u8`
    pub fn from_u8(small: u8) -> (r: U48)
        ensures
            r@ == small,
    {
        U48(small as u64)
    }

    /// Converts a `u16`
    pub fn from_u16(small: u16) -> (r: U48)
        ensures
            r@ == small,
    {
        U48(small as u64)
    }

    /// Converts a `u32`
    pub fn from_u32(small: u32) -> (r: U48)
        ensures
            r@ == small,
    {
        U48(small as u64)
    }

    /// Converts a `u64`, failing if it does not fit in 48 bits
    pub fn try_from(value: u64) -> (r: Result<U48, InvalidValue>)
        ensures
            value <= U48_MASK <==> r is Ok,
            r is Ok ==> r->Ok_0@ == value,
    {
        if value <= U48_MASK {
            Ok(U48(value))
        } else {
            Err(InvalidValue)
        }
    }

    /// Converts an `i8`, failing if it is negative
    pub fn try_from_i8(small: i8) -> (r: Result<U48, InvalidValue>)
        ensures
            small >= 0 <==> r is Ok,
            r is Ok ==> r->Ok_0@ == small,
    {
        if small >= 0 {
            Ok(U48(small as u64))
        } else {
            Err(InvalidValue)
        }
    }

    /// Converts an `i16`, failing if it is negative
    pub fn try_from_i16(small: i16) -> (r: Result<U48, InvalidValue>)
        ensures
            small >= 0 <==> r is Ok,
            r is Ok ==> r->Ok_0@ == small,
    {
        if small >= 0 {
            Ok(U48(small as u64))
        } else {
            Err(InvalidValue)
        }
    }

    /// Converts an `i32`, failing if it is negative
    pub fn try_from_i32(small: i32) -> (r: Result<U48, InvalidValue>)
        ensures
            small >= 0 <==> r is Ok,
            r is Ok ==> r->Ok_0@ == small,
    {
        if small >= 0 {
            Ok(U48(small as u64))
        } else {
            Err(InvalidValue)
        }
    }

    /// Converts to a `u32`, failing if the value does not fit
    pub fn try_into_u32(&self) -> (r: Result<u32, InvalidValue>)
        ensures
            self@ <= u32::MAX <==> r is Ok,
            r is Ok ==> r->Ok_0 == self@,
    {
        proof {
            use_type_invariant(self);
        }
        if self.0 <= u32::MAX as u64 {
            Ok(self.0 as u32)
        } else {
            Err(InvalidValue)
        }
    }

    /// Adds two integers; the sum must fit in 48 bits
    pub fn add(self, rhs: Self) -> (r: Self)
        requires
            self@ + rhs@ <= U48_MASK,
        ensures
            r@ == self@ + rhs@,
    {
        proof {
            use_type_invariant(self);
            use_type_invariant(rhs);
        }
        U48(self.0 + rhs.0)
    }

    /// Subtracts two integers; the difference must not be negative
    pub fn sub(self, rhs: Self) -> (r: Self)
        requires
            self@ >= rhs@,
        ensures
            r@ == self@ - rhs@,
    {
        proof {
            use_type_invariant(self);
            use_type_invariant(rhs);
        }
        U48(self.0 - rhs.0)
    }

    /// Multiplies by a `u32`; the product must fit in 48 bits
    pub fn mul(self, rhs: u32) -> (r: Self)
        requires
            self@ * rhs <= U48_MASK,
        ensures
            r@ == self@ * rhs,
    {
        proof {
            use_type_invariant(self);
        }
        let p: u64 = self.0 * rhs as u64;
        U48(p)
    }

    /// Divides by a nonzero `u32`
    pub fn div(self, rhs: u32) -> (r: Self)
        requires
            rhs != 0,
        ensures
            r@ == self@ / (rhs as int),
    {
        proof {
            use_type_invariant(self);
            assert(self.0 / (rhs as u64) <= self.0) by (nonlinear_arith)
                requires rhs != 0;
        }
        U48(self.0 / rhs as u64)
    }

    /// Remainder of division by a nonzero `u32`
    pub fn rem(self, rhs: u32) -> (r: Self)
        requires
            rhs != 0,
        ensures
            r@ == self@ % (rhs as int),
    {
        proof {
            use_type_invariant(self);
            assert(self.0 % (rhs as u64) <= self.0) by (nonlinear_arith)
                requires rhs != 0;
        }
        U48(self.0 % rhs as u64)
    }

    /// Shifts right by fewer than 64 bits
    pub fn shr(self, rhs: u32) -> (r: Self)
        requires
            rhs < 64,
        ensures
            r@ == self@ / (vstd::arithmetic::power2::pow2(rhs as nat) as int),
    {
        proof {
            use_type_invariant(self);
        }
        let s: u64 = rhs as u64;
        let v: u64 = self.0 >> s;
        proof {
            vstd::bits::lemma_u64_shr_is_div(self.0, s);
            let x = self.0;
            assert((x >> s) <= x) by (bit_vector);
        }
        U48(v)
    }
}

/// How two instants are ordered, given that they lie less than half the 48-bit range apart:
/// `a` is earlier when `b - a`, taken modulo 2^48, is below half the range, and later
/// otherwise (so at exactly half the range, `a` counts as later)
pub open spec fn wrapping_order(a: int, b: int) -> std::cmp::Ordering {
    let d = (b - a) % u48_modulus();
    if d == 0 {
        std::cmp::Ordering::Equal
    } else if d < u48_half() {
        std::cmp::Ordering::Less
    } else {
        std::cmp::Ordering::Greater
    }
}

/// A duration in microseconds
#[derive(Copy, Clone, Debug, PartialEq, Eq, Structural, PartialOrd, Ord, Hash, Default)]
pub struct MicrosecondsDuration48(pub U48);

impl MicrosecondsDuration48 {
    /// Creates a duration
    pub fn new(micros: U48) -> (r: Self)
        ensures
            r.0 == micros,
    {
        MicrosecondsDuration48(micros)
    }

    /// The length of this duration in microseconds
    pub fn as_microseconds(&self) -> (r: U48)
        ensures
            r == self.0,
    {
        self.0
    }
}

/// An instant in microseconds, wrapping after 2^48 ticks
#[derive(Copy, Clone, Debug, PartialEq, Eq, Structural, Hash, Default)]
pub struct Microseconds48(pub U48);

impl Microseconds48 {
    /// Creates an instant
    pub fn new(ticks: U48) -> (r: Self)
        ensures
            r.0 == ticks,
    {
        Microseconds48(ticks)
    }

    /// The number of ticks of this instant
    pub fn ticks(&self) -> (r: U48)
        ensures
            r == self.0,
    {
        self.0
    }

    /// Compares two instants, assuming that they are less than half the range apart
    ///
    /// Instants further apart than that are taken to have wrapped, so the order is reversed.
    pub fn overflow_safe_compare(&self, other: &Self) -> (r: std::cmp::Ordering)
        ensures
            r == wrapping_order(self.0@, other.0@),
    {
        let d = other.0.wrapping_sub(self.0);
        let dv: u64 = d.as_u64();
        if dv == 0 {
            std::cmp::Ordering::Equal
        } else if dv < 0x8000_0000_0000 {
            std::cmp::Ordering::Less
        } else {
            std::cmp::Ordering::Greater
        }
    }

    /// The time elapsed from `earlier` to this instant, assuming time only moves forward
    pub fn duration_since(&self, earlier: &Self) -> (r: MicrosecondsDuration48)
        ensures
            r.0@ == (self.0@ - earlier.0@) % u48_modulus(),
    {
        MicrosecondsDuration48(self.0.wrapping_sub(earlier.0))
    }

    /// The instant a duration after this one, wrapping around
    pub fn add_duration(&self, duration: MicrosecondsDuration48) -> (r: Self)
        ensures
            r.0@ == (self.0@ + duration.0@) % u48_modulus(),
    {
        Microseconds48(self.0.wrapping_add(duration.0))
    }
}

/// Two instants compare equal exactly when they hold the same ticks; when they lie less than
/// half the 48-bit range apart, the comparison agrees with the order of their ticks.
pub proof fn lemma_compare_matches_ticks(a: Microseconds48, b: Microseconds48)
    ensures
        (wrapping_order(a.0@, b.0@) == std::cmp::Ordering::Equal) <==> a.0@ == b.0@,
        (a.0@ - b.0@ < u48_half() && b.0@ - a.0@ < u48_half()) ==> {
            &&& (wrapping_order(a.0@, b.0@) == std::cmp::Ordering::Greater) <==> a.0@ > b.0@
            &&& (wrapping_order(a.0@, b.0@) == std::cmp::Ordering::Less) <==> a.0@ < b.0@
        },
{
    lemma_u48_range(a.0);
    lemma_u48_range(b.0);
}

} // verus!
