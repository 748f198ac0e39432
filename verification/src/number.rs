use vstd::prelude::*;

verus! {

/// A JSON number as the JSON data model keeps it: a non-negative integer, a
/// negative integer, or a finite IEEE-754 double given by its bit pattern.
#[derive(Clone, Copy, Debug, PartialEq, Eq, Structural)]
pub enum JsonNumber {
    PosInt(u64),
    NegInt(i64),
    Float(u64),
}

/// The bit pattern of a double is finite when its exponent is not all ones.
pub open spec fn float_bits_finite(bits: u64) -> bool {
    (bits >> 52u64) & 0x7ffu64 != 0x7ffu64
}

/// The bit pattern of a double is `+0.0` or `-0.0`.
pub open spec fn float_bits_zero(bits: u64) -> bool {
    bits & 0x7fff_ffff_ffff_ffffu64 == 0
}

/// A non-finite double is a NaN when its mantissa is not zero.
pub open spec fn float_bits_nan(bits: u64) -> bool {
    !float_bits_finite(bits) && bits & 0x000f_ffff_ffff_ffffu64 != 0
}

/// The sign bit of a double.
pub open spec fn float_bits_negative(bits: u64) -> bool {
    bits >> 63u64 == 1
}

impl JsonNumber {
    /// A negative integer is kept as `NegInt` only, and a double is finite.
    pub open spec fn wf(self) -> bool {
        match self {
            JsonNumber::PosInt(_) => true,
            JsonNumber::NegInt(i) => i < 0,
            JsonNumber::Float(bits) => float_bits_finite(bits),
        }
    }

    /// Number equality of the JSON data model: integers of the same kind by
    /// value, doubles by value (so `+0.0` equals `-0.0`), and never an
    /// integer with a double.
    pub open spec fn equiv(self, other: JsonNumber) -> bool {
        match (self, other) {
            (JsonNumber::PosInt(a), JsonNumber::PosInt(b)) => a == b,
            (JsonNumber::NegInt(a), JsonNumber::NegInt(b)) => a == b,
            (JsonNumber::Float(a), JsonNumber::Float(b)) => a == b || (float_bits_zero(a)
                && float_bits_zero(b)),
            _ => false,
        }
    }

    /// The number of an unsigned integer.
    pub fn from_u64(n: u64) -> (r: JsonNumber)
        ensures
            r == JsonNumber::PosInt(n),
            r.wf(),
    {
        JsonNumber::PosInt(n)
    }

    /// The number of a signed integer: `PosInt` when it is not negative.
    pub fn from_i64(n: i64) -> (r: JsonNumber)
        ensures
            n >= 0 ==> r == JsonNumber::PosInt(n as u64),
            n < 0 ==> r == JsonNumber::NegInt(n),
            r.wf(),
    {
        if n >= 0 {
            JsonNumber::PosInt(n as u64)
        } else {
            JsonNumber::NegInt(n)
        }
    }

    /// The number of a double given by its bit pattern; `None` when the double
    /// is a NaN or an infinity.
    pub fn from_float_bits(bits: u64) -> (r: Option<JsonNumber>)
        ensures
            float_bits_finite(bits) ==> r == Some(JsonNumber::Float(bits)),
            !float_bits_finite(bits) ==> r is None,
            r matches Some(n) ==> n.wf(),
    {
        if is_finite_bits(bits) {
            Some(JsonNumber::Float(bits))
        } else {
            None
        }
    }

    /// Number equality, as `equiv` states it.
    pub fn equals(&self, other: &JsonNumber) -> (r: bool)
        ensures
            r == self.equiv(*other),
    {
        match (*self, *other) {
            (JsonNumber::PosInt(a), JsonNumber::PosInt(b)) => a == b,
            (JsonNumber::NegInt(a), JsonNumber::NegInt(b)) => a == b,
            (JsonNumber::Float(a), JsonNumber::Float(b)) => a == b || (is_zero_bits(a)
                && is_zero_bits(b)),
            _ => false,
        }
    }
}

/// Whether the double with this bit pattern is finite.
pub fn is_finite_bits(bits: u64) -> (r: bool)
    ensures
        r == float_bits_finite(bits),
{
    (bits >> 52u64) & 0x7ffu64 != 0x7ffu64
}

/// Whether the double with this bit pattern is a zero of either sign.
pub fn is_zero_bits(bits: u64) -> (r: bool)
    ensures
        r == float_bits_zero(bits),
{
    bits & 0x7fff_ffff_ffff_ffffu64 == 0
}

/// Whether the double with this bit pattern is a NaN.
pub fn is_nan_bits(bits: u64) -> (r: bool)
    ensures
        r == float_bits_nan(bits),
{
    !is_finite_bits(bits) && bits & 0x000f_ffff_ffff_ffffu64 != 0
}

/// Whether the double with this bit pattern has its sign bit set.
pub fn is_negative_bits(bits: u64) -> (r: bool)
    ensures
        r == float_bits_negative(bits),
{
    bits >> 63u64 == 1
}

} // verus!
