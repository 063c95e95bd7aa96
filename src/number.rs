use vstd::prelude::*;

verus! {

/// A script number. The runtime has a single numeric type, a double; a value pushed from a host
/// integer is held exactly as `Int`, a value pushed from a host float as its IEEE-754 bit pattern.
/// Precision boundary: a runtime holding only doubles loses integers beyond 2^53 in magnitude;
/// this model keeps every `i64` exactly, and only a `u64` above `i64::MAX` becomes a double,
/// rounded toward zero. Reading an `Int` as a float (`to_bits`) rounds toward zero beyond 2^53.
#[derive(Debug, Clone, Copy, PartialEq, Eq, Structural)]
pub enum JsNumber {
    Int(i64),
    Bits(u64),
}

pub const FRACTION_MASK: u64 = 0xF_FFFF_FFFF_FFFF;

pub const HIDDEN_BIT: u64 = 0x10_0000_0000_0000;

/// Position of the highest set bit of `m` (0 for 0 and 1).
pub open spec fn msb(m: u64) -> nat
    decreases m,
{
    if m <= 1 {
        0
    } else {
        1 + msb(m / 2)
    }
}

/// Bits of the double nearest below-or-at the magnitude `m` (exact while `m` has at most 53
/// significant bits), negated when `neg`.
pub open spec fn magnitude_bits(neg: bool, m: u64) -> u64 {
    if m == 0 {
        0
    } else {
        let p = msb(m) as u64;
        let mant: u64 = if p <= 52 {
            m << ((52 - p) as u64)
        } else {
            m >> ((p - 52) as u64)
        };
        let sign: u64 = if neg {
            0x8000_0000_0000_0000u64
        } else {
            0
        };
        sign | (((1023 + p) as u64) << 52u64) | (mant & FRACTION_MASK)
    }
}

/// Magnitude of an `i64`, as a `u64`.
pub open spec fn magnitude(n: i64) -> u64 {
    if n < 0 {
        (0 - n) as u64
    } else {
        n as u64
    }
}

/// The integral value that a double's bits denote, as sign and magnitude, when that value is
/// finite, integral and below 2^64 in magnitude.
pub open spec fn integral_of_bits(b: u64) -> Option<(bool, u64)> {
    let neg = (b >> 63u64) == 1;
    let exp = (b >> 52u64) & 0x7ffu64;
    let frac = b & FRACTION_MASK;
    if exp == 0 && frac == 0 {
        Some((neg, 0u64))
    } else if exp < 1023 || exp == 0x7ff {
        None
    } else {
        let e = (exp - 1023) as u64;
        let full = frac | HIDDEN_BIT;
        if e >= 52 {
            if e - 52 <= 11 {
                Some((neg, full << ((e - 52) as u64)))
            } else {
                None
            }
        } else {
            let low = (52 - e) as u64;
            if full & (((1u64 << low) - 1) as u64) != 0 {
                None
            } else {
                Some((neg, full >> low))
            }
        }
    }
}

/// The `i64` with the given sign and magnitude, when there is one.
pub open spec fn signed_of(neg: bool, mag: u64) -> Option<i64> {
    if !neg || mag == 0 {
        if mag <= 0x7fff_ffff_ffff_ffff {
            Some(mag as i64)
        } else {
            None
        }
    } else if mag <= 0x8000_0000_0000_0000 {
        Some((0 - mag) as i64)
    } else {
        None
    }
}

impl JsNumber {
    /// The bits of the double this number stands for.
    pub open spec fn spec_bits(self) -> u64 {
        match self {
            JsNumber::Int(n) => magnitude_bits(n < 0, magnitude(n)),
            JsNumber::Bits(b) => b,
        }
    }

    /// The `i64` this number stands for, when it is integral and in range.
    pub open spec fn spec_as_i64(self) -> Option<i64> {
        match self {
            JsNumber::Int(n) => Some(n),
            JsNumber::Bits(b) => match integral_of_bits(b) {
                Some((neg, mag)) => signed_of(neg, mag),
                None => None,
            },
        }
    }

    /// The `u64` this number stands for, when it is integral and in range.
    pub open spec fn spec_as_u64(self) -> Option<u64> {
        match self {
            JsNumber::Int(n) => if n >= 0 {
                Some(n as u64)
            } else {
                None
            },
            JsNumber::Bits(b) => match integral_of_bits(b) {
                Some((neg, mag)) => if !neg || mag == 0 {
                    Some(mag)
                } else {
                    None
                },
                None => None,
            },
        }
    }

    /// The number a host `u64` is encoded as.
    pub open spec fn spec_from_u64(n: u64) -> JsNumber {
        if n <= 0x7fff_ffff_ffff_ffff {
            JsNumber::Int(n as i64)
        } else {
            JsNumber::Bits(magnitude_bits(false, n))
        }
    }

    /// Whether this number is integral, so that a self-describing read yields an integer.
    pub open spec fn spec_is_integral(self) -> bool {
        self.spec_as_i64() is Some
    }

    /// The bits of the double this number stands for (rounded toward zero where the
    /// integer has more than 53 significant bits).
    pub fn to_bits(&self) -> (r: u64)
        ensures
            r == self.spec_bits(),
    {
        match *self {
            JsNumber::Int(n) => {
                let mag: u64 = if n < 0 {
                    (0i128 - n as i128) as u64
                } else {
                    n as u64
                };
                bits_of_magnitude(n < 0, mag)
            },
            JsNumber::Bits(b) => b,
        }
    }

    /// This number as an `i64`, when it is integral and in range.
    pub fn as_i64(&self) -> (r: Option<i64>)
        ensures
            r == self.spec_as_i64(),
    {
        match *self {
            JsNumber::Int(n) => Some(n),
            JsNumber::Bits(b) => match integral_bits(b) {
                Some((neg, mag)) => {
                    if !neg || mag == 0 {
                        if mag <= 0x7fff_ffff_ffff_ffff {
                            Some(mag as i64)
                        } else {
                            None
                        }
                    } else if mag <= 0x8000_0000_0000_0000 {
                        Some((0i128 - mag as i128) as i64)
                    } else {
                        None
                    }
                },
                None => None,
            },
        }
    }

    /// This number as a `u64`, when it is integral, not negative and in range.
    pub fn as_u64(&self) -> (r: Option<u64>)
        ensures
            r == self.spec_as_u64(),
    {
        match *self {
            JsNumber::Int(n) => if n >= 0 {
                Some(n as u64)
            } else {
                None
            },
            JsNumber::Bits(b) => match integral_bits(b) {
                Some((neg, mag)) => if !neg || mag == 0 {
                    Some(mag)
                } else {
                    None
                },
                None => None,
            },
        }
    }

    /// The number a host `u64` is encoded as: exact up to `i64::MAX`, a double above.
    pub fn from_u64(n: u64) -> (r: JsNumber)
        ensures
            r == JsNumber::spec_from_u64(n),
    {
        if n <= 0x7fff_ffff_ffff_ffff {
            JsNumber::Int(n as i64)
        } else {
            JsNumber::Bits(bits_of_magnitude(false, n))
        }
    }
}

/// Position of the highest set bit of `m`.
pub fn highest_bit(m: u64) -> (p: u32)
    ensures
        p as nat == msb(m),
        p < 64,
{
    let mut x: u64 = m;
    let mut p: u32 = 0;
    assert(m == m >> 0u64) by (bit_vector);
    while x > 1
        invariant
            p < 64,
            x == m >> (p as u64),
            p as nat + msb(x) == msb(m),
        decreases x,
    {
        let pp = p as u64;
        assert(x > 1 ==> pp < 63) by (bit_vector)
            requires
                x == m >> pp,
                pp < 64,
        ;
        assert((m >> pp) >> 1u64 == m >> ((pp + 1) as u64)) by (bit_vector)
            requires
                pp < 63,
        ;
        assert(x >> 1u64 == x / 2) by (bit_vector);
        x = x >> 1;
        p = p + 1;
    }
    p
}

/// Bits of the double for the magnitude `m` with the given sign.
pub fn bits_of_magnitude(neg: bool, m: u64) -> (r: u64)
    ensures
        r == magnitude_bits(neg, m),
{
    if m == 0 {
        0
    } else {
        let p = highest_bit(m) as u64;
        let mant: u64 = if p <= 52 {
            m << (52 - p)
        } else {
            m >> (p - 52)
        };
        let sign: u64 = if neg {
            0x8000_0000_0000_0000u64
        } else {
            0
        };
        sign | ((1023 + p) << 52u64) | (mant & FRACTION_MASK)
    }
}

/// The integral value that a double's bits denote, when finite, integral and in range.
pub fn integral_bits(b: u64) -> (r: Option<(bool, u64)>)
    ensures
        r == integral_of_bits(b),
{
    let neg = (b >> 63u64) == 1;
    let exp = (b >> 52u64) & 0x7ffu64;
    let frac = b & FRACTION_MASK;
    if exp == 0 && frac == 0 {
        Some((neg, 0u64))
    } else if exp < 1023 || exp == 0x7ff {
        None
    } else {
        let e = exp - 1023;
        let full = frac | HIDDEN_BIT;
        if e >= 52 {
            if e - 52 <= 11 {
                Some((neg, full << (e - 52)))
            } else {
                None
            }
        } else {
            let low = 52 - e;
            assert(1u64 << low >= 1) by (bit_vector)
                requires
                    low <= 52,
            ;
            if full & ((1u64 << low) - 1) != 0 {
                None
            } else {
                Some((neg, full >> low))
            }
        }
    }
}

} // verus!
