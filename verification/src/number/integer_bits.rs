use vstd::prelude::*;

use crate::number::context::{pow256, lemma_pow256_values};
use crate::number::integer::Integer;

verus! {

impl Integer {
    /// The value's bit pattern in its own width: negative values count from
    /// 256 to the power of the size, as two's complement stores them.
    pub open spec fn spec_bits(self) -> nat {
        if self.value() < 0 {
            (self.value() + pow256(self.spec_size())) as nat
        } else {
            self.value() as nat
        }
    }

    /// The absolute value.
    pub open spec fn magnitude(self) -> nat {
        if self.value() < 0 {
            (-self.value()) as nat
        } else {
            self.value() as nat
        }
    }

    /// The bit pattern of the value in the width of its type.
    pub fn bits(self) -> (r: u128)
        ensures
            r == self.spec_bits(),
    {
        proof {
            lemma_pow256_values();
        }
        broadcast use vstd::layout::layout_of_primitives;
        match self {
            Integer::U8(v) => v as u128,
            Integer::U16(v) => v as u128,
            Integer::U24(msb, lsb) => (msb as u128) * 0x10000 + (lsb as u128),
            Integer::U32(v) => v as u128,
            Integer::U64(v) => v as u128,
            Integer::U128(v) => v,
            Integer::USize(v) => v as u128,
            Integer::I8(v) => {
                if v < 0 {
                    (v as i32 + 0x100) as u128
                } else {
                    v as u128
                }
            },
            Integer::I16(v) => {
                if v < 0 {
                    (v as i32 + 0x1_0000) as u128
                } else {
                    v as u128
                }
            },
            Integer::I32(v) => {
                if v < 0 {
                    (v as i64 + 0x1_0000_0000) as u128
                } else {
                    v as u128
                }
            },
            Integer::I64(v) => {
                if v < 0 {
                    (v as i128 + 0x1_0000_0000_0000_0000) as u128
                } else {
                    v as u128
                }
            },
            Integer::I128(v) => {
                if v < 0 {
                    let magnitude_less_one: u128 = (-(v + 1)) as u128;
                    u128::MAX - magnitude_less_one
                } else {
                    v as u128
                }
            },
            Integer::ISize(v) => {
                if v < 0 {
                    if core::mem::size_of::<isize>() == 8 {
                        (v as i128 + 0x1_0000_0000_0000_0000) as u128
                    } else {
                        (v as i128 + 0x1_0000_0000) as u128
                    }
                } else {
                    v as u128
                }
            },
        }
    }

    /// Whether the value is negative, and its absolute value.
    pub fn sign_and_magnitude(self) -> (r: (bool, u128))
        ensures
            r.0 == (self.value() < 0),
            r.1 == self.magnitude(),
    {
        match self {
            Integer::U8(v) => (false, v as u128),
            Integer::U16(v) => (false, v as u128),
            Integer::U24(msb, lsb) => (false, (msb as u128) * 0x10000 + (lsb as u128)),
            Integer::U32(v) => (false, v as u128),
            Integer::U64(v) => (false, v as u128),
            Integer::U128(v) => (false, v),
            Integer::USize(v) => (false, v as u128),
            Integer::I8(v) => signed_magnitude(v as i128),
            Integer::I16(v) => signed_magnitude(v as i128),
            Integer::I32(v) => signed_magnitude(v as i128),
            Integer::I64(v) => signed_magnitude(v as i128),
            Integer::I128(v) => signed_magnitude(v),
            Integer::ISize(v) => signed_magnitude(v as i128),
        }
    }
}

/// The sign and absolute value of a signed number.
fn signed_magnitude(v: i128) -> (r: (bool, u128))
    ensures
        r.0 == (v < 0),
        r.1 == (if v < 0 { -v } else { v as int }),
{
    if v < 0 {
        (true, (-(v + 1)) as u128 + 1)
    } else {
        (false, v as u128)
    }
}

} // verus!
