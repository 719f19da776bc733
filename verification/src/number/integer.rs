use vstd::prelude::*;

use crate::error::Error;

verus! {

/// 2^128, the modulus of the two's-complement view used for comparisons.
pub open spec fn two_pow_128() -> int {
    0x1_0000_0000_0000_0000_0000_0000_0000_0000int
}

/// The two's-complement bit pattern of `v` as an unsigned 128-bit number.
pub open spec fn u128_pattern(v: int) -> int {
    if v < 0 { v + two_pow_128() } else { v }
}

/// A number that can be any of the primitive integer types.
///
/// Two integers compare equal when their 128-bit two's-complement patterns
/// are equal, whatever their sizes and signedness.
#[derive(Debug, Clone, Copy)]
pub enum Integer {
    U8(u8),
    U16(u16),
    /// A 24-bit value: the most significant byte, then the low 16 bits.
    U24(u8, u16),
    U32(u32),
    U64(u64),
    U128(u128),
    USize(usize),

    I8(i8),
    I16(i16),
    I32(i32),
    I64(i64),
    I128(i128),
    ISize(isize),
}

impl Integer {
    /// The mathematical value held.
    pub open spec fn value(self) -> int {
        match self {
            Integer::U8(v) => v as int,
            Integer::U16(v) => v as int,
            Integer::U24(msb, lsb) => msb * 0x10000 + lsb,
            Integer::U32(v) => v as int,
            Integer::U64(v) => v as int,
            Integer::U128(v) => v as int,
            Integer::USize(v) => v as int,
            Integer::I8(v) => v as int,
            Integer::I16(v) => v as int,
            Integer::I32(v) => v as int,
            Integer::I64(v) => v as int,
            Integer::I128(v) => v as int,
            Integer::ISize(v) => v as int,
        }
    }

    /// The size, in bytes, of the variant's type.
    pub open spec fn spec_size(self) -> nat {
        match self {
            Integer::U8(_) => 1,
            Integer::U16(_) => 2,
            Integer::U24(_, _) => 3,
            Integer::U32(_) => 4,
            Integer::U64(_) => 8,
            Integer::U128(_) => 16,
            Integer::USize(_) => vstd::layout::size_of::<usize>(),
            Integer::I8(_) => 1,
            Integer::I16(_) => 2,
            Integer::I32(_) => 4,
            Integer::I64(_) => 8,
            Integer::I128(_) => 16,
            Integer::ISize(_) => vstd::layout::size_of::<isize>(),
        }
    }

    pub open spec fn spec_is_signed(self) -> bool {
        match self {
            Integer::I8(_) | Integer::I16(_) | Integer::I32(_) | Integer::I64(_)
            | Integer::I128(_) | Integer::ISize(_) => true,
            _ => false,
        }
    }

    /// The 128-bit two's-complement pattern of the value.
    pub open spec fn spec_as_u128(self) -> int {
        u128_pattern(self.value())
    }

    /// The size, in bytes, of the type.
    pub fn size(self) -> (r: usize)
        ensures
            r == self.spec_size(),
    {
        broadcast use vstd::layout::layout_of_primitives;
        match self {
            Integer::U8(_) => core::mem::size_of::<u8>(),
            Integer::U16(_) => core::mem::size_of::<u16>(),
            Integer::U24(_, _) => core::mem::size_of::<u16>() + core::mem::size_of::<u8>(),
            Integer::U32(_) => core::mem::size_of::<u32>(),
            Integer::U64(_) => core::mem::size_of::<u64>(),
            Integer::U128(_) => core::mem::size_of::<u128>(),
            Integer::USize(_) => core::mem::size_of::<usize>(),
            Integer::I8(_) => core::mem::size_of::<i8>(),
            Integer::I16(_) => core::mem::size_of::<i16>(),
            Integer::I32(_) => core::mem::size_of::<i32>(),
            Integer::I64(_) => core::mem::size_of::<i64>(),
            Integer::I128(_) => core::mem::size_of::<i128>(),
            Integer::ISize(_) => core::mem::size_of::<isize>(),
        }
    }

    /// Is it signed?
    pub fn is_signed(self) -> (r: bool)
        ensures
            r == self.spec_is_signed(),
    {
        match self {
            Integer::U8(_) => false,
            Integer::U16(_) => false,
            Integer::U24(_, _) => false,
            Integer::U32(_) => false,
            Integer::U64(_) => false,
            Integer::U128(_) => false,
            Integer::USize(_) => false,
            Integer::I8(_) => true,
            Integer::I16(_) => true,
            Integer::I32(_) => true,
            Integer::I64(_) => true,
            Integer::I128(_) => true,
            Integer::ISize(_) => true,
        }
    }

    /// Which of the thirteen variants this is (its position in the
    /// declaration).
    pub open spec fn variant(self) -> int {
        match self {
            Integer::U8(_) => 0,
            Integer::U16(_) => 1,
            Integer::U24(_, _) => 2,
            Integer::U32(_) => 3,
            Integer::U64(_) => 4,
            Integer::U128(_) => 5,
            Integer::USize(_) => 6,
            Integer::I8(_) => 7,
            Integer::I16(_) => 8,
            Integer::I32(_) => 9,
            Integer::I64(_) => 10,
            Integer::I128(_) => 11,
            Integer::ISize(_) => 12,
        }
    }

    /// The smallest value the variant's type can hold.
    pub open spec fn min_value(self) -> int {
        match self {
            Integer::I8(_) => i8::MIN as int,
            Integer::I16(_) => i16::MIN as int,
            Integer::I32(_) => i32::MIN as int,
            Integer::I64(_) => i64::MIN as int,
            Integer::I128(_) => i128::MIN as int,
            Integer::ISize(_) => isize::MIN as int,
            _ => 0,
        }
    }

    /// The largest value the variant's type can hold.
    pub open spec fn max_value(self) -> int {
        match self {
            Integer::U8(_) => u8::MAX as int,
            Integer::U16(_) => u16::MAX as int,
            Integer::U24(_, _) => 0xFF_FFFF,
            Integer::U32(_) => u32::MAX as int,
            Integer::U64(_) => u64::MAX as int,
            Integer::U128(_) => u128::MAX as int,
            Integer::USize(_) => usize::MAX as int,
            Integer::I8(_) => i8::MAX as int,
            Integer::I16(_) => i16::MAX as int,
            Integer::I32(_) => i32::MAX as int,
            Integer::I64(_) => i64::MAX as int,
            Integer::I128(_) => i128::MAX as int,
            Integer::ISize(_) => isize::MAX as int,
        }
    }

    /// Whether the variant's type is compatible with `usize`: unsigned and no
    /// larger than it.
    pub open spec fn spec_can_be_usize(self) -> bool {
        match self {
            Integer::USize(_) => true,
            _ => !self.spec_is_signed() && self.spec_size() <= vstd::layout::size_of::<usize>(),
        }
    }

    /// Whether the variant's type is compatible with `isize`: signed and no
    /// larger than it.
    pub open spec fn spec_can_be_isize(self) -> bool {
        match self {
            Integer::ISize(_) => true,
            _ => self.spec_is_signed() && self.spec_size() <= vstd::layout::size_of::<isize>(),
        }
    }

    /// Is the type compatible with [`usize`]?
    pub fn can_be_usize(self) -> (r: bool)
        ensures
            r == self.spec_can_be_usize(),
    {
        broadcast use vstd::layout::layout_of_primitives;
        match self {
            Integer::U8(_) => self.size() <= core::mem::size_of::<usize>(),
            Integer::U16(_) => self.size() <= core::mem::size_of::<usize>(),
            Integer::U24(_, _) => self.size() <= core::mem::size_of::<usize>(),
            Integer::U32(_) => self.size() <= core::mem::size_of::<usize>(),
            Integer::U64(_) => self.size() <= core::mem::size_of::<usize>(),
            Integer::U128(_) => self.size() <= core::mem::size_of::<usize>(),
            Integer::USize(_) => true,
            Integer::I8(_) => false,
            Integer::I16(_) => false,
            Integer::I32(_) => false,
            Integer::I64(_) => false,
            Integer::I128(_) => false,
            Integer::ISize(_) => false,
        }
    }

    /// Attempt to convert to a [`usize`].
    pub fn as_usize(self) -> (r: Result<usize, Error>)
        ensures
            r is Ok <==> self.spec_can_be_usize(),
            r matches Ok(v) ==> v as int == self.value(),
            r matches Err(e) ==> e == Error::CannotConvert,
    {
        broadcast use vstd::layout::layout_of_primitives;
        if !self.can_be_usize() {
            return Err(Error::CannotConvert);
        }
        match self {
            Integer::U8(v) => Ok(v as usize),
            Integer::U16(v) => Ok(v as usize),
            Integer::U24(msb, lsb) => Ok((msb as usize) * 0x10000 + (lsb as usize)),
            Integer::U32(v) => Ok(v as usize),
            Integer::U64(v) => Ok(v as usize),
            Integer::U128(v) => Ok(v as usize),
            Integer::USize(v) => Ok(v),
            _ => Err(Error::CannotConvert),
        }
    }

    /// Is the type compatible with [`isize`]?
    pub fn can_be_isize(self) -> (r: bool)
        ensures
            r == self.spec_can_be_isize(),
    {
        broadcast use vstd::layout::layout_of_primitives;
        match self {
            Integer::U8(_) => false,
            Integer::U16(_) => false,
            Integer::U24(_, _) => false,
            Integer::U32(_) => false,
            Integer::U64(_) => false,
            Integer::U128(_) => false,
            Integer::USize(_) => false,
            Integer::I8(_) => core::mem::size_of::<i8>() <= core::mem::size_of::<isize>(),
            Integer::I16(_) => core::mem::size_of::<i16>() <= core::mem::size_of::<isize>(),
            Integer::I32(_) => core::mem::size_of::<i32>() <= core::mem::size_of::<isize>(),
            Integer::I64(_) => core::mem::size_of::<i64>() <= core::mem::size_of::<isize>(),
            Integer::I128(_) => core::mem::size_of::<i128>() <= core::mem::size_of::<isize>(),
            Integer::ISize(_) => true,
        }
    }

    /// Attempt to convert to an [`isize`].
    pub fn as_isize(self) -> (r: Result<isize, Error>)
        ensures
            r is Ok <==> self.spec_can_be_isize(),
            r matches Ok(v) ==> v as int == self.value(),
            r matches Err(e) ==> e == Error::CannotConvert,
    {
        broadcast use vstd::layout::layout_of_primitives;
        if !self.can_be_isize() {
            return Err(Error::CannotConvert);
        }
        match self {
            Integer::I8(v) => Ok(v as isize),
            Integer::I16(v) => Ok(v as isize),
            Integer::I32(v) => Ok(v as isize),
            Integer::I64(v) => Ok(v as isize),
            Integer::I128(v) => Ok(v as isize),
            Integer::ISize(v) => Ok(v),
            _ => Err(Error::CannotConvert),
        }
    }

    /// Convert to a u128: the 128-bit two's-complement pattern of the value.
    ///
    /// Used for comparisons.
    pub fn as_u128(self) -> (r: u128)
        ensures
            r as int == self.spec_as_u128(),
    {
        match self {
            Integer::U8(v) => v as u128,
            Integer::U16(v) => v as u128,
            Integer::U24(msb, lsb) => (msb as u128) * 0x10000 + (lsb as u128),
            Integer::U32(v) => v as u128,
            Integer::U64(v) => v as u128,
            Integer::U128(v) => v,
            Integer::USize(v) => v as u128,
            Integer::I8(v) => signed_pattern(v as i128),
            Integer::I16(v) => signed_pattern(v as i128),
            Integer::I32(v) => signed_pattern(v as i128),
            Integer::I64(v) => signed_pattern(v as i128),
            Integer::I128(v) => signed_pattern(v),
            Integer::ISize(v) => signed_pattern(v as i128),
        }
    }

    /// The next value in the same type, `None` after the type's largest value.
    pub open spec fn next(self) -> Option<Integer> {
        if self.value() == self.max_value() {
            None
        } else {
            Some(
                match self {
                    Integer::U8(v) => Integer::U8((v + 1) as u8),
                    Integer::U16(v) => Integer::U16((v + 1) as u16),
                    Integer::U24(_, _) => Integer::U24(
                        ((self.value() + 1) / 0x10000) as u8,
                        ((self.value() + 1) % 0x10000) as u16,
                    ),
                    Integer::U32(v) => Integer::U32((v + 1) as u32),
                    Integer::U64(v) => Integer::U64((v + 1) as u64),
                    Integer::U128(v) => Integer::U128((v + 1) as u128),
                    Integer::USize(v) => Integer::USize((v + 1) as usize),
                    Integer::I8(v) => Integer::I8((v + 1) as i8),
                    Integer::I16(v) => Integer::I16((v + 1) as i16),
                    Integer::I32(v) => Integer::I32((v + 1) as i32),
                    Integer::I64(v) => Integer::I64((v + 1) as i64),
                    Integer::I128(v) => Integer::I128((v + 1) as i128),
                    Integer::ISize(v) => Integer::ISize((v + 1) as isize),
                },
            )
        }
    }

    /// Increment the value, keeping the type; `None` when the type's largest
    /// value would be exceeded.
    #[must_use]
    pub fn increment(self) -> (r: Option<Integer>)
        ensures
            r == self.next(),
            r is None <==> self.value() == self.max_value(),
            r matches Some(n) ==> n.variant() == self.variant() && n.value() == self.value() + 1,
    {
        match self {
            Integer::U8(v) => match v.checked_add(1) { Some(n) => Some(Integer::U8(n)), None => None },
            Integer::U16(v) => match v.checked_add(1) { Some(n) => Some(Integer::U16(n)), None => None },
            Integer::U24(msb, lsb) => {
                let i: u32 = (msb as u32) * 0x10000 + (lsb as u32) + 1;
                if i > 0x00FF_FFFF {
                    return None;
                }
                Some(Integer::U24((i / 0x10000) as u8, (i % 0x10000) as u16))
            },
            Integer::U32(v) => match v.checked_add(1) { Some(n) => Some(Integer::U32(n)), None => None },
            Integer::U64(v) => match v.checked_add(1) { Some(n) => Some(Integer::U64(n)), None => None },
            Integer::U128(v) => match v.checked_add(1) { Some(n) => Some(Integer::U128(n)), None => None },
            Integer::USize(v) => match v.checked_add(1) { Some(n) => Some(Integer::USize(n)), None => None },
            Integer::I8(v) => match v.checked_add(1) { Some(n) => Some(Integer::I8(n)), None => None },
            Integer::I16(v) => match v.checked_add(1) { Some(n) => Some(Integer::I16(n)), None => None },
            Integer::I32(v) => match v.checked_add(1) { Some(n) => Some(Integer::I32(n)), None => None },
            Integer::I64(v) => match v.checked_add(1) { Some(n) => Some(Integer::I64(n)), None => None },
            Integer::I128(v) => match v.checked_add(1) { Some(n) => Some(Integer::I128(n)), None => None },
            Integer::ISize(v) => match v.checked_add(1) { Some(n) => Some(Integer::ISize(n)), None => None },
        }
    }
}

/// The 128-bit two's-complement pattern of a signed value.
fn signed_pattern(v: i128) -> (r: u128)
    ensures
        r as int == u128_pattern(v as int),
{
    if v < 0 {
        let magnitude_less_one: u128 = (-(v + 1)) as u128;
        u128::MAX - magnitude_less_one
    } else {
        v as u128
    }
}

impl PartialEq for Integer {
    fn eq(&self, other: &Self) -> (r: bool) {
        self.as_u128() == other.as_u128()
    }
}

impl Eq for Integer {}

impl vstd::std_specs::cmp::PartialEqSpecImpl for Integer {
    open spec fn obeys_eq_spec() -> bool {
        true
    }

    open spec fn eq_spec(&self, other: &Integer) -> bool {
        self.spec_as_u128() == other.spec_as_u128()
    }
}

impl From<u8> for Integer {
    fn from(o: u8) -> (r: Integer) {
        Integer::U8(o)
    }
}

impl vstd::std_specs::convert::FromSpecImpl<u8> for Integer {
    open spec fn obeys_from_spec() -> bool {
        true
    }

    open spec fn from_spec(v: u8) -> Integer {
        Integer::U8(v)
    }
}

impl From<u16> for Integer {
    fn from(o: u16) -> (r: Integer) {
        Integer::U16(o)
    }
}

impl vstd::std_specs::convert::FromSpecImpl<u16> for Integer {
    open spec fn obeys_from_spec() -> bool {
        true
    }

    open spec fn from_spec(v: u16) -> Integer {
        Integer::U16(v)
    }
}

impl From<u32> for Integer {
    fn from(o: u32) -> (r: Integer) {
        Integer::U32(o)
    }
}

impl vstd::std_specs::convert::FromSpecImpl<u32> for Integer {
    open spec fn obeys_from_spec() -> bool {
        true
    }

    open spec fn from_spec(v: u32) -> Integer {
        Integer::U32(v)
    }
}

impl From<u64> for Integer {
    fn from(o: u64) -> (r: Integer) {
        Integer::U64(o)
    }
}

impl vstd::std_specs::convert::FromSpecImpl<u64> for Integer {
    open spec fn obeys_from_spec() -> bool {
        true
    }

    open spec fn from_spec(v: u64) -> Integer {
        Integer::U64(v)
    }
}

impl From<u128> for Integer {
    fn from(o: u128) -> (r: Integer) {
        Integer::U128(o)
    }
}

impl vstd::std_specs::convert::FromSpecImpl<u128> for Integer {
    open spec fn obeys_from_spec() -> bool {
        true
    }

    open spec fn from_spec(v: u128) -> Integer {
        Integer::U128(v)
    }
}

impl From<usize> for Integer {
    fn from(o: usize) -> (r: Integer) {
        Integer::USize(o)
    }
}

impl vstd::std_specs::convert::FromSpecImpl<usize> for Integer {
    open spec fn obeys_from_spec() -> bool {
        true
    }

    open spec fn from_spec(v: usize) -> Integer {
        Integer::USize(v)
    }
}

impl From<i8> for Integer {
    fn from(o: i8) -> (r: Integer) {
        Integer::I8(o)
    }
}

impl vstd::std_specs::convert::FromSpecImpl<i8> for Integer {
    open spec fn obeys_from_spec() -> bool {
        true
    }

    open spec fn from_spec(v: i8) -> Integer {
        Integer::I8(v)
    }
}

impl From<i16> for Integer {
    fn from(o: i16) -> (r: Integer) {
        Integer::I16(o)
    }
}

impl vstd::std_specs::convert::FromSpecImpl<i16> for Integer {
    open spec fn obeys_from_spec() -> bool {
        true
    }

    open spec fn from_spec(v: i16) -> Integer {
        Integer::I16(v)
    }
}

impl From<i32> for Integer {
    fn from(o: i32) -> (r: Integer) {
        Integer::I32(o)
    }
}

impl vstd::std_specs::convert::FromSpecImpl<i32> for Integer {
    open spec fn obeys_from_spec() -> bool {
        true
    }

    open spec fn from_spec(v: i32) -> Integer {
        Integer::I32(v)
    }
}

impl From<i64> for Integer {
    fn from(o: i64) -> (r: Integer) {
        Integer::I64(o)
    }
}

impl vstd::std_specs::convert::FromSpecImpl<i64> for Integer {
    open spec fn obeys_from_spec() -> bool {
        true
    }

    open spec fn from_spec(v: i64) -> Integer {
        Integer::I64(v)
    }
}

impl From<i128> for Integer {
    fn from(o: i128) -> (r: Integer) {
        Integer::I128(o)
    }
}

impl vstd::std_specs::convert::FromSpecImpl<i128> for Integer {
    open spec fn obeys_from_spec() -> bool {
        true
    }

    open spec fn from_spec(v: i128) -> Integer {
        Integer::I128(v)
    }
}

impl From<isize> for Integer {
    fn from(o: isize) -> (r: Integer) {
        Integer::ISize(o)
    }
}

impl vstd::std_specs::convert::FromSpecImpl<isize> for Integer {
    open spec fn obeys_from_spec() -> bool {
        true
    }

    open spec fn from_spec(v: isize) -> Integer {
        Integer::ISize(v)
    }
}

/// A 24-bit value from its most significant byte and its low 16 bits.
impl From<(u8, u16)> for Integer {
    fn from(o: (u8, u16)) -> (r: Integer) {
        Integer::U24(o.0, o.1)
    }
}

impl vstd::std_specs::convert::FromSpecImpl<(u8, u16)> for Integer {
    open spec fn obeys_from_spec() -> bool {
        true
    }

    open spec fn from_spec(v: (u8, u16)) -> Integer {
        Integer::U24(v.0, v.1)
    }
}

} // verus!
