use vstd::prelude::*;

use crate::error::Error;
use crate::number::context::{
    Context, Endian, be_nat, le_nat, signed_of, unsigned_value, lemma_pow256_values,
    lemma_le_is_reversed_be, lemma_two_bytes,
};
use crate::number::integer::Integer;

verus! {

/// Defines how data is read from a [`Context`] to produce an [`Integer`].
#[derive(Debug, Clone, Copy)]
pub enum IntegerReader {
    /// Unsigned 8-bit integer
    U8,
    /// Unsigned 16-bit integer
    U16(Endian),
    /// Unsigned 24-bit integer
    U24(Endian),
    /// Unsigned 32-bit integer
    U32(Endian),
    /// Unsigned 64-bit integer
    U64(Endian),
    /// Unsigned 128-bit integer
    U128(Endian),
    /// Signed 8-bit integer
    I8,
    /// Signed 16-bit integer
    I16(Endian),
    /// Signed 32-bit integer
    I32(Endian),
    /// Signed 64-bit integer
    I64(Endian),
    /// Signed 128-bit integer
    I128(Endian),
}

impl IntegerReader {
    /// The number of bytes read.
    pub open spec fn spec_size(self) -> nat {
        match self {
            IntegerReader::U8 | IntegerReader::I8 => 1,
            IntegerReader::U16(_) | IntegerReader::I16(_) => 2,
            IntegerReader::U24(_) => 3,
            IntegerReader::U32(_) | IntegerReader::I32(_) => 4,
            IntegerReader::U64(_) | IntegerReader::I64(_) => 8,
            IntegerReader::U128(_) | IntegerReader::I128(_) => 16,
        }
    }

    /// The byte order (big for the single-byte readers).
    pub open spec fn endian(self) -> Endian {
        match self {
            IntegerReader::U8 | IntegerReader::I8 => Endian::Big,
            IntegerReader::U16(e) | IntegerReader::U24(e) | IntegerReader::U32(e)
            | IntegerReader::U64(e) | IntegerReader::U128(e) | IntegerReader::I16(e)
            | IntegerReader::I32(e) | IntegerReader::I64(e) | IntegerReader::I128(e) => e,
        }
    }

    pub open spec fn spec_is_signed(self) -> bool {
        match self {
            IntegerReader::I8 | IntegerReader::I16(_) | IntegerReader::I32(_)
            | IntegerReader::I64(_) | IntegerReader::I128(_) => true,
            _ => false,
        }
    }

    /// The value that the reader gives to the bytes it reads: the unsigned
    /// number they denote in its byte order, or that number's
    /// two's-complement reading for the signed readers.
    pub open spec fn spec_value(self, w: Seq<u8>) -> int {
        let u = unsigned_value(w, self.endian()) as int;
        if self.spec_is_signed() { signed_of(u, self.spec_size()) } else { u }
    }

    /// The integer that the reader makes of the bytes it reads.
    pub open spec fn decode(self, w: Seq<u8>) -> Integer {
        let v = self.spec_value(w);
        match self {
            IntegerReader::U8 => Integer::U8(v as u8),
            IntegerReader::U16(_) => Integer::U16(v as u16),
            IntegerReader::U24(_) => Integer::U24((v / 0x10000) as u8, (v % 0x10000) as u16),
            IntegerReader::U32(_) => Integer::U32(v as u32),
            IntegerReader::U64(_) => Integer::U64(v as u64),
            IntegerReader::U128(_) => Integer::U128(v as u128),
            IntegerReader::I8 => Integer::I8(v as i8),
            IntegerReader::I16(_) => Integer::I16(v as i16),
            IntegerReader::I32(_) => Integer::I32(v as i32),
            IntegerReader::I64(_) => Integer::I64(v as i64),
            IntegerReader::I128(_) => Integer::I128(v as i128),
        }
    }

    /// Read the chosen value at the given [`Context`].
    ///
    /// If successful, this creates an [`Integer`] whose datatype matches the
    /// reader's: same size, same signedness, and the value of the bytes.
    pub fn read(self, context: Context) -> (r: Result<Integer, Error>)
        ensures
            r is Ok <==> context.has(self.spec_size()),
            r matches Ok(i) ==> i == self.decode(context.window(self.spec_size())),
            r matches Ok(i) ==> i.value() == self.spec_value(context.window(self.spec_size())),
            r matches Ok(i) ==> i.spec_size() == self.spec_size(),
            r matches Ok(i) ==> i.spec_is_signed() == self.spec_is_signed(),
            r matches Err(e) ==> e == Error::OutOfBounds,
    {
        proof {
            lemma_pow256_values();
        }
        let n = self.size();
        let endian = match self {
            IntegerReader::U8 | IntegerReader::I8 => Endian::Big,
            IntegerReader::U16(e) | IntegerReader::U24(e) | IntegerReader::U32(e)
            | IntegerReader::U64(e) | IntegerReader::U128(e) | IntegerReader::I16(e)
            | IntegerReader::I32(e) | IntegerReader::I64(e) | IntegerReader::I128(e) => e,
        };
        let u = context.read_unsigned(n, endian)?;
        let ghost w = context.window(self.spec_size());
        assert(u as int == self.spec_value(w) || self.spec_is_signed());
        match self {
            IntegerReader::U8 => Ok(Integer::U8(u as u8)),
            IntegerReader::U16(_) => Ok(Integer::U16(u as u16)),
            IntegerReader::U24(_) => Ok(Integer::U24((u / 0x10000) as u8, (u % 0x10000) as u16)),
            IntegerReader::U32(_) => Ok(Integer::U32(u as u32)),
            IntegerReader::U64(_) => Ok(Integer::U64(u as u64)),
            IntegerReader::U128(_) => Ok(Integer::U128(u)),
            IntegerReader::I8 => {
                let v: i8 = if u >= 0x80 { (u as i16 - 0x100) as i8 } else { u as i8 };
                Ok(Integer::I8(v))
            },
            IntegerReader::I16(_) => {
                let v: i16 = if u >= 0x8000 { (u as i32 - 0x1_0000) as i16 } else { u as i16 };
                Ok(Integer::I16(v))
            },
            IntegerReader::I32(_) => {
                let v: i32 = if u >= 0x8000_0000 {
                    (u as i64 - 0x1_0000_0000) as i32
                } else {
                    u as i32
                };
                Ok(Integer::I32(v))
            },
            IntegerReader::I64(_) => {
                let v: i64 = if u >= 0x8000_0000_0000_0000 {
                    (u as i128 - 0x1_0000_0000_0000_0000) as i64
                } else {
                    u as i64
                };
                Ok(Integer::I64(v))
            },
            IntegerReader::I128(_) => {
                let v: i128 = if u >= 0x8000_0000_0000_0000_0000_0000_0000_0000 {
                    -((u128::MAX - u) as i128) - 1
                } else {
                    u as i128
                };
                Ok(Integer::I128(v))
            },
        }
    }

    /// The size - in bytes - that will be read by [`Self::read`].
    pub fn size(self) -> (r: usize)
        ensures
            r == self.spec_size(),
    {
        broadcast use vstd::layout::layout_of_primitives;
        match self {
            IntegerReader::U8 => core::mem::size_of::<u8>(),
            IntegerReader::U16(_) => core::mem::size_of::<u16>(),
            IntegerReader::U24(_) => core::mem::size_of::<u8>() + core::mem::size_of::<u16>(),
            IntegerReader::U32(_) => core::mem::size_of::<u32>(),
            IntegerReader::U64(_) => core::mem::size_of::<u64>(),
            IntegerReader::U128(_) => core::mem::size_of::<u128>(),
            IntegerReader::I8 => core::mem::size_of::<i8>(),
            IntegerReader::I16(_) => core::mem::size_of::<i16>(),
            IntegerReader::I32(_) => core::mem::size_of::<i32>(),
            IntegerReader::I64(_) => core::mem::size_of::<i64>(),
            IntegerReader::I128(_) => core::mem::size_of::<i128>(),
        }
    }

    /// Whether the values read are compatible with `usize`: unsigned and no
    /// larger than it.
    pub open spec fn spec_can_be_usize(self) -> bool {
        !self.spec_is_signed() && self.spec_size() <= vstd::layout::size_of::<usize>()
    }

    /// Is the type compatible with [`usize`]?
    pub fn can_be_usize(self) -> (r: bool)
        ensures
            r == self.spec_can_be_usize(),
    {
        broadcast use vstd::layout::layout_of_primitives;
        match self {
            IntegerReader::U8 => self.size() <= core::mem::size_of::<usize>(),
            IntegerReader::U16(_) => self.size() <= core::mem::size_of::<usize>(),
            IntegerReader::U24(_) => self.size() <= core::mem::size_of::<usize>(),
            IntegerReader::U32(_) => self.size() <= core::mem::size_of::<usize>(),
            IntegerReader::U64(_) => self.size() <= core::mem::size_of::<usize>(),
            IntegerReader::U128(_) => self.size() <= core::mem::size_of::<usize>(),
            IntegerReader::I8 => false,
            IntegerReader::I16(_) => false,
            IntegerReader::I32(_) => false,
            IntegerReader::I64(_) => false,
            IntegerReader::I128(_) => false,
        }
    }
}

/// The number that bytes denote in a byte order: least significant byte
/// first for `Little`, most significant first for `Big`.
pub open spec fn ordered_number(w: Seq<u8>, e: Endian) -> nat {
    match e {
        Endian::Little => le_nat(w),
        Endian::Big => be_nat(w),
    }
}

/// A reader built with a byte order reads the bytes in exactly that order:
/// the unsigned readers give the number the bytes denote in it, the signed
/// ones that number's two's-complement reading at their width; the
/// single-byte readers give the byte itself (or its signed reading). For
/// two bytes `b0 b1`, little-endian gives `b0 + 256 * b1` and big-endian
/// `256 * b0 + b1`.
pub proof fn lemma_reader_byte_order(r: IntegerReader, w: Seq<u8>)
    requires
        w.len() == r.spec_size(),
    ensures
        r matches IntegerReader::U8 ==> r.spec_value(w) == w[0],
        r matches IntegerReader::I8 ==> r.spec_value(w) == signed_of(w[0] as int, 1),
        r matches IntegerReader::U16(e) ==> r.spec_value(w) == ordered_number(w, e),
        r matches IntegerReader::U24(e) ==> r.spec_value(w) == ordered_number(w, e),
        r matches IntegerReader::U32(e) ==> r.spec_value(w) == ordered_number(w, e),
        r matches IntegerReader::U64(e) ==> r.spec_value(w) == ordered_number(w, e),
        r matches IntegerReader::U128(e) ==> r.spec_value(w) == ordered_number(w, e),
        r matches IntegerReader::I16(e) ==> r.spec_value(w) == signed_of(ordered_number(w, e) as int, 2),
        r matches IntegerReader::I32(e) ==> r.spec_value(w) == signed_of(ordered_number(w, e) as int, 4),
        r matches IntegerReader::I64(e) ==> r.spec_value(w) == signed_of(ordered_number(w, e) as int, 8),
        r matches IntegerReader::I128(e) ==> r.spec_value(w) == signed_of(ordered_number(w, e) as int, 16),
        r == IntegerReader::U16(Endian::Little) ==> r.spec_value(w) == w[0] + 256 * w[1],
        r == IntegerReader::U16(Endian::Big) ==> r.spec_value(w) == 256 * w[0] + w[1],
        r == IntegerReader::I16(Endian::Little) ==> r.spec_value(w) == signed_of(w[0] + 256 * w[1], 2),
        r == IntegerReader::I16(Endian::Big) ==> r.spec_value(w) == signed_of(256 * w[0] + w[1], 2),
{
    if w.len() == 1 {
        assert(w.drop_last().len() == 0);
        assert(be_nat(w) == be_nat(w.drop_last()) * 256 + w[0]);
    }
    if w.len() == 2 {
        lemma_two_bytes(w);
    }
}

/// Reading bytes little-endian gives what reading the same bytes in reverse
/// order big-endian gives, for every reader that has a byte order.
pub proof fn lemma_little_is_reversed_big(w: Seq<u8>)
    ensures
        w.len() == 2 ==> IntegerReader::U16(Endian::Little).decode(w) == IntegerReader::U16(Endian::Big).decode(w.reverse()),
        w.len() == 3 ==> IntegerReader::U24(Endian::Little).decode(w) == IntegerReader::U24(Endian::Big).decode(w.reverse()),
        w.len() == 4 ==> IntegerReader::U32(Endian::Little).decode(w) == IntegerReader::U32(Endian::Big).decode(w.reverse()),
        w.len() == 8 ==> IntegerReader::U64(Endian::Little).decode(w) == IntegerReader::U64(Endian::Big).decode(w.reverse()),
        w.len() == 16 ==> IntegerReader::U128(Endian::Little).decode(w) == IntegerReader::U128(Endian::Big).decode(w.reverse()),
        w.len() == 2 ==> IntegerReader::I16(Endian::Little).decode(w) == IntegerReader::I16(Endian::Big).decode(w.reverse()),
        w.len() == 4 ==> IntegerReader::I32(Endian::Little).decode(w) == IntegerReader::I32(Endian::Big).decode(w.reverse()),
        w.len() == 8 ==> IntegerReader::I64(Endian::Little).decode(w) == IntegerReader::I64(Endian::Big).decode(w.reverse()),
        w.len() == 16 ==> IntegerReader::I128(Endian::Little).decode(w) == IntegerReader::I128(Endian::Big).decode(w.reverse()),
{
    lemma_le_is_reversed_be(w);
}

} // verus!
