use vstd::prelude::*;

use vstd::string::StringExecFns;

use crate::error::Error;
use crate::number::context::{Context, Endian, unsigned_value, lemma_pow256_values};
use crate::number::digits::{digits, zero_pad};
use crate::number::format::HexFormatter;
use crate::number::integer::Integer;
use crate::number::integer_reader::IntegerReader;
use crate::number::renderer::IntegerRenderer;
use crate::types::alignment::Alignment;

verus! {

/// A colour: 3 bytes, displayed as `#rrggbb`.
#[derive(Debug, Clone, Copy)]
pub struct Rgb {
    pub alignment: Option<Alignment>,
}

impl Rgb {
    pub fn new_aligned(alignment: Option<Alignment>) -> (r: Self)
        ensures
            r.alignment == alignment,
    {
        Rgb { alignment }
    }

    pub fn new() -> (r: Self)
        ensures
            r.alignment is None,
    {
        Self::new_aligned(None)
    }

    /// The size in bytes: 3.
    pub fn base_size(&self) -> (r: usize)
        ensures
            r == 3,
    {
        3
    }

    pub fn alignment(&self) -> (r: Option<Alignment>)
        ensures
            r == self.alignment,
    {
        self.alignment
    }

    /// `#` and the 24-bit big-endian value at the context in six lowercase
    /// hex digits; fails with [`Error::OutOfBounds`] when fewer than 3 bytes
    /// are left.
    pub fn to_display(&self, context: Context) -> (r: Result<String, Error>)
        ensures
            r is Ok <==> context.has(3),
            r matches Ok(s) ==> s@ == seq!['#'] + zero_pad(
                digits(unsigned_value(context.window(3), Endian::Big), 16, false),
                6,
            ),
            r matches Err(e) ==> e == Error::OutOfBounds,
    {
        let reader = IntegerReader::U24(Endian::Big);
        let number = match reader.read(context) {
            Ok(n) => n,
            Err(e) => return Err(e),
        };
        proof {
            lemma_pow256_values();
        }
        let renderer = HexFormatter::new(false, false, true);
        let hex = renderer.render(number);
        let mut s = String::from_str("#");
        proof {
            reveal_strlit("#");
        }
        s.append(hex.as_str());
        Ok(s)
    }
}

/// A run of bytes of a fixed length, displayed by its length.
#[derive(Debug, Clone, Copy)]
pub struct H2Blob {
    pub length: usize,
    pub length_display: IntegerRenderer,
    pub alignment: Option<Alignment>,
}

impl H2Blob {
    /// Fails with [`Error::ZeroLength`] for a length of zero.
    pub fn new_aligned(alignment: Option<Alignment>, length_in_bytes: usize, length_display: IntegerRenderer) -> (r: Result<Self, Error>)
        ensures
            length_in_bytes == 0 <==> r is Err,
            r matches Err(e) ==> e == Error::ZeroLength,
            r matches Ok(b) ==> b.length == length_in_bytes && b.length_display == length_display
                && b.alignment == alignment,
    {
        if length_in_bytes == 0 {
            return Err(Error::ZeroLength);
        }
        Ok(H2Blob { length: length_in_bytes, length_display, alignment })
    }

    /// Fails with [`Error::ZeroLength`] for a length of zero.
    pub fn new(length_in_bytes: usize, length_display: IntegerRenderer) -> (r: Result<Self, Error>)
        ensures
            length_in_bytes == 0 <==> r is Err,
            r matches Err(e) ==> e == Error::ZeroLength,
            r matches Ok(b) ==> b.length == length_in_bytes && b.length_display == length_display
                && b.alignment is None,
    {
        Self::new_aligned(None, length_in_bytes, length_display)
    }

    /// The size in bytes: the length.
    pub fn base_size(&self) -> (r: usize)
        ensures
            r == self.length,
    {
        self.length
    }

    pub fn alignment(&self) -> (r: Option<Alignment>)
        ensures
            r == self.alignment,
    {
        self.alignment
    }

    /// `Binary blob (N bytes)`, with N rendered by the length renderer.
    pub fn to_display(&self) -> (r: String)
        ensures
            r@ == "Binary blob ("@ + self.length_display.rendered(Integer::USize(self.length))
                + " bytes)"@,
    {
        let n = self.length_display.render(Integer::USize(self.length));
        let mut s = String::from_str("Binary blob (");
        s.append(n.as_str());
        s.append(" bytes)");
        s
    }
}

/// The versions that a UUID can declare.
#[derive(Debug, Clone, Copy, PartialEq, Eq, Structural)]
pub enum UuidVersion {
    Nil,
    Mac,
    Dce,
    Md5,
    Random,
    Sha1,
}

/// A UUID's hyphenated text: its 32 lowercase hex digits in groups of 8, 4,
/// 4, 4 and 12.
pub open spec fn uuid_text(v: u128) -> Seq<char> {
    let h = zero_pad(digits(v as nat, 16, false), 32);
    h.subrange(0, 8) + seq!['-'] + h.subrange(8, 12) + seq!['-'] + h.subrange(12, 16) + seq!['-']
        + h.subrange(16, 20) + seq!['-'] + h.subrange(20, 32)
}

/// The version a UUID declares in the high nibble of its seventh byte (the
/// nil version only for the all-zero UUID); `None` for other nibbles.
pub open spec fn uuid_version_of(v: u128) -> Option<UuidVersion> {
    let nibble = (v as nat / 0x1000_0000_0000_0000_0000) % 16;
    if nibble == 0 && v == 0 {
        Some(UuidVersion::Nil)
    } else if nibble == 1 {
        Some(UuidVersion::Mac)
    } else if nibble == 2 {
        Some(UuidVersion::Dce)
    } else if nibble == 3 {
        Some(UuidVersion::Md5)
    } else if nibble == 4 {
        Some(UuidVersion::Random)
    } else if nibble == 5 {
        Some(UuidVersion::Sha1)
    } else {
        None
    }
}

/// The hyphenated text of a UUID.
///
/// Calls uuid's `Uuid::from_u128` (bytes most significant first) and its
/// `Display`, which writes the hyphenated lowercase form; the contract says
/// exactly that.
#[verifier::external_body]
fn uuid_to_string(v: u128) -> (s: String)
    ensures
        s@ == uuid_text(v),
{
    uuid::Uuid::from_u128(v).to_string()
}

/// The version a UUID declares.
///
/// Calls uuid's `Uuid::from_u128` and `get_version`, which looks at the high
/// nibble of the seventh byte and gives `Nil` only for the nil UUID; the
/// contract says exactly that.
#[verifier::external_body]
fn uuid_version(v: u128) -> (r: Option<UuidVersion>)
    ensures
        r == uuid_version_of(v),
{
    match uuid::Uuid::from_u128(v).get_version() {
        Some(uuid::Version::Nil) => Some(UuidVersion::Nil),
        Some(uuid::Version::Mac) => Some(UuidVersion::Mac),
        Some(uuid::Version::Dce) => Some(UuidVersion::Dce),
        Some(uuid::Version::Md5) => Some(UuidVersion::Md5),
        Some(uuid::Version::Random) => Some(UuidVersion::Random),
        Some(uuid::Version::Sha1) => Some(UuidVersion::Sha1),
        None => None,
    }
}

/// The label shown for a UUID's version.
pub open spec fn version_label(v: Option<UuidVersion>) -> Seq<char> {
    match v {
        Some(UuidVersion::Nil) => "Nil UUID"@,
        Some(UuidVersion::Mac) => "UUIDv1 / MAC"@,
        Some(UuidVersion::Dce) => "UUIDv2 / DCE"@,
        Some(UuidVersion::Md5) => "UUIDv3 / MD5"@,
        Some(UuidVersion::Random) => "UUIDv4 / Random"@,
        Some(UuidVersion::Sha1) => "UUIDv5 / SHA1"@,
        None => "Invalid UUID"@,
    }
}

/// A UUID: 16 bytes.
#[derive(Debug, Clone, Copy)]
pub struct H2UUID {
    pub endian: Endian,
    pub include_version: bool,
    pub alignment: Option<Alignment>,
}

impl H2UUID {
    pub fn new_aligned(alignment: Option<Alignment>, endian: Endian, include_version: bool) -> (r: Self)
        ensures
            r.endian == endian,
            r.include_version == include_version,
            r.alignment == alignment,
    {
        H2UUID { endian, include_version, alignment }
    }

    pub fn new(endian: Endian, include_version: bool) -> (r: Self)
        ensures
            r.endian == endian,
            r.include_version == include_version,
            r.alignment is None,
    {
        Self::new_aligned(None, endian, include_version)
    }

    /// The size in bytes: 16.
    pub fn base_size(&self) -> (r: usize)
        ensures
            r == 16,
    {
        16
    }

    pub fn alignment(&self) -> (r: Option<Alignment>)
        ensures
            r == self.alignment,
    {
        self.alignment
    }

    /// The UUID at the context, hyphenated, followed by its version in
    /// parentheses when asked for; fails with [`Error::OutOfBounds`] when
    /// fewer than 16 bytes are left.
    pub fn to_display(&self, context: Context) -> (r: Result<String, Error>)
        ensures
            r is Ok <==> context.has(16),
            r matches Ok(s) ==> {
                let v = unsigned_value(context.window(16), self.endian) as u128;
                if self.include_version {
                    s@ == uuid_text(v) + " ("@ + version_label(uuid_version_of(v)) + ")"@
                } else {
                    s@ == uuid_text(v)
                }
            },
            r matches Err(e) ==> e == Error::OutOfBounds,
    {
        let v = match context.read_unsigned(16, self.endian) {
            Ok(v) => v,
            Err(e) => return Err(e),
        };
        let mut s = uuid_to_string(v);
        if self.include_version {
            let label = match uuid_version(v) {
                Some(UuidVersion::Nil) => "Nil UUID",
                Some(UuidVersion::Mac) => "UUIDv1 / MAC",
                Some(UuidVersion::Dce) => "UUIDv2 / DCE",
                Some(UuidVersion::Md5) => "UUIDv3 / MD5",
                Some(UuidVersion::Random) => "UUIDv4 / Random",
                Some(UuidVersion::Sha1) => "UUIDv5 / SHA1",
                None => "Invalid UUID",
            };
            s.append(" (");
            s.append(label);
            s.append(")");
        }
        Ok(s)
    }
}

} // verus!
