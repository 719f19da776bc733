use vstd::prelude::*;

use crate::error::Error;
use crate::number::context::{Context, Endian, unsigned_value, lemma_pow256_values};
use crate::number::digits::{digits, zero_pad};
use crate::number::format::decimal_text;
use crate::types::alignment::Alignment;

verus! {

/// The dotted-decimal text of a 32-bit address: its four bytes, most
/// significant first, in decimal.
pub open spec fn ipv4_text(n: nat) -> Seq<char> {
    decimal_text((n / 0x100_0000) as int) + seq!['.'] + decimal_text(((n / 0x1_0000) % 0x100) as int)
        + seq!['.'] + decimal_text(((n / 0x100) % 0x100) as int) + seq!['.'] + decimal_text(
        (n % 0x100) as int,
    )
}

/// The text that std gives for the IPv6 address with the given 128-bit
/// value.
pub uninterp spec fn ipv6_text(v: u128) -> Seq<char>;

/// Two uppercase hex digits for a byte.
pub open spec fn hex_pair(b: u8) -> Seq<char> {
    zero_pad(digits(b as nat, 16, true), 2)
}

/// Bytes as uppercase hex pairs joined by colons.
pub open spec fn colon_hex(b: Seq<u8>) -> Seq<char>
    decreases b.len(),
{
    if b.len() == 0 {
        Seq::empty()
    } else if b.len() == 1 {
        hex_pair(b[0])
    } else {
        colon_hex(b.drop_last()) + seq![':'] + hex_pair(b.last())
    }
}

/// The text of an IPv4 address.
///
/// Calls `Ipv4Addr::from(u32)` and its `Display`, documented as the four
/// bytes of the number, most significant first, in dotted decimal; the
/// contract says exactly that.
#[verifier::external_body]
fn ipv4_to_string(n: u32) -> (s: String)
    ensures
        s@ == ipv4_text(n as nat),
{
    core::net::Ipv4Addr::from(n).to_string()
}

/// The text of an IPv6 address.
///
/// Calls `Ipv6Addr::from(u128)` and its `Display` (which shortens the
/// longest run of zero groups). The contract only names the result, a
/// function of the number.
#[verifier::external_body]
fn ipv6_to_string(v: u128) -> (s: String)
    ensures
        s@ == ipv6_text(v),
{
    core::net::Ipv6Addr::from(v).to_string()
}

/// The text of an EUI-48 MAC address.
///
/// Calls macaddr's `MacAddr6::from([u8; 6])` and its `Display`, which writes
/// each byte as two uppercase hex digits, joined by colons; the contract says
/// exactly that.
#[verifier::external_body]
fn mac6_to_string(b: &Vec<u8>) -> (s: String)
    requires
        b@.len() == 6,
    ensures
        s@ == colon_hex(b@),
{
    macaddr::MacAddr6::from([b[0], b[1], b[2], b[3], b[4], b[5]]).to_string()
}

/// The text of an EUI-64 MAC address.
///
/// Calls macaddr's `MacAddr8::from([u8; 8])` and its `Display`, which writes
/// each byte as two uppercase hex digits, joined by colons; the contract says
/// exactly that.
#[verifier::external_body]
fn mac8_to_string(b: &Vec<u8>) -> (s: String)
    requires
        b@.len() == 8,
    ensures
        s@ == colon_hex(b@),
{
    macaddr::MacAddr8::from([b[0], b[1], b[2], b[3], b[4], b[5], b[6], b[7]]).to_string()
}

/// An IPv4 address: 4 bytes, displayed in dotted decimal.
#[derive(Debug, Clone, Copy)]
pub struct IPv4 {
    pub endian: Endian,
    pub alignment: Option<Alignment>,
}

impl IPv4 {
    pub fn new_aligned(alignment: Option<Alignment>, endian: Endian) -> (r: Self)
        ensures
            r.endian == endian,
            r.alignment == alignment,
    {
        IPv4 { endian, alignment }
    }

    pub fn new(endian: Endian) -> (r: Self)
        ensures
            r.endian == endian,
            r.alignment is None,
    {
        Self::new_aligned(None, endian)
    }

    /// The size in bytes: 4.
    pub fn base_size(&self) -> (r: usize)
        ensures
            r == 4,
    {
        4
    }

    pub fn alignment(&self) -> (r: Option<Alignment>)
        ensures
            r == self.alignment,
    {
        self.alignment
    }

    /// The address at the context, in dotted decimal; fails with
    /// [`Error::OutOfBounds`] when fewer than 4 bytes are left.
    pub fn to_display(&self, context: Context) -> (r: Result<String, Error>)
        ensures
            r is Ok <==> context.has(4),
            r matches Ok(s) ==> s@ == ipv4_text(unsigned_value(context.window(4), self.endian)),
            r matches Err(e) ==> e == Error::OutOfBounds,
    {
        proof {
            lemma_pow256_values();
        }
        match context.read_unsigned(4, self.endian) {
            Ok(v) => Ok(ipv4_to_string(v as u32)),
            Err(e) => Err(e),
        }
    }
}

/// An IPv6 address: 16 bytes.
#[derive(Debug, Clone, Copy)]
pub struct IPv6 {
    pub endian: Endian,
    pub alignment: Option<Alignment>,
}

impl IPv6 {
    pub fn new_aligned(alignment: Option<Alignment>, endian: Endian) -> (r: Self)
        ensures
            r.endian == endian,
            r.alignment == alignment,
    {
        IPv6 { endian, alignment }
    }

    pub fn new(endian: Endian) -> (r: Self)
        ensures
            r.endian == endian,
            r.alignment is None,
    {
        Self::new_aligned(None, endian)
    }

    /// The size in bytes: 16.
    pub fn base_size(&self) -> (r: usize)
        ensures
            r == 16,
    {
        16
    }

    pub fn alignment(&self) -> (r: Option<Alignment>)
        ensures
            r == self.alignment,
    {
        self.alignment
    }

    /// The address at the context, as std writes IPv6 addresses; fails with
    /// [`Error::OutOfBounds`] when fewer than 16 bytes are left.
    pub fn to_display(&self, context: Context) -> (r: Result<String, Error>)
        ensures
            r is Ok <==> context.has(16),
            r matches Ok(s) ==> s@ == ipv6_text(unsigned_value(context.window(16), self.endian) as u128),
            r matches Err(e) ==> e == Error::OutOfBounds,
    {
        match context.read_unsigned(16, self.endian) {
            Ok(v) => Ok(ipv6_to_string(v)),
            Err(e) => Err(e),
        }
    }
}

/// A MAC address in EUI-48 format: 6 bytes.
#[derive(Debug, Clone, Copy)]
pub struct MacAddress {
    pub alignment: Option<Alignment>,
}

impl MacAddress {
    pub fn new_aligned(alignment: Option<Alignment>) -> (r: Self)
        ensures
            r.alignment == alignment,
    {
        MacAddress { alignment }
    }

    pub fn new() -> (r: Self)
        ensures
            r.alignment is None,
    {
        Self::new_aligned(None)
    }

    /// The size in bytes: 6.
    pub fn base_size(&self) -> (r: usize)
        ensures
            r == 6,
    {
        6
    }

    pub fn alignment(&self) -> (r: Option<Alignment>)
        ensures
            r == self.alignment,
    {
        self.alignment
    }

    /// The address at the context: its bytes in uppercase hex, joined by
    /// colons; fails with [`Error::OutOfBounds`] when fewer than 6 bytes are
    /// left.
    pub fn to_display(&self, context: Context) -> (r: Result<String, Error>)
        ensures
            r is Ok <==> context.has(6),
            r matches Ok(s) ==> s@ == colon_hex(context.window(6)),
            r matches Err(e) ==> e == Error::OutOfBounds,
    {
        match context.read_bytes(6) {
            Ok(b) => Ok(mac6_to_string(&b)),
            Err(e) => Err(e),
        }
    }
}

/// A MAC address in EUI-64 format: 8 bytes.
#[derive(Debug, Clone, Copy)]
pub struct MacAddress8 {
    pub alignment: Option<Alignment>,
}

impl MacAddress8 {
    pub fn new_aligned(alignment: Option<Alignment>) -> (r: Self)
        ensures
            r.alignment == alignment,
    {
        MacAddress8 { alignment }
    }

    pub fn new() -> (r: Self)
        ensures
            r.alignment is None,
    {
        Self::new_aligned(None)
    }

    /// The size in bytes: 8.
    pub fn base_size(&self) -> (r: usize)
        ensures
            r == 8,
    {
        8
    }

    pub fn alignment(&self) -> (r: Option<Alignment>)
        ensures
            r == self.alignment,
    {
        self.alignment
    }

    /// The address at the context: its bytes in uppercase hex, joined by
    /// colons; fails with [`Error::OutOfBounds`] when fewer than 8 bytes are
    /// left.
    pub fn to_display(&self, context: Context) -> (r: Result<String, Error>)
        ensures
            r is Ok <==> context.has(8),
            r matches Ok(s) ==> s@ == colon_hex(context.window(8)),
            r matches Err(e) ==> e == Error::OutOfBounds,
    {
        match context.read_bytes(8) {
            Ok(b) => Ok(mac8_to_string(&b)),
            Err(e) => Err(e),
        }
    }
}

} // verus!
