use vstd::prelude::*;

use crate::error::Error;
use crate::types::alignment::Alignment;
use crate::types::named::{H2Bitmask, H2Enum};
use crate::types::network::{IPv4, IPv6, MacAddress, MacAddress8};
use crate::types::numeric::{H2Character, H2Float, H2Integer};
use crate::types::simple::{H2Blob, H2UUID, Rgb};
use crate::types::strings::{H2String, LPString, NTString};

verus! {

/// Any type of value, described abstractly: how it is read from data and
/// how it is displayed.
#[derive(Debug)]
pub enum H2Type {
    // Simple
    Rgb(Rgb),
    H2Bitmask(H2Bitmask),
    H2Enum(H2Enum),
    H2UUID(H2UUID),
    H2Blob(H2Blob),
    // Numeric
    H2Character(H2Character),
    H2Float(H2Float),
    H2Integer(H2Integer),
    // Network
    IPv4(IPv4),
    IPv6(IPv6),
    MacAddress(MacAddress),
    MacAddress8(MacAddress8),
    // Strings
    H2String(H2String),
    NTString(NTString),
    LPString(LPString),
    // Composite
    H2Array(H2Array),
    H2Struct(H2Struct),
    /// A reference, by name, to a type kept in the data's types.
    NamedReference(String),
}

/// An array: a number of values of the same type, one after another.
#[derive(Debug)]
pub struct H2Array {
    pub field_type: Box<H2Type>,
    pub length: usize,
    pub alignment: Option<Alignment>,
}

impl H2Array {
    /// Fails with [`Error::ZeroLength`] for a length of zero.
    pub fn new_aligned(alignment: Option<Alignment>, length: usize, field_type: H2Type) -> (r: Result<Self, Error>)
        ensures
            length == 0 <==> r is Err,
            r matches Err(e) ==> e == Error::ZeroLength,
            r matches Ok(a) ==> *a.field_type == field_type && a.length == length && a.alignment
                == alignment,
    {
        if length == 0 {
            return Err(Error::ZeroLength);
        }
        Ok(H2Array { field_type: Box::new(field_type), length, alignment })
    }

    /// Fails with [`Error::ZeroLength`] for a length of zero.
    pub fn new(length: usize, field_type: H2Type) -> (r: Result<Self, Error>)
        ensures
            length == 0 <==> r is Err,
            r matches Err(e) ==> e == Error::ZeroLength,
            r matches Ok(a) ==> *a.field_type == field_type && a.length == length
                && a.alignment is None,
    {
        Self::new_aligned(None, length, field_type)
    }

    pub fn alignment(&self) -> (r: Option<Alignment>)
        ensures
            r == self.alignment,
    {
        self.alignment
    }
}

/// A struct: named values of their own types, one after another.
#[derive(Debug)]
pub struct H2Struct {
    pub fields: Vec<(String, H2Type)>,
    pub alignment: Option<Alignment>,
}

impl H2Struct {
    /// Fails with [`Error::ZeroLength`] when there are no fields.
    pub fn new_aligned(alignment: Option<Alignment>, fields: Vec<(String, H2Type)>) -> (r: Result<Self, Error>)
        ensures
            fields@.len() == 0 <==> r is Err,
            r matches Err(e) ==> e == Error::ZeroLength,
            r matches Ok(s) ==> s.fields@ == fields@ && s.alignment == alignment,
    {
        if fields.len() == 0 {
            return Err(Error::ZeroLength);
        }
        Ok(H2Struct { fields, alignment })
    }

    /// Fails with [`Error::ZeroLength`] when there are no fields.
    pub fn new(fields: Vec<(String, H2Type)>) -> (r: Result<Self, Error>)
        ensures
            fields@.len() == 0 <==> r is Err,
            r matches Err(e) ==> e == Error::ZeroLength,
            r matches Ok(s) ==> s.fields@ == fields@ && s.alignment is None,
    {
        Self::new_aligned(None, fields)
    }

    pub fn alignment(&self) -> (r: Option<Alignment>)
        ensures
            r == self.alignment,
    {
        self.alignment
    }
}

impl H2Type {
    /// A reference to a type kept in the data, by name.
    pub fn new_named(name: &str) -> (r: Self)
        ensures
            r matches H2Type::NamedReference(n) && n@ == name@,
    {
        H2Type::NamedReference(name.to_owned())
    }

    /// How the type is aligned (a reference has no alignment of its own).
    pub open spec fn spec_alignment(&self) -> Option<Alignment> {
        match self {
            H2Type::Rgb(t) => t.alignment,
            H2Type::H2Bitmask(t) => t.alignment,
            H2Type::H2Enum(t) => t.alignment,
            H2Type::H2UUID(t) => t.alignment,
            H2Type::H2Blob(t) => t.alignment,
            H2Type::H2Character(t) => t.alignment,
            H2Type::H2Float(t) => t.alignment,
            H2Type::H2Integer(t) => t.alignment,
            H2Type::IPv4(t) => t.alignment,
            H2Type::IPv6(t) => t.alignment,
            H2Type::MacAddress(t) => t.alignment,
            H2Type::MacAddress8(t) => t.alignment,
            H2Type::H2String(t) => t.alignment,
            H2Type::NTString(t) => t.alignment,
            H2Type::LPString(t) => t.alignment,
            H2Type::H2Array(t) => t.alignment,
            H2Type::H2Struct(t) => t.alignment,
            H2Type::NamedReference(_) => None,
        }
    }

    /// How the type is aligned (a reference has no alignment of its own).
    pub fn alignment(&self) -> (r: Option<Alignment>)
        ensures
            r == self.spec_alignment(),
    {
        match self {
            H2Type::Rgb(t) => t.alignment,
            H2Type::H2Bitmask(t) => t.alignment,
            H2Type::H2Enum(t) => t.alignment,
            H2Type::H2UUID(t) => t.alignment,
            H2Type::H2Blob(t) => t.alignment,
            H2Type::H2Character(t) => t.alignment,
            H2Type::H2Float(t) => t.alignment,
            H2Type::H2Integer(t) => t.alignment,
            H2Type::IPv4(t) => t.alignment,
            H2Type::IPv6(t) => t.alignment,
            H2Type::MacAddress(t) => t.alignment,
            H2Type::MacAddress8(t) => t.alignment,
            H2Type::H2String(t) => t.alignment,
            H2Type::NTString(t) => t.alignment,
            H2Type::LPString(t) => t.alignment,
            H2Type::H2Array(t) => t.alignment,
            H2Type::H2Struct(t) => t.alignment,
            H2Type::NamedReference(_) => None,
        }
    }
}

} // verus!
