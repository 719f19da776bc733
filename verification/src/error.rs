use vstd::prelude::*;

verus! {

/// Everything that can go wrong in this library.
#[derive(Debug, Clone, Copy, PartialEq, Eq, Structural)]
pub enum Error {
    /// The integer cannot be represented in the requested type.
    CannotConvert,
    /// The text is not a valid integer in any supported type.
    InvalidInteger,
    /// Reading would go past the end of the buffer.
    OutOfBounds,
    /// The bytes do not encode a valid character.
    InvalidCharacter,
    /// A range ends before it starts.
    RangeEndsBeforeStart,
    /// A strictly aligned range does not start on a multiple of the alignment.
    Unaligned,
    /// The same name appears twice.
    DuplicateName,
    /// The same value (or bit position) appears twice where it must be unique.
    DuplicateValue,
    /// A record has the wrong number of fields.
    BadRecord,
    /// A name was given without a value where a value is required.
    MissingValue,
    /// An automatically assigned value does not fit its type.
    Overflow,
    /// A value lies outside the allowed range.
    OutOfRange,
    /// The text could not be read in the named format.
    Unparseable,
    /// The data could not be written in the named format.
    Unwritable,
    /// A length of zero was given where at least one is required.
    ZeroLength,
    /// The type cannot be used as a length.
    NotNumeric,
    /// No namespace has the given name.
    NoSuchNamespace,
    /// Nothing has the given name.
    NotFound,
    /// The file's extension names no known format.
    UnknownFileType,
    /// A name could not be taken from a path.
    NoFileName,
    /// The type cannot be read or written in this format.
    Unsupported,
    /// A named type refers back to itself.
    ReferenceCycle,
    /// A file or directory could not be read.
    Unreadable,
}

} // verus!
