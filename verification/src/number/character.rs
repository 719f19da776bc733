use vstd::prelude::*;
use vstd::utf8::{
    decode_first_scalar, is_scalar, length_of_first_scalar,
    valid_first_scalar,
};

use crate::error::Error;
use crate::number::context::{
    Context, Endian, unsigned_value, lemma_pow256_values, lemma_four_bytes, lemma_two_bytes,
};

verus! {

/// A character, together with the number of bytes it took in the data it
/// was read from.
#[derive(Debug, Clone, Copy, PartialEq, Eq, Structural)]
pub struct Character {
    /// The character.
    pub character: char,
    /// Its size, in bytes, where it was read (the source encoding is not kept).
    pub size: usize,
}

impl Character {
    /// The size - in bytes - of the character where it was read.
    pub fn size(self) -> (r: usize)
        ensures
            r == self.size,
    {
        self.size
    }

    /// The character.
    pub fn as_char(self) -> (r: char)
        ensures
            r == self.character,
    {
        self.character
    }
}

impl From<(char, usize)> for Character {
    fn from(o: (char, usize)) -> (r: Character) {
        Character { character: o.0, size: o.1 }
    }
}

impl vstd::std_specs::convert::FromSpecImpl<(char, usize)> for Character {
    open spec fn obeys_from_spec() -> bool {
        true
    }

    open spec fn from_spec(v: (char, usize)) -> Character {
        Character { character: v.0, size: v.1 }
    }
}

/// The character with a code point (meaningful for code points of
/// characters).
pub open spec fn char_of(cp: nat) -> char {
    choose|c: char| #[trigger] code_point(c) == cp
}

/// The code point of a character.
pub open spec fn code_point(c: char) -> nat {
    c as u32 as nat
}

/// The character of a decoded (code point, size).
pub open spec fn character_of(d: (nat, nat)) -> Character {
    Character { character: char_of(d.0), size: d.1 as usize }
}

/// A character is the character of its own code point.
pub proof fn lemma_char_of(c: char)
    ensures
        char_of(c as u32 as nat) == c,
{
    let d = char_of(c as u32 as nat);
    assert(code_point(c) == c as u32 as nat);
    assert(code_point(d) == c as u32 as nat);
    vstd::utf8::char_u32_cast(d, d as u32);
    vstd::utf8::char_u32_cast(c, c as u32);
}

/// The character with the given code point, when there is one.
///
/// Wraps std's `char::from_u32`, which returns `None` exactly for values
/// above 0x10FFFF and for the surrogates 0xD800..=0xDFFF, and otherwise the
/// character with that code point.
#[verifier::external_body]
pub(crate) fn char_from_u32(v: u32) -> (r: Option<char>)
    ensures
        r is Some <==> is_scalar(v),
        r matches Some(c) ==> c as u32 == v,
{
    char::from_u32(v)
}

/// Defines how data is read from a [`Context`] to produce a [`Character`].
#[derive(Debug, Clone, Copy, PartialEq, Eq, Structural)]
pub enum CharacterReader {
    /// 8-bit ASCII character (every byte value is accepted and taken as the
    /// code point of the same number)
    ASCII,
    /// 8 - 32-bit UTF-8 character
    UTF8,
    /// 16 or 32-bit UTF-16 character
    UTF16(Endian),
    /// 32-bit UTF-32 character
    UTF32(Endian),
}

/// The code point that a UTF-16 surrogate pair stands for.
pub open spec fn surrogate_pair(high: nat, low: nat) -> nat {
    (0x10000 + (high - 0xD800) * 0x400 + (low - 0xDC00)) as nat
}

impl CharacterReader {
    /// The code point and the size of the character that the bytes start
    /// with, or `None` when they start with no valid character.
    pub open spec fn decode(self, rest: Seq<u8>) -> Option<(nat, nat)> {
        match self {
            CharacterReader::ASCII => {
                if rest.len() >= 1 {
                    Some((rest[0] as nat, 1))
                } else {
                    None
                }
            },
            CharacterReader::UTF8 => {
                if valid_first_scalar(rest) {
                    Some((decode_first_scalar(rest) as nat, length_of_first_scalar(rest) as nat))
                } else {
                    None
                }
            },
            CharacterReader::UTF16(e) => {
                if rest.len() < 2 {
                    None
                } else {
                    let high = unsigned_value(rest.take(2), e);
                    if high < 0xD800 || high > 0xDFFF {
                        Some((high, 2))
                    } else if high <= 0xDBFF && rest.len() >= 4 {
                        let low = unsigned_value(rest.subrange(2, 4), e);
                        if 0xDC00 <= low <= 0xDFFF {
                            Some((surrogate_pair(high, low), 4))
                        } else {
                            None
                        }
                    } else {
                        None
                    }
                }
            },
            CharacterReader::UTF32(e) => {
                if rest.len() >= 4 && unsigned_value(rest.take(4), e) <= 0xFFFF_FFFF
                    && is_scalar(unsigned_value(rest.take(4), e) as u32) {
                    Some((unsigned_value(rest.take(4), e), 4))
                } else {
                    None
                }
            },
        }
    }

    /// The fewest bytes that a character of this encoding can take.
    pub open spec fn min_size(self) -> nat {
        match self {
            CharacterReader::ASCII | CharacterReader::UTF8 => 1,
            CharacterReader::UTF16(_) => 2,
            CharacterReader::UTF32(_) => 4,
        }
    }

    /// Why no character can be read from the bytes: too few of them, or no
    /// valid character at their start.
    pub open spec fn read_error(self, rest: Seq<u8>) -> Error {
        if rest.len() < self.min_size() {
            Error::OutOfBounds
        } else {
            Error::InvalidCharacter
        }
    }

    /// What reading the bytes gives: the character they start with, or why
    /// there is none.
    pub open spec fn read_result(self, rest: Seq<u8>) -> Result<Character, Error> {
        match self.decode(rest) {
            Some(d) => Ok(character_of(d)),
            None => Err(self.read_error(rest)),
        }
    }

    /// Read the character at the position of the context.
    ///
    /// Fails with [`Error::OutOfBounds`] when fewer bytes are left than the
    /// smallest character of the encoding takes, and with
    /// [`Error::InvalidCharacter`] when the bytes there start with no valid
    /// character (a truncated sequence included).
    pub fn read(self, context: Context) -> (r: Result<Character, Error>)
        ensures
            r is Ok <==> self.decode(context.rest()) is Some,
            r matches Ok(c) ==> (c.character as u32 as nat, c.size as nat) == self.decode(
                context.rest(),
            )->0,
            r matches Ok(c) ==> 1 <= c.size <= context.rest().len(),
            r matches Ok(c) ==> c == character_of(self.decode(context.rest())->0),
            r matches Err(e) ==> (e == Error::OutOfBounds <==> context.rest().len()
                < self.min_size()),
            r matches Err(e) ==> (e == Error::OutOfBounds || e == Error::InvalidCharacter),
            r == self.read_result(context.rest()),
    {
        let r = self.read_char(context);
        if let Ok(c) = r {
            proof {
                lemma_char_of(c.character);
            }
        }
        r
    }

    /// Read the character at the position of the context, as [`Self::read`]
    /// describes.
    fn read_char(self, context: Context) -> (r: Result<Character, Error>)
        ensures
            r is Ok <==> self.decode(context.rest()) is Some,
            r matches Ok(c) ==> (c.character as u32 as nat, c.size as nat) == self.decode(
                context.rest(),
            )->0,
            r matches Ok(c) ==> 1 <= c.size <= context.rest().len(),
            r matches Err(e) ==> (e == Error::OutOfBounds <==> context.rest().len()
                < self.min_size()),
            r matches Err(e) ==> (e == Error::OutOfBounds || e == Error::InvalidCharacter),
    {
        let pos = context.position();
        let len = context.len();
        let ghost rest = context.rest();
        if pos > len {
            assert(rest.len() == 0);
            return Err(Error::OutOfBounds);
        }
        assert(rest =~= context.bytes().subrange(pos as int, len as int));
        match self {
            CharacterReader::ASCII => {
                if pos == len {
                    return Err(Error::OutOfBounds);
                }
                let b = context.byte_at(pos);
                match char_from_u32(b as u32) {
                    Some(c) => Ok(Character { character: c, size: 1 }),
                    None => Err(Error::InvalidCharacter),
                }
            },
            CharacterReader::UTF8 => read_utf8(context),
            CharacterReader::UTF16(e) => {
                if len - pos < 2 {
                    return Err(Error::OutOfBounds);
                }
                let high = match context.read_unsigned(2, e) {
                    Ok(v) => v,
                    Err(err) => return Err(err),
                };
                assert(context.window(2) =~= rest.take(2));
                proof {
                    lemma_pow256_values();
                }
                if high < 0xD800 || high > 0xDFFF {
                    match char_from_u32(high as u32) {
                        Some(c) => Ok(Character { character: c, size: 2 }),
                        None => Err(Error::InvalidCharacter),
                    }
                } else if high <= 0xDBFF && len - pos >= 4 {
                    let next = context.at(pos + 2);
                    let low = match next.read_unsigned(2, e) {
                        Ok(v) => v,
                        Err(err) => return Err(err),
                    };
                    assert(next.window(2) =~= rest.subrange(2, 4));
                    if 0xDC00 <= low && low <= 0xDFFF {
                        let cp: u32 = (0x10000 + (high - 0xD800) * 0x400 + (low - 0xDC00)) as u32;
                        match char_from_u32(cp) {
                            Some(c) => Ok(Character { character: c, size: 4 }),
                            None => Err(Error::InvalidCharacter),
                        }
                    } else {
                        Err(Error::InvalidCharacter)
                    }
                } else {
                    Err(Error::InvalidCharacter)
                }
            },
            CharacterReader::UTF32(e) => {
                if len - pos < 4 {
                    return Err(Error::OutOfBounds);
                }
                let v = match context.read_unsigned(4, e) {
                    Ok(v) => v,
                    Err(err) => return Err(err),
                };
                assert(context.window(4) =~= rest.take(4));
                proof {
                    lemma_pow256_values();
                }
                match char_from_u32(v as u32) {
                    Some(c) => Ok(Character { character: c, size: 4 }),
                    None => Err(Error::InvalidCharacter),
                }
            },
        }
    }

    /// The size - in bytes - that [`Self::read`] takes, where it is the same
    /// for every character; `None` for the encodings of varying size.
    pub fn size(self) -> (r: Option<usize>)
        ensures
            r == (match self {
                CharacterReader::ASCII => Some(1usize),
                CharacterReader::UTF8 => None,
                CharacterReader::UTF16(_) => None,
                CharacterReader::UTF32(_) => Some(4usize),
            }),
    {
        match self {
            CharacterReader::ASCII => Some(1),
            CharacterReader::UTF8 => None,
            CharacterReader::UTF16(_) => None,
            CharacterReader::UTF32(_) => Some(4),
        }
    }
}

/// Decode the UTF-8 character at the position of the context.
fn read_utf8(context: Context) -> (r: Result<Character, Error>)
    requires
        context.pos() <= context.bytes().len(),
    ensures
        r is Ok <==> CharacterReader::UTF8.decode(context.rest()) is Some,
        r matches Ok(c) ==> (c.character as u32 as nat, c.size as nat) == CharacterReader::UTF8.decode(
            context.rest(),
        )->0,
        r matches Ok(c) ==> 1 <= c.size <= context.rest().len(),
        r matches Err(e) ==> (e == Error::OutOfBounds <==> context.rest().len() < 1),
        r matches Err(e) ==> (e == Error::OutOfBounds || e == Error::InvalidCharacter),
{
    let pos = context.position();
    let len = context.len();
    let ghost rest = context.rest();
    assert(rest =~= context.bytes().subrange(pos as int, len as int));
    if pos == len {
        return Err(Error::OutOfBounds);
    }
    let left = len - pos;
    let b0 = context.byte_at(pos);
    if b0 <= 0x7f {
        let cp: u32 = (b0 & 0x7F) as u32;
        assert(cp <= 0x7f) by (bit_vector)
            requires
                cp == (b0 & 0x7F) as u32,
        ;
        return match char_from_u32(cp) {
            Some(c) => Ok(Character { character: c, size: 1 }),
            None => Err(Error::InvalidCharacter),
        };
    }
    if 0xc0 <= b0 && b0 <= 0xdf {
        if left < 2 {
            return Err(Error::InvalidCharacter);
        }
        let b1 = context.byte_at(pos + 1);
        if !(0x80 <= b1 && b1 <= 0xbf) {
            return Err(Error::InvalidCharacter);
        }
        let cp: u32 = (((b0 & 0x1F) as u32) << 6) | ((b1 & 0x3f) as u32);
        assert(cp <= 0x7ff) by (bit_vector)
            requires
                cp == (((b0 & 0x1F) as u32) << 6) | ((b1 & 0x3f) as u32),
        ;
        if cp < 0x80 {
            return Err(Error::InvalidCharacter);
        }
        return match char_from_u32(cp) {
            Some(c) => Ok(Character { character: c, size: 2 }),
            None => Err(Error::InvalidCharacter),
        };
    }
    if 0xe0 <= b0 && b0 <= 0xef {
        if left < 3 {
            return Err(Error::InvalidCharacter);
        }
        let b1 = context.byte_at(pos + 1);
        let b2 = context.byte_at(pos + 2);
        if !(0x80 <= b1 && b1 <= 0xbf) || !(0x80 <= b2 && b2 <= 0xbf) {
            return Err(Error::InvalidCharacter);
        }
        let cp: u32 = (((b0 & 0x0F) as u32) << 12) | (((b1 & 0x3f) as u32) << 6) | ((b2
            & 0x3f) as u32);
        assert(cp <= 0xffff) by (bit_vector)
            requires
                cp == (((b0 & 0x0F) as u32) << 12) | (((b1 & 0x3f) as u32) << 6) | ((b2
                    & 0x3f) as u32),
        ;
        if cp < 0x800 || (0xD800 <= cp && cp <= 0xDFFF) {
            return Err(Error::InvalidCharacter);
        }
        return match char_from_u32(cp) {
            Some(c) => Ok(Character { character: c, size: 3 }),
            None => Err(Error::InvalidCharacter),
        };
    }
    if 0xf0 <= b0 && b0 <= 0xf7 {
        if left < 4 {
            return Err(Error::InvalidCharacter);
        }
        let b1 = context.byte_at(pos + 1);
        let b2 = context.byte_at(pos + 2);
        let b3 = context.byte_at(pos + 3);
        if !(0x80 <= b1 && b1 <= 0xbf) || !(0x80 <= b2 && b2 <= 0xbf) || !(0x80 <= b3 && b3
            <= 0xbf) {
            return Err(Error::InvalidCharacter);
        }
        let cp: u32 = (((b0 & 0x07) as u32) << 18) | (((b1 & 0x3f) as u32) << 12) | (((b2
            & 0x3f) as u32) << 6) | ((b3 & 0x3f) as u32);
        if cp < 0x10000 || cp > 0x10ffff {
            return Err(Error::InvalidCharacter);
        }
        return match char_from_u32(cp) {
            Some(c) => Ok(Character { character: c, size: 4 }),
            None => Err(Error::InvalidCharacter),
        };
    }
    Err(Error::InvalidCharacter)
}

/// UTF-32 and UTF-16 take their code units in the byte order they were
/// built with. UTF-32: the four bytes `b0 b1 b2 b3` are read as
/// `b0 + 256 b1 + 65536 b2 + 16777216 b3` little-endian and as
/// `16777216 b0 + 65536 b1 + 256 b2 + b3` big-endian; the character is the
/// one with that code point, and there is none when that number is no
/// scalar value. UTF-16: a first unit outside the surrogates, `b0 + 256 b1`
/// little-endian and `256 b0 + b1` big-endian, is the character itself,
/// two bytes long; a high surrogate followed by a low one, each read in the
/// same order, is the character that the pair stands for, four bytes long.
pub proof fn lemma_reader_code_units(rest: Seq<u8>)
    ensures
        rest.len() >= 4 ==> ({
            let le = rest[0] + 256 * rest[1] + 0x1_0000 * rest[2] + 0x100_0000 * rest[3];
            CharacterReader::UTF32(Endian::Little).decode(rest) == if is_scalar(le as u32) {
                Some((le as nat, 4nat))
            } else {
                None
            }
        }),
        rest.len() >= 4 ==> ({
            let be = 0x100_0000 * rest[0] + 0x1_0000 * rest[1] + 256 * rest[2] + rest[3];
            CharacterReader::UTF32(Endian::Big).decode(rest) == if is_scalar(be as u32) {
                Some((be as nat, 4nat))
            } else {
                None
            }
        }),
        rest.len() >= 2 ==> ({
            let le = rest[0] + 256 * rest[1];
            (le < 0xD800 || le > 0xDFFF) ==> CharacterReader::UTF16(Endian::Little).decode(rest)
                == Some((le as nat, 2nat))
        }),
        rest.len() >= 2 ==> ({
            let be = 256 * rest[0] + rest[1];
            (be < 0xD800 || be > 0xDFFF) ==> CharacterReader::UTF16(Endian::Big).decode(rest)
                == Some((be as nat, 2nat))
        }),
        rest.len() >= 4 ==> ({
            let hi = rest[0] + 256 * rest[1];
            let lo = rest[2] + 256 * rest[3];
            (0xD800 <= hi <= 0xDBFF && 0xDC00 <= lo <= 0xDFFF) ==> CharacterReader::UTF16(
                Endian::Little,
            ).decode(rest) == Some(((0x10000 + (hi - 0xD800) * 0x400 + (lo - 0xDC00)) as nat, 4nat))
        }),
        rest.len() >= 4 ==> ({
            let hi = 256 * rest[0] + rest[1];
            let lo = 256 * rest[2] + rest[3];
            (0xD800 <= hi <= 0xDBFF && 0xDC00 <= lo <= 0xDFFF) ==> CharacterReader::UTF16(
                Endian::Big,
            ).decode(rest) == Some(((0x10000 + (hi - 0xD800) * 0x400 + (lo - 0xDC00)) as nat, 4nat))
        }),
        rest.len() < 4 ==> CharacterReader::UTF32(Endian::Little).decode(rest) is None
            && CharacterReader::UTF32(Endian::Big).decode(rest) is None,
{
    if rest.len() >= 4 {
        let w = rest.take(4);
        assert(w[0] == rest[0] && w[1] == rest[1] && w[2] == rest[2] && w[3] == rest[3]);
        lemma_four_bytes(w);
        let v = rest.subrange(2, 4);
        assert(v[0] == rest[2] && v[1] == rest[3]);
        lemma_two_bytes(v);
    }
    if rest.len() >= 2 {
        let w = rest.take(2);
        assert(w[0] == rest[0] && w[1] == rest[1]);
        lemma_two_bytes(w);
    }
}

} // verus!
