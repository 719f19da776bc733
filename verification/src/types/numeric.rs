use vstd::prelude::*;

use crate::error::Error;
use crate::number::character::{Character, CharacterReader};
use crate::number::context::Context;
use crate::number::integer::Integer;
use crate::number::integer_reader::IntegerReader;
use crate::number::renderer::{CharacterRenderer, FloatReader, FloatRenderer, IntegerRenderer};
use crate::types::alignment::Alignment;
use crate::types::strings::{rest_at, size_outcome, text_of};

verus! {

/// A number of one of the primitive integer types, read by an
/// [`IntegerReader`] and rendered by an [`IntegerRenderer`].
#[derive(Debug, Clone, Copy)]
pub struct H2Integer {
    pub reader: IntegerReader,
    pub renderer: IntegerRenderer,
    pub alignment: Option<Alignment>,
}

impl H2Integer {
    pub fn new_aligned(alignment: Option<Alignment>, reader: IntegerReader, renderer: IntegerRenderer) -> (r: Self)
        ensures
            r.reader == reader,
            r.renderer == renderer,
            r.alignment == alignment,
    {
        H2Integer { reader, renderer, alignment }
    }

    pub fn new(reader: IntegerReader, renderer: IntegerRenderer) -> (r: Self)
        ensures
            r.reader == reader,
            r.renderer == renderer,
            r.alignment is None,
    {
        Self::new_aligned(None, reader, renderer)
    }

    /// The size in bytes: that of the reader.
    pub fn base_size(&self) -> (r: usize)
        ensures
            r == self.reader.spec_size(),
    {
        self.reader.size()
    }

    pub fn alignment(&self) -> (r: Option<Alignment>)
        ensures
            r == self.alignment,
    {
        self.alignment
    }

    /// The number at the context; fails with [`Error::OutOfBounds`] when too
    /// few bytes are left.
    pub fn to_integer(&self, context: Context) -> (r: Result<Integer, Error>)
        ensures
            r is Ok <==> context.has(self.reader.spec_size()),
            r matches Ok(i) ==> i == self.reader.decode(context.window(self.reader.spec_size())),
            r matches Err(e) ==> e == Error::OutOfBounds,
    {
        self.reader.read(context)
    }

    /// The number at the context, rendered; fails with
    /// [`Error::OutOfBounds`] when too few bytes are left.
    pub fn to_display(&self, context: Context) -> (r: Result<String, Error>)
        ensures
            r is Ok <==> context.has(self.reader.spec_size()),
            r matches Ok(s) ==> s@ == self.renderer.rendered(
                self.reader.decode(context.window(self.reader.spec_size())),
            ),
            r matches Err(e) ==> e == Error::OutOfBounds,
    {
        match self.reader.read(context) {
            Ok(i) => Ok(self.renderer.render(i)),
            Err(e) => Err(e),
        }
    }
}

/// A character, read by a [`CharacterReader`] and rendered by a
/// [`CharacterRenderer`].
#[derive(Debug, Clone, Copy)]
pub struct H2Character {
    pub reader: CharacterReader,
    pub renderer: CharacterRenderer,
    pub alignment: Option<Alignment>,
}

impl H2Character {
    pub fn new_aligned(alignment: Option<Alignment>, reader: CharacterReader, renderer: CharacterRenderer) -> (r: Self)
        ensures
            r.reader == reader,
            r.renderer == renderer,
            r.alignment == alignment,
    {
        H2Character { reader, renderer, alignment }
    }

    pub fn new(reader: CharacterReader, renderer: CharacterRenderer) -> (r: Self)
        ensures
            r.reader == reader,
            r.renderer == renderer,
            r.alignment is None,
    {
        Self::new_aligned(None, reader, renderer)
    }

    pub fn alignment(&self) -> (r: Option<Alignment>)
        ensures
            r == self.alignment,
    {
        self.alignment
    }

    /// The size in bytes at a position: fixed for ASCII and UTF-32,
    /// otherwise that of the character there.
    pub open spec fn sized(&self, bytes: Seq<u8>, pos: nat) -> Result<nat, Error> {
        match self.reader {
            CharacterReader::ASCII => Ok(1),
            CharacterReader::UTF32(_) => Ok(4),
            _ => match self.reader.read_result(rest_at(bytes, pos)) {
                Ok(c) => Ok(c.size as nat),
                Err(e) => Err(e),
            },
        }
    }

    /// The character at a position, rendered.
    pub open spec fn displayed(&self, bytes: Seq<u8>, pos: nat) -> Result<Seq<char>, Error> {
        match self.reader.read_result(rest_at(bytes, pos)) {
            Ok(c) => Ok(self.renderer.rendered_character(c)),
            Err(e) => Err(e),
        }
    }

    /// The character at the context (see [`CharacterReader::read`]).
    pub fn to_character(&self, context: Context) -> (r: Result<Character, Error>)
        ensures
            r == self.reader.read_result(context.rest()),
            r is Ok <==> self.reader.decode(context.rest()) is Some,
            r matches Ok(c) ==> (c.character as u32 as nat, c.size as nat) == self.reader.decode(
                context.rest(),
            )->0,
    {
        self.reader.read(context)
    }

    /// The size in bytes: fixed for ASCII and UTF-32, otherwise that of the
    /// character at the context.
    pub fn base_size(&self, context: Context) -> (r: Result<usize, Error>)
        ensures
            size_outcome(r) == self.sized(context.bytes(), context.pos()),
            match self.reader {
                CharacterReader::ASCII => r == Ok::<usize, Error>(1),
                CharacterReader::UTF32(_) => r == Ok::<usize, Error>(4),
                _ => (r is Ok <==> self.reader.decode(context.rest()) is Some) && (r matches Ok(n)
                    ==> n == (self.reader.decode(context.rest())->0).1),
            },
    {
        match self.reader.size() {
            Some(v) => Ok(v),
            None => match self.reader.read(context) {
                Ok(c) => Ok(c.size),
                Err(e) => Err(e),
            },
        }
    }

    /// The character at the context, rendered.
    pub fn to_display(&self, context: Context) -> (r: Result<String, Error>)
        ensures
            text_of(r) == self.displayed(context.bytes(), context.pos()),
            r is Ok <==> self.reader.decode(context.rest()) is Some,
            r matches Ok(s) ==> exists|c: Character|
                (c.character as u32 as nat, c.size as nat) == self.reader.decode(context.rest())->0
                    && s@ == self.renderer.rendered_character(c),
    {
        match self.reader.read(context) {
            Ok(c) => Ok(self.renderer.render_character(c)),
            Err(e) => Err(e),
        }
    }
}

/// A floating point number, read by a [`FloatReader`] and rendered by a
/// [`FloatRenderer`].
#[derive(Debug, Clone, Copy)]
pub struct H2Float {
    pub reader: FloatReader,
    pub renderer: FloatRenderer,
    pub alignment: Option<Alignment>,
}

impl H2Float {
    pub fn new_aligned(alignment: Option<Alignment>, reader: FloatReader, renderer: FloatRenderer) -> (r: Self)
        ensures
            r.reader == reader,
            r.renderer == renderer,
            r.alignment == alignment,
    {
        H2Float { reader, renderer, alignment }
    }

    pub fn new(reader: FloatReader, renderer: FloatRenderer) -> (r: Self)
        ensures
            r.reader == reader,
            r.renderer == renderer,
            r.alignment is None,
    {
        Self::new_aligned(None, reader, renderer)
    }

    /// The size in bytes: that of the reader (4 or 8).
    pub fn base_size(&self) -> (r: usize)
        ensures
            r == (match self.reader {
                FloatReader::F32(_) => 4usize,
                FloatReader::F64(_) => 8usize,
            }),
    {
        self.reader.size()
    }

    pub fn alignment(&self) -> (r: Option<Alignment>)
        ensures
            r == self.alignment,
    {
        self.alignment
    }
}

} // verus!
