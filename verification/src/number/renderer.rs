use vstd::prelude::*;

use crate::number::character::Character;
use crate::number::context::Endian;
use crate::number::format::{
    BinaryFormatter, BooleanFormatter, CharacterRendererTrait, DefaultFormatter, HexFormatter,
    IntegerRendererImpl, OctalFormatter, ScientificFormatter,
};
use crate::number::integer::Integer;

verus! {

/// Configure how an [`Integer`] is rendered.
///
/// You don't generally want to create this enum directly; instead, use the
/// `new()` or `pretty()` methods in the formatter you want.
#[derive(Debug, Clone, Copy)]
pub enum IntegerRenderer {
    Binary(BinaryFormatter),
    Boolean(BooleanFormatter),
    Default(DefaultFormatter),
    Hex(HexFormatter),
    Octal(OctalFormatter),
    Scientific(ScientificFormatter),
}

impl IntegerRenderer {
    /// The text that [`Self::render`] gives: that of the chosen formatter.
    pub open spec fn rendered(self, v: Integer) -> Seq<char> {
        match self {
            IntegerRenderer::Binary(f) => f.rendered(v),
            IntegerRenderer::Boolean(f) => f.rendered(v),
            IntegerRenderer::Default(f) => f.rendered(v),
            IntegerRenderer::Hex(f) => f.rendered(v),
            IntegerRenderer::Octal(f) => f.rendered(v),
            IntegerRenderer::Scientific(f) => f.rendered(v),
        }
    }

    pub fn render(self, v: Integer) -> (s: String)
        ensures
            s@ == self.rendered(v),
    {
        match self {
            IntegerRenderer::Binary(f) => f.render_integer(v),
            IntegerRenderer::Boolean(f) => f.render_integer(v),
            IntegerRenderer::Default(f) => f.render_integer(v),
            IntegerRenderer::Hex(f) => f.render_integer(v),
            IntegerRenderer::Octal(f) => f.render_integer(v),
            IntegerRenderer::Scientific(f) => f.render_integer(v),
        }
    }
}

/// The same choice of formatter as [`IntegerRenderer`], under the name its
/// configuration files use.
#[derive(Debug, Clone, Copy)]
pub enum IntegerFormatter {
    Binary(BinaryFormatter),
    Boolean(BooleanFormatter),
    Default(DefaultFormatter),
    Hex(HexFormatter),
    Octal(OctalFormatter),
    Scientific(ScientificFormatter),
}

impl IntegerFormatter {
    /// The text that [`Self::render`] gives: that of the chosen formatter.
    pub open spec fn rendered(self, v: Integer) -> Seq<char> {
        match self {
            IntegerFormatter::Binary(f) => f.rendered(v),
            IntegerFormatter::Boolean(f) => f.rendered(v),
            IntegerFormatter::Default(f) => f.rendered(v),
            IntegerFormatter::Hex(f) => f.rendered(v),
            IntegerFormatter::Octal(f) => f.rendered(v),
            IntegerFormatter::Scientific(f) => f.rendered(v),
        }
    }

    pub fn render(self, v: Integer) -> (s: String)
        ensures
            s@ == self.rendered(v),
    {
        match self {
            IntegerFormatter::Binary(f) => f.render_integer(v),
            IntegerFormatter::Boolean(f) => f.render_integer(v),
            IntegerFormatter::Default(f) => f.render_integer(v),
            IntegerFormatter::Hex(f) => f.render_integer(v),
            IntegerFormatter::Octal(f) => f.render_integer(v),
            IntegerFormatter::Scientific(f) => f.render_integer(v),
        }
    }
}

impl BinaryFormatter {
    pub fn new_integer(prefix: bool, padded: bool) -> (r: IntegerRenderer)
        ensures
            r == IntegerRenderer::Binary(BinaryFormatter { prefix, padded, min_digits: 0 }),
    {
        IntegerRenderer::Binary(BinaryFormatter { prefix, padded, min_digits: 0 })
    }

    pub fn new_with_min_size_integer(prefix: bool, min_digits: usize) -> (r: IntegerRenderer)
        ensures
            r == IntegerRenderer::Binary(BinaryFormatter { prefix, padded: false, min_digits }),
    {
        IntegerRenderer::Binary(BinaryFormatter { prefix, padded: false, min_digits })
    }

    /// Prefixed and padded to the width of the type.
    pub fn pretty_integer() -> (r: IntegerRenderer)
        ensures
            r == IntegerRenderer::Binary(
                BinaryFormatter { prefix: true, padded: true, min_digits: 0 },
            ),
    {
        Self::new_integer(true, true)
    }
}

impl HexFormatter {
    pub fn new(uppercase: bool, prefix: bool, padded: bool) -> (r: IntegerRenderer)
        ensures
            r == IntegerRenderer::Hex(HexFormatter { uppercase, prefix, padded }),
    {
        IntegerRenderer::Hex(HexFormatter { uppercase, prefix, padded })
    }

    /// Lowercase, prefixed and padded.
    pub fn pretty() -> (r: IntegerRenderer)
        ensures
            r == IntegerRenderer::Hex(HexFormatter { uppercase: false, prefix: true, padded: true }),
    {
        Self::new(false, true, true)
    }
}

impl OctalFormatter {
    pub fn new_integer(prefix: bool, padded: bool) -> (r: IntegerRenderer)
        ensures
            r == IntegerRenderer::Octal(OctalFormatter { prefix, padded }),
    {
        IntegerRenderer::Octal(OctalFormatter { prefix, padded })
    }

    /// Prefixed, not padded.
    pub fn pretty_integer() -> (r: IntegerRenderer)
        ensures
            r == IntegerRenderer::Octal(OctalFormatter { prefix: true, padded: false }),
    {
        Self::new_integer(true, false)
    }
}

impl From<DefaultFormatter> for IntegerRenderer {
    fn from(f: DefaultFormatter) -> (r: IntegerRenderer) {
        IntegerRenderer::Default(f)
    }
}

impl vstd::std_specs::convert::FromSpecImpl<DefaultFormatter> for IntegerRenderer {
    open spec fn obeys_from_spec() -> bool {
        true
    }

    open spec fn from_spec(f: DefaultFormatter) -> IntegerRenderer {
        IntegerRenderer::Default(f)
    }
}

impl From<BooleanFormatter> for IntegerRenderer {
    fn from(f: BooleanFormatter) -> (r: IntegerRenderer) {
        IntegerRenderer::Boolean(f)
    }
}

impl vstd::std_specs::convert::FromSpecImpl<BooleanFormatter> for IntegerRenderer {
    open spec fn obeys_from_spec() -> bool {
        true
    }

    open spec fn from_spec(f: BooleanFormatter) -> IntegerRenderer {
        IntegerRenderer::Boolean(f)
    }
}

impl From<ScientificFormatter> for IntegerRenderer {
    fn from(f: ScientificFormatter) -> (r: IntegerRenderer) {
        IntegerRenderer::Scientific(f)
    }
}

impl vstd::std_specs::convert::FromSpecImpl<ScientificFormatter> for IntegerRenderer {
    open spec fn obeys_from_spec() -> bool {
        true
    }

    open spec fn from_spec(f: ScientificFormatter) -> IntegerRenderer {
        IntegerRenderer::Scientific(f)
    }
}

/// Configure how a [`Character`] is rendered.
#[derive(Debug, Clone, Copy)]
pub enum CharacterRenderer {
    Default(DefaultFormatter),
}

impl CharacterRenderer {
    /// The text that [`Self::render_character`] gives.
    pub open spec fn rendered_character(self, c: Character) -> Seq<char> {
        match self {
            CharacterRenderer::Default(f) => f.rendered_character(c),
        }
    }

    /// Render the given character.
    pub fn render_character(&self, c: Character) -> (s: String)
        ensures
            s@ == self.rendered_character(c),
    {
        match self {
            CharacterRenderer::Default(f) => f.render_character(c),
        }
    }
}

impl Default for CharacterRenderer {
    fn default() -> (r: Self)
        ensures
            r == CharacterRenderer::Default(DefaultFormatter {  }),
    {
        CharacterRenderer::Default(DefaultFormatter::new())
    }
}

impl From<DefaultFormatter> for CharacterRenderer {
    fn from(f: DefaultFormatter) -> (r: CharacterRenderer) {
        CharacterRenderer::Default(f)
    }
}

impl vstd::std_specs::convert::FromSpecImpl<DefaultFormatter> for CharacterRenderer {
    open spec fn obeys_from_spec() -> bool {
        true
    }

    open spec fn from_spec(f: DefaultFormatter) -> CharacterRenderer {
        CharacterRenderer::Default(f)
    }
}

/// Defines how a floating point number is read: its size and byte order.
#[derive(Debug, Clone, Copy, PartialEq, Eq, Structural)]
pub enum FloatReader {
    /// 32-bit float
    F32(Endian),
    /// 64-bit float
    F64(Endian),
}

impl FloatReader {
    /// The size - in bytes - that a read takes.
    pub fn size(self) -> (r: usize)
        ensures
            r == (match self {
                FloatReader::F32(_) => 4usize,
                FloatReader::F64(_) => 8usize,
            }),
    {
        match self {
            FloatReader::F32(_) => 4,
            FloatReader::F64(_) => 8,
        }
    }
}

/// Configure how a floating point number is rendered.
#[derive(Debug, Clone, Copy)]
pub enum FloatRenderer {
    Default(DefaultFormatter),
    Scientific(ScientificFormatter),
}

} // verus!
