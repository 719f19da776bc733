use vstd::prelude::*;

use vstd::string::StringExecFns;

use crate::error::Error;
use crate::number::character::{character_of, Character, CharacterReader};
use crate::number::context::Context;
use crate::number::digits::{chars_to_string, push_all};
use crate::number::integer_reader::IntegerReader;
use crate::number::renderer::CharacterRenderer;
use crate::types::alignment::Alignment;

verus! {

/// The bytes from a position to the end (none past the end).
pub open spec fn rest_at(bytes: Seq<u8>, pos: nat) -> Seq<u8> {
    if pos <= bytes.len() {
        bytes.skip(pos as int)
    } else {
        Seq::empty()
    }
}

/// Characters read one after another: `count` of them from `pos`, with the
/// position after the last; the failure of the first that cannot be read.
pub open spec fn read_chars(reader: CharacterReader, bytes: Seq<u8>, pos: nat, count: nat) -> Result<(Seq<Character>, nat), Error>
    decreases count,
{
    if count == 0 {
        Ok((Seq::empty(), pos))
    } else {
        match reader.decode(rest_at(bytes, pos)) {
            None => Err(reader.read_error(rest_at(bytes, pos))),
            Some(d) => match read_chars(reader, bytes, pos + d.1, (count - 1) as nat) {
                Err(e) => Err(e),
                Ok(more) => Ok((seq![character_of(d)] + more.0, more.1)),
            },
        }
    }
}

/// Characters read one after another from `pos` up to a NUL character (not
/// included), with the position after the NUL; the failure of the first that
/// cannot be read.
pub open spec fn read_until_nul(reader: CharacterReader, bytes: Seq<u8>, pos: nat) -> Result<(Seq<Character>, nat), Error>
    decreases bytes.len() - pos,
{
    match reader.decode(rest_at(bytes, pos)) {
        None => Err(reader.read_error(rest_at(bytes, pos))),
        Some(d) => if d.0 == 0 {
            Ok((Seq::empty(), pos + d.1))
        } else {
            proof {
                lemma_decode_size(reader, rest_at(bytes, pos));
            }
            match read_until_nul(reader, bytes, pos + d.1) {
                Err(e) => Err(e),
                Ok(more) => Ok((seq![character_of(d)] + more.0, more.1)),
            }
        },
    }
}

/// The characters, each rendered, one after another.
pub open spec fn render_text(renderer: CharacterRenderer, cs: Seq<Character>) -> Seq<char>
    decreases cs.len(),
{
    if cs.len() == 0 {
        Seq::empty()
    } else {
        render_text(renderer, cs.drop_last()) + renderer.rendered_character(cs.last())
    }
}

/// Text between double quotes.
pub open spec fn quoted(s: Seq<char>) -> Seq<char> {
    seq!['"'] + s + seq!['"']
}

/// A decoded character takes at least one byte and no more than there are.
pub proof fn lemma_decode_size(reader: CharacterReader, rest: Seq<u8>)
    ensures
        reader.decode(rest) matches Some(d) ==> 1 <= d.1 <= rest.len(),
{
}

/// Prepending what was read so far to what is read next.
pub open spec fn prepend(acc: Seq<Character>, r: Result<(Seq<Character>, nat), Error>) -> Result<(Seq<Character>, nat), Error> {
    match r {
        Err(e) => Err(e),
        Ok(more) => Ok((acc + more.0, more.1)),
    }
}

/// A read of characters as the specification gives it: the characters and
/// the position after them, or the failure.
pub open spec fn chars_outcome(r: Result<(usize, Vec<Character>), Error>) -> Result<(Seq<Character>, nat), Error> {
    match r {
        Ok((end, cs)) => Ok((cs@, end as nat)),
        Err(e) => Err(e),
    }
}

/// A measured read of characters as the specification gives it: the
/// characters and the position after them (`start` plus the size), or the
/// failure.
pub open spec fn sized_outcome(r: Result<(usize, Vec<Character>), Error>, start: nat) -> Result<(Seq<Character>, nat), Error> {
    match r {
        Ok((size, cs)) => Ok((cs@, start + size as nat)),
        Err(e) => Err(e),
    }
}

/// The text of a result, as the specification gives it.
pub open spec fn text_of(r: Result<String, Error>) -> Result<Seq<char>, Error> {
    match r {
        Ok(s) => Ok(s@),
        Err(e) => Err(e),
    }
}

/// The rendered characters of a read, or its failure.
pub open spec fn rendered_read(renderer: CharacterRenderer, r: Result<(Seq<Character>, nat), Error>) -> Result<Seq<char>, Error> {
    match r {
        Ok(res) => Ok(render_text(renderer, res.0)),
        Err(e) => Err(e),
    }
}

/// The rendered characters of a read between double quotes, or its failure.
pub open spec fn quoted_read(renderer: CharacterRenderer, r: Result<(Seq<Character>, nat), Error>) -> Result<Seq<char>, Error> {
    match r {
        Ok(res) => Ok(quoted(render_text(renderer, res.0))),
        Err(e) => Err(e),
    }
}

/// A size as the specification gives it.
pub open spec fn size_outcome(r: Result<usize, Error>) -> Result<nat, Error> {
    match r {
        Ok(n) => Ok(n as nat),
        Err(e) => Err(e),
    }
}

/// The size in bytes of a read from `start`, or its failure.
pub open spec fn read_size(r: Result<(Seq<Character>, nat), Error>, start: nat) -> Result<nat, Error> {
    match r {
        Ok(res) => Ok((res.1 - start) as nat),
        Err(e) => Err(e),
    }
}

/// Read `count` characters from the context, one after another.
pub fn read_characters(reader: CharacterReader, context: Context, count: usize) -> (r: Result<(usize, Vec<Character>), Error>)
    ensures
        chars_outcome(r) == read_chars(reader, context.bytes(), context.pos(), count as nat),
{
    let ghost bytes = context.bytes();
    let len = context.len();
    let mut position = context.position();
    let mut out: Vec<Character> = Vec::new();
    let mut i: usize = 0;
    assert(Seq::<Character>::empty() + Seq::<Character>::empty() =~= Seq::<Character>::empty());
    while i < count
        invariant
            i <= count,
            bytes == context.bytes(),
            len == bytes.len(),
            position <= bytes.len() || i == 0,
            i == 0 ==> position == context.pos(),
            read_chars(reader, bytes, context.pos(), count as nat) == prepend(
                out@,
                read_chars(reader, bytes, position as nat, (count - i) as nat),
            ),
        decreases count - i,
    {
        let here = context.at(position);
        assert(here.rest() == rest_at(bytes, position as nat));
        let c = match reader.read(here) {
            Ok(c) => c,
            Err(e) => {
                assert(read_chars(reader, bytes, position as nat, (count - i) as nat) == Err::<(Seq<Character>, nat), Error>(e));
                return Err(e);
            },
        };
        let ghost d = reader.decode(rest_at(bytes, position as nat))->0;
        let ghost next = read_chars(reader, bytes, (position + c.size) as nat, (count - i - 1) as nat);
        assert(read_chars(reader, bytes, position as nat, (count - i) as nat) == prepend(seq![c], next));
        let ghost prev = out@;
        position = position + c.size;
        out.push(c);
        i = i + 1;
        proof {
            match next {
                Err(e) => {
                    assert(prepend(prev, prepend(seq![c], next)) == Err::<(Seq<Character>, nat), Error>(e));
                    assert(prepend(out@, next) == Err::<(Seq<Character>, nat), Error>(e));
                },
                Ok(more) => {
                    assert(out@ =~= prev + seq![c]);
                    assert(out@ + more.0 =~= prev + (seq![c] + more.0));
                    assert(prepend(prev, prepend(seq![c], next)) == prepend(out@, next));
                },
            }
        }
    }
    assert(out@ + Seq::<Character>::empty() =~= out@);
    Ok((position, out))
}

/// Render characters one after another.
pub fn render_characters(renderer: &CharacterRenderer, cs: &Vec<Character>) -> (r: Vec<char>)
    ensures
        r@ == render_text(*renderer, cs@),
{
    let mut out: Vec<char> = Vec::new();
    let mut i: usize = 0;
    while i < cs.len()
        invariant
            i <= cs@.len(),
            out@ == render_text(*renderer, cs@.take(i as int)),
        decreases cs@.len() - i,
    {
        assert(cs@.take(i + 1).drop_last() =~= cs@.take(i as int));
        let s = renderer.render_character(cs[i]);
        let piece: Vec<char> = string_chars(&s);
        push_all(&mut out, &piece);
        i = i + 1;
    }
    assert(cs@.take(cs@.len() as int) =~= cs@);
    out
}

/// The characters of a string.
///
/// Wraps std's `str::chars` (collected); the contract claims the characters
/// of the string, in order.
#[verifier::external_body]
fn string_chars(s: &String) -> (r: Vec<char>)
    ensures
        r@ == s@,
{
    s.chars().collect()
}

/// Characters, rendered, between double quotes.
fn quote_characters(renderer: &CharacterRenderer, cs: &Vec<Character>) -> (r: String)
    ensures
        r@ == quoted(render_text(*renderer, cs@)),
{
    let body = render_characters(renderer, cs);
    let mut out: Vec<char> = Vec::new();
    out.push('"');
    push_all(&mut out, &body);
    out.push('"');
    assert(out@ =~= quoted(render_text(*renderer, cs@)));
    chars_to_string(out)
}

/// A string of a fixed number of characters.
#[derive(Debug, Clone, Copy)]
pub struct H2String {
    pub length: usize,
    pub character: CharacterReader,
    pub renderer: CharacterRenderer,
    pub alignment: Option<Alignment>,
}

impl H2String {
    /// Fails with [`Error::ZeroLength`] for a length of zero.
    pub fn new_aligned(alignment: Option<Alignment>, length_in_characters: usize, character: CharacterReader, renderer: CharacterRenderer) -> (r: Result<Self, Error>)
        ensures
            length_in_characters == 0 <==> r is Err,
            r matches Err(e) ==> e == Error::ZeroLength,
            r matches Ok(s) ==> s.length == length_in_characters && s.character == character
                && s.renderer == renderer && s.alignment == alignment,
    {
        if length_in_characters == 0 {
            return Err(Error::ZeroLength);
        }
        Ok(H2String { length: length_in_characters, character, renderer, alignment })
    }

    /// Fails with [`Error::ZeroLength`] for a length of zero.
    pub fn new(length_in_characters: usize, character: CharacterReader, renderer: CharacterRenderer) -> (r: Result<Self, Error>)
        ensures
            length_in_characters == 0 <==> r is Err,
            r matches Err(e) ==> e == Error::ZeroLength,
            r matches Ok(s) ==> s.length == length_in_characters && s.character == character
                && s.renderer == renderer && s.alignment is None,
    {
        Self::new_aligned(None, length_in_characters, character, renderer)
    }

    pub fn alignment(&self) -> (r: Option<Alignment>)
        ensures
            r == self.alignment,
    {
        self.alignment
    }

    /// What reading the string at a position gives.
    pub open spec fn read_at(&self, bytes: Seq<u8>, pos: nat) -> Result<(Seq<Character>, nat), Error> {
        read_chars(self.character, bytes, pos, self.length as nat)
    }

    /// The size in bytes at a position: for characters of one size, that
    /// size times the length.
    pub open spec fn sized(&self, bytes: Seq<u8>, pos: nat) -> Result<nat, Error> {
        match self.character {
            CharacterReader::ASCII => Ok(self.length as nat),
            CharacterReader::UTF32(_) => Ok(4 * (self.length as nat)),
            _ => read_size(self.read_at(bytes, pos), pos),
        }
    }

    /// The characters of the string, and the size in bytes they take.
    fn analyze(&self, context: Context) -> (r: Result<(usize, Vec<Character>), Error>)
        ensures
            sized_outcome(r, context.pos()) == self.read_at(context.bytes(), context.pos()),
    {
        match read_characters(self.character, context, self.length) {
            Ok((end, cs)) => {
                proof {
                    lemma_read_chars_end(self.character, context.bytes(), context.pos(), self.length as nat);
                }
                Ok((end - context.position(), cs))
            },
            Err(e) => Err(e),
        }
    }

    /// The size in bytes: for characters of one size, that size times the
    /// length; otherwise the bytes that the characters at the context take.
    pub fn base_size(&self, context: Context) -> (r: Result<usize, Error>)
        requires
            self.character is UTF32 ==> 4 * self.length <= usize::MAX,
        ensures
            size_outcome(r) == self.sized(context.bytes(), context.pos()),
    {
        match self.character.size() {
            Some(s) => Ok(s * self.length),
            None => match self.analyze(context) {
                Ok((size, _)) => Ok(size),
                Err(e) => Err(e),
            },
        }
    }

    /// The characters at the context, rendered one after another.
    pub fn to_string(&self, context: Context) -> (r: Result<String, Error>)
        ensures
            text_of(r) == rendered_read(self.renderer, self.read_at(context.bytes(), context.pos())),
    {
        match self.analyze(context) {
            Ok((_, cs)) => Ok(chars_to_string(render_characters(&self.renderer, &cs))),
            Err(e) => Err(e),
        }
    }

    /// The string at the context, between double quotes.
    pub fn to_display(&self, context: Context) -> (r: Result<String, Error>)
        ensures
            text_of(r) == quoted_read(self.renderer, self.read_at(context.bytes(), context.pos())),
    {
        match self.analyze(context) {
            Ok((_, cs)) => Ok(quote_characters(&self.renderer, &cs)),
            Err(e) => Err(e),
        }
    }
}

/// Reading never ends before it started.
pub proof fn lemma_read_chars_end(reader: CharacterReader, bytes: Seq<u8>, pos: nat, count: nat)
    ensures
        read_chars(reader, bytes, pos, count) matches Ok(res) ==> res.1 >= pos,
    decreases count,
{
    if count > 0 {
        match reader.decode(rest_at(bytes, pos)) {
            None => {},
            Some(d) => {
                lemma_read_chars_end(reader, bytes, pos + d.1, (count - 1) as nat);
            },
        }
    }
}

/// Read characters from the context up to a NUL character.
pub fn read_to_nul(reader: CharacterReader, context: Context) -> (r: Result<(usize, Vec<Character>), Error>)
    ensures
        chars_outcome(r) == read_until_nul(reader, context.bytes(), context.pos()),
{
    let ghost bytes = context.bytes();
    let len = context.len();
    let mut position = context.position();
    let mut out: Vec<Character> = Vec::new();
    loop
        invariant
            bytes == context.bytes(),
            len == bytes.len(),
            read_until_nul(reader, bytes, context.pos()) == prepend(
                out@,
                read_until_nul(reader, bytes, position as nat),
            ),
        decreases len - position,
    {
        let here = context.at(position);
        assert(here.rest() == rest_at(bytes, position as nat));
        let c = match reader.read(here) {
            Ok(c) => c,
            Err(e) => {
                assert(read_until_nul(reader, bytes, position as nat) == Err::<(Seq<Character>, nat), Error>(e));
                return Err(e);
            },
        };
        let ghost d = reader.decode(rest_at(bytes, position as nat))->0;
        let next_position = position + c.size;
        if c.character == '\0' {
            assert(d.0 == 0);
            assert(out@ + Seq::<Character>::empty() =~= out@);
            return Ok((next_position, out));
        }
        assert(d.0 != 0);
        let ghost next = read_until_nul(reader, bytes, next_position as nat);
        assert(read_until_nul(reader, bytes, position as nat) == prepend(seq![c], next));
        let ghost prev = out@;
        position = next_position;
        out.push(c);
        proof {
            match next {
                Err(e) => {
                    assert(prepend(prev, prepend(seq![c], next)) == Err::<(Seq<Character>, nat), Error>(e));
                    assert(prepend(out@, next) == Err::<(Seq<Character>, nat), Error>(e));
                },
                Ok(more) => {
                    assert(out@ =~= prev + seq![c]);
                    assert(out@ + more.0 =~= prev + (seq![c] + more.0));
                    assert(prepend(prev, prepend(seq![c], next)) == prepend(out@, next));
                },
            }
        }
    }
}

/// A string ended by a NUL character.
#[derive(Debug, Clone, Copy)]
pub struct NTString {
    pub character: CharacterReader,
    pub renderer: CharacterRenderer,
    pub alignment: Option<Alignment>,
}

impl NTString {
    pub fn new_aligned(alignment: Option<Alignment>, character: CharacterReader, renderer: CharacterRenderer) -> (r: Self)
        ensures
            r.character == character,
            r.renderer == renderer,
            r.alignment == alignment,
    {
        NTString { character, renderer, alignment }
    }

    pub fn new(character: CharacterReader, renderer: CharacterRenderer) -> (r: Self)
        ensures
            r.character == character,
            r.renderer == renderer,
            r.alignment is None,
    {
        Self::new_aligned(None, character, renderer)
    }

    pub fn alignment(&self) -> (r: Option<Alignment>)
        ensures
            r == self.alignment,
    {
        self.alignment
    }

    /// What reading the string at a position gives.
    pub open spec fn read_at(&self, bytes: Seq<u8>, pos: nat) -> Result<(Seq<Character>, nat), Error> {
        read_until_nul(self.character, bytes, pos)
    }

    /// The characters before the NUL, and the size in bytes they take with
    /// it.
    fn analyze(&self, context: Context) -> (r: Result<(usize, Vec<Character>), Error>)
        ensures
            sized_outcome(r, context.pos()) == self.read_at(context.bytes(), context.pos()),
    {
        match read_to_nul(self.character, context) {
            Ok((end, cs)) => {
                proof {
                    lemma_read_until_nul_end(self.character, context.bytes(), context.pos());
                }
                Ok((end - context.position(), cs))
            },
            Err(e) => Err(e),
        }
    }

    /// The size in bytes, the NUL included.
    pub fn base_size(&self, context: Context) -> (r: Result<usize, Error>)
        ensures
            size_outcome(r) == read_size(self.read_at(context.bytes(), context.pos()), context.pos()),
    {
        match self.analyze(context) {
            Ok((size, _)) => Ok(size),
            Err(e) => Err(e),
        }
    }

    /// The characters before the NUL, rendered one after another.
    pub fn to_string(&self, context: Context) -> (r: Result<String, Error>)
        ensures
            text_of(r) == rendered_read(self.renderer, self.read_at(context.bytes(), context.pos())),
    {
        match self.analyze(context) {
            Ok((_, cs)) => Ok(chars_to_string(render_characters(&self.renderer, &cs))),
            Err(e) => Err(e),
        }
    }

    /// The string at the context, between double quotes.
    pub fn to_display(&self, context: Context) -> (r: Result<String, Error>)
        ensures
            text_of(r) == quoted_read(self.renderer, self.read_at(context.bytes(), context.pos())),
    {
        match self.analyze(context) {
            Ok((_, cs)) => Ok(quote_characters(&self.renderer, &cs)),
            Err(e) => Err(e),
        }
    }
}

/// Reading up to a NUL never ends before it started.
pub proof fn lemma_read_until_nul_end(reader: CharacterReader, bytes: Seq<u8>, pos: nat)
    ensures
        read_until_nul(reader, bytes, pos) matches Ok(res) ==> res.1 >= pos,
    decreases bytes.len() - pos,
{
    match reader.decode(rest_at(bytes, pos)) {
        None => {},
        Some(d) => {
            lemma_decode_size(reader, rest_at(bytes, pos));
            if d.0 != 0 {
                lemma_read_until_nul_end(reader, bytes, pos + d.1);
            }
        },
    }
}

/// The number of characters that a length-prefixed string at a position
/// declares, and where its characters start; [`Error::OutOfBounds`] when the
/// prefix cannot be read, [`Error::CannotConvert`] when it is no `usize`.
pub open spec fn lp_header(length: IntegerReader, bytes: Seq<u8>, pos: nat) -> Result<(nat, nat), Error> {
    if pos + length.spec_size() <= bytes.len() {
        let n = length.decode(bytes.subrange(pos as int, (pos + length.spec_size()) as int));
        if n.spec_can_be_usize() {
            Ok((n.value() as nat, pos + length.spec_size()))
        } else {
            Err(Error::CannotConvert)
        }
    } else {
        Err(Error::OutOfBounds)
    }
}

/// What reading a length-prefixed string gives: its characters and the
/// position after them.
pub open spec fn lp_read(length: IntegerReader, character: CharacterReader, bytes: Seq<u8>, pos: nat) -> Result<(Seq<Character>, nat), Error> {
    match lp_header(length, bytes, pos) {
        Err(e) => Err(e),
        Ok(h) => read_chars(character, bytes, h.1, h.0),
    }
}

/// A string whose number of characters comes first, as an integer.
#[derive(Debug, Clone, Copy)]
pub struct LPString {
    pub length: IntegerReader,
    pub character: CharacterReader,
    pub renderer: CharacterRenderer,
    pub alignment: Option<Alignment>,
}

impl LPString {
    /// Fails with [`Error::NotNumeric`] when the length's type cannot be a
    /// `usize`.
    pub fn new_aligned(alignment: Option<Alignment>, length: IntegerReader, character: CharacterReader, renderer: CharacterRenderer) -> (r: Result<Self, Error>)
        ensures
            r is Ok <==> length.spec_can_be_usize(),
            r matches Err(e) ==> e == Error::NotNumeric,
            r matches Ok(s) ==> s.length == length && s.character == character && s.renderer
                == renderer && s.alignment == alignment,
    {
        if !length.can_be_usize() {
            return Err(Error::NotNumeric);
        }
        Ok(LPString { length, character, renderer, alignment })
    }

    /// Fails with [`Error::NotNumeric`] when the length's type cannot be a
    /// `usize`.
    pub fn new(length: IntegerReader, character: CharacterReader, renderer: CharacterRenderer) -> (r: Result<Self, Error>)
        ensures
            r is Ok <==> length.spec_can_be_usize(),
            r matches Err(e) ==> e == Error::NotNumeric,
            r matches Ok(s) ==> s.length == length && s.character == character && s.renderer
                == renderer && s.alignment is None,
    {
        Self::new_aligned(None, length, character, renderer)
    }

    pub fn alignment(&self) -> (r: Option<Alignment>)
        ensures
            r == self.alignment,
    {
        self.alignment
    }

    /// What reading the string at a position gives.
    pub open spec fn read_at(&self, bytes: Seq<u8>, pos: nat) -> Result<(Seq<Character>, nat), Error> {
        lp_read(self.length, self.character, bytes, pos)
    }

    /// The characters of the string, and the size in bytes that it takes
    /// with its length.
    fn analyze(&self, context: Context) -> (r: Result<(usize, Vec<Character>), Error>)
        ensures
            sized_outcome(r, context.pos()) == self.read_at(context.bytes(), context.pos()),
    {
        let n = match self.length.read(context) {
            Ok(n) => n,
            Err(e) => return Err(e),
        };
        let count = match n.as_usize() {
            Ok(c) => c,
            Err(e) => return Err(e),
        };
        let len = context.len();
        assert(context.pos() + self.length.spec_size() <= len);
        let start = context.position() + self.length.size();
        match read_characters(self.character, context.at(start), count) {
            Ok((end, cs)) => {
                proof {
                    lemma_read_chars_end(self.character, context.bytes(), start as nat, count as nat);
                }
                Ok((end - context.position(), cs))
            },
            Err(e) => Err(e),
        }
    }

    /// The size in bytes, the length included.
    pub fn base_size(&self, context: Context) -> (r: Result<usize, Error>)
        ensures
            size_outcome(r) == read_size(self.read_at(context.bytes(), context.pos()), context.pos()),
    {
        match self.analyze(context) {
            Ok((size, _)) => Ok(size),
            Err(e) => Err(e),
        }
    }

    /// The characters, rendered one after another.
    pub fn to_string(&self, context: Context) -> (r: Result<String, Error>)
        ensures
            text_of(r) == rendered_read(self.renderer, self.read_at(context.bytes(), context.pos())),
    {
        match self.analyze(context) {
            Ok((_, cs)) => Ok(chars_to_string(render_characters(&self.renderer, &cs))),
            Err(e) => Err(e),
        }
    }

    /// The string at the context, between double quotes.
    pub fn to_display(&self, context: Context) -> (r: Result<String, Error>)
        ensures
            text_of(r) == quoted_read(self.renderer, self.read_at(context.bytes(), context.pos())),
    {
        match self.analyze(context) {
            Ok((_, cs)) => Ok(quote_characters(&self.renderer, &cs)),
            Err(e) => Err(e),
        }
    }
}

} // verus!
