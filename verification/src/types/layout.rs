use vstd::prelude::*;

use std::ops::Range;

use crate::data::data_entry::{item_of, space_of};
use crate::data::store::Data;
use crate::error::Error;
use crate::number::character::CharacterReader;
use crate::number::context::Context;
use crate::number::renderer::FloatReader;
use crate::types::alignment::{round_up_spec, Alignment};
use crate::types::h2type::H2Type;
use crate::number::context::{unsigned_value, Endian};
use crate::number::digits::{digits, zero_pad};
use crate::number::integer::Integer;
use crate::types::network::{colon_hex, ipv4_text, ipv6_text};
use crate::types::simple::{uuid_text, uuid_version_of, version_label};
use crate::types::strings::{quoted_read, read_size, size_outcome, text_of};
use vstd::string::StringExecFns;

verus! {

/// The type that a name refers to: the type of that name in the unnamed
/// namespace of the data's types.
pub open spec fn named_type(data: Data, name: Seq<char>) -> Result<H2Type, Error> {
    match space_of(data.types@, None) {
        None => Err(Error::NoSuchNamespace),
        Some(items) => match item_of(items, name) {
            None => Err(Error::NotFound),
            Some(t) => Ok(t),
        },
    }
}

/// How many references may be followed one inside another: the number of
/// named types. A longer chain names some type twice, so the type refers
/// back to itself.
pub open spec fn reference_depth(data: Data) -> nat {
    match space_of(data.types@, None) {
        None => 0,
        Some(items) => items.len(),
    }
}

/// The parts of a type: a struct's fields with their names, or an array's
/// element type `length` times, unnamed. Other types have none.
pub open spec fn parts(t: H2Type) -> Seq<(Option<Seq<char>>, H2Type)> {
    match t {
        H2Type::H2Struct(s) => s.fields@.map_values(|f: (String, H2Type)| (Some(f.0@), f.1)),
        H2Type::H2Array(a) => Seq::new(a.length as nat, |i: int| (None::<Seq<char>>, *a.field_type)),
        _ => Seq::empty(),
    }
}

/// Each part of a type is smaller than the type.
pub proof fn lemma_part_smaller(t: H2Type, i: int)
    requires
        0 <= i < parts(t).len(),
    ensures
        decreases_to!(t => parts(t)[i].1),
{
    match t {
        H2Type::H2Struct(s) => {
            assert(parts(t)[i].1 == s.fields@[i].1);
            assert(decreases_to!(t => s));
            assert(decreases_to!(s => s.fields));
            assert(decreases_to!(s.fields => s.fields@));
            assert(decreases_to!(s.fields@ => s.fields@[i]));
            assert(decreases_to!(s.fields@[i] => s.fields@[i].1));
        },
        H2Type::H2Array(a) => {
            assert(parts(t)[i].1 == *a.field_type);
            assert(decreases_to!(t => a));
            assert(decreases_to!(a => a.field_type));
        },
        _ => {},
    }
}

/// The range that a value takes from `start`, padded as its alignment asks;
/// [`Error::Overflow`] when the range would end past `usize`.
pub open spec fn aligned_span(al: Option<Alignment>, start: nat, size: nat) -> Result<(nat, nat), Error> {
    if start + size > usize::MAX {
        Err(Error::Overflow)
    } else {
        match al {
            None => Ok((start, start + size)),
            Some(a) => match a.aligned(start, start + size) {
                Err(e) => Err(e),
                Ok(r) => if r.1 > usize::MAX {
                    Err(Error::Overflow)
                } else {
                    Ok(r)
                },
            },
        }
    }
}

/// The size in bytes that a type of no parts takes at a position.
pub open spec fn own_size(t: H2Type, bytes: Seq<u8>, pos: nat) -> Result<nat, Error> {
    match t {
        H2Type::Rgb(_) => Ok(3),
        H2Type::H2Bitmask(b) => Ok(b.reader.spec_size()),
        H2Type::H2Enum(e) => Ok(e.reader.spec_size()),
        H2Type::H2UUID(_) => Ok(16),
        H2Type::H2Blob(b) => Ok(b.length as nat),
        H2Type::H2Character(c) => c.sized(bytes, pos),
        H2Type::H2Float(f) => Ok(
            match f.reader {
                FloatReader::F32(_) => 4,
                FloatReader::F64(_) => 8,
            },
        ),
        H2Type::H2Integer(i) => Ok(i.reader.spec_size()),
        H2Type::IPv4(_) => Ok(4),
        H2Type::IPv6(_) => Ok(16),
        H2Type::MacAddress(_) => Ok(6),
        H2Type::MacAddress8(_) => Ok(8),
        H2Type::H2String(s) => if s.character is UTF32 && 4 * s.length > usize::MAX {
            Err(Error::Overflow)
        } else {
            s.sized(bytes, pos)
        },
        H2Type::NTString(s) => read_size(s.read_at(bytes, pos), pos),
        H2Type::LPString(s) => read_size(s.read_at(bytes, pos), pos),
        _ => Err(Error::Unsupported),
    }
}

/// The size in bytes of a type at a position, following references at most
/// `depth` deep. A type with parts ends where its last part's padded range
/// ends.
pub open spec fn size_of(t: H2Type, data: Data, bytes: Seq<u8>, pos: nat, depth: nat) -> Result<nat, Error>
    decreases depth, t, 1nat, 0nat,
{
    match t {
        H2Type::NamedReference(n) => if depth == 0 {
            Err(Error::ReferenceCycle)
        } else {
            match named_type(data, n@) {
                Err(e) => Err(e),
                Ok(u) => size_of(u, data, bytes, pos, (depth - 1) as nat),
            }
        },
        H2Type::H2Struct(_) | H2Type::H2Array(_) => match spans_of(t, data, bytes, pos, depth, 0) {
            Err(e) => Err(e),
            Ok(spans) => if spans.len() == 0 {
                Err(Error::ZeroLength)
            } else {
                Ok((spans.last().1 - spans[0].0) as nat)
            },
        },
        _ => own_size(t, bytes, pos),
    }
}

/// The padded range that a type takes from a position.
pub open spec fn span_of(t: H2Type, data: Data, bytes: Seq<u8>, pos: nat, depth: nat) -> Result<(nat, nat), Error>
    decreases depth, t, 2nat, 0nat,
{
    match t {
        H2Type::NamedReference(n) => if depth == 0 {
            Err(Error::ReferenceCycle)
        } else {
            match named_type(data, n@) {
                Err(e) => Err(e),
                Ok(u) => span_of(u, data, bytes, pos, (depth - 1) as nat),
            }
        },
        _ => match size_of(t, data, bytes, pos, depth) {
            Err(e) => Err(e),
            Ok(size) => aligned_span(t.spec_alignment(), pos, size),
        },
    }
}

/// The padded ranges of a type's parts from the `i`-th on, the first at
/// `pos` and each of the others where the one before it ends.
pub open spec fn spans_of(t: H2Type, data: Data, bytes: Seq<u8>, pos: nat, depth: nat, i: nat) -> Result<Seq<(nat, nat)>, Error>
    decreases depth, t, 0nat, parts(t).len() - i,
{
    if i >= parts(t).len() {
        Ok(Seq::empty())
    } else {
        proof {
            lemma_part_smaller(t, i as int);
        }
        match span_of(parts(t)[i as int].1, data, bytes, pos, depth) {
            Err(e) => Err(e),
            Ok(r) => match spans_of(t, data, bytes, r.1, depth, i + 1) {
                Err(e) => Err(e),
                Ok(rest) => Ok(seq![r] + rest),
            },
        }
    }
}

/// Ranges as the specification gives them.
pub open spec fn spans_view(v: Seq<(usize, usize)>) -> Seq<(nat, nat)> {
    v.map_values(|r: (usize, usize)| (r.0 as nat, r.1 as nat))
}

/// A range result as the specification gives it.
pub open spec fn span_outcome(r: Result<(usize, usize), Error>) -> Result<(nat, nat), Error> {
    match r {
        Ok(p) => Ok((p.0 as nat, p.1 as nat)),
        Err(e) => Err(e),
    }
}

/// A result of ranges as the specification gives it.
pub open spec fn spans_outcome(r: Result<Vec<(usize, usize)>, Error>) -> Result<Seq<(nat, nat)>, Error> {
    match r {
        Ok(v) => Ok(spans_view(v@)),
        Err(e) => Err(e),
    }
}

/// Ranges found so far, followed by those still to find.
pub open spec fn prepend_spans(acc: Seq<(nat, nat)>, r: Result<Seq<(nat, nat)>, Error>) -> Result<Seq<(nat, nat)>, Error> {
    match r {
        Err(e) => Err(e),
        Ok(rest) => Ok(acc + rest),
    }
}

/// The type that a name refers to.
pub(crate) fn named<'a>(data: &'a Data, name: &String) -> (r: Result<&'a H2Type, Error>)
    requires
        data.wf(),
    ensures
        match named_type(*data, name@) {
            Ok(u) => r is Ok && *r->Ok_0 == u,
            Err(e) => r == Err::<&H2Type, Error>(e),
        },
{
    data.types.get(None, name.as_str())
}

/// The number of parts of a type.
fn parts_len(t: &H2Type) -> (r: usize)
    ensures
        r == parts(*t).len(),
{
    match t {
        H2Type::H2Struct(s) => s.fields.len(),
        H2Type::H2Array(a) => a.length,
        _ => 0,
    }
}

/// The `i`-th part of a type.
pub(crate) fn part_at(t: &H2Type, i: usize) -> (r: (&H2Type, Option<&String>))
    requires
        i < parts(*t).len(),
    ensures
        *r.0 == parts(*t)[i as int].1,
        match r.1 {
            Some(n) => parts(*t)[i as int].0 == Some(n@),
            None => parts(*t)[i as int].0 is None,
        },
{
    match t {
        H2Type::H2Struct(s) => (&s.fields[i].1, Some(&s.fields[i].0)),
        H2Type::H2Array(a) => (&*a.field_type, None),
        _ => {
            proof {
                assert(parts(*t).len() == 0);
            }
            unreached()
        },
    }
}

/// The range from `start` of `size` bytes, padded as the alignment asks.
fn align_span(al: Option<Alignment>, start: usize, size: usize) -> (r: Result<(usize, usize), Error>)
    ensures
        span_outcome(r) == aligned_span(al, start as nat, size as nat),
{
    if size > usize::MAX - start {
        return Err(Error::Overflow);
    }
    let end = start + size;
    let a = match al {
        None => return Ok((start, end)),
        Some(a) => a,
    };
    let m: u64 = match a {
        Alignment::NoAlignment => 0,
        Alignment::Loose(m) => m,
        Alignment::Strict(m) => {
            if m != 0 && (start as u64) % m != 0 {
                return Err(Error::Unaligned);
            }
            m
        },
    };
    let size_wide = size as u128;
    let padded: u128 = if m == 0 || size_wide % (m as u128) == 0 {
        size_wide
    } else {
        let rem = size_wide % (m as u128);
        assert(rem <= size_wide) by (nonlinear_arith)
            requires
                m > 0,
                rem == size_wide % (m as u128),
        ;
        size_wide - rem + (m as u128)
    };
    assert(padded == round_up_spec(size as nat, m as nat));
    if (start as u128) + padded > usize::MAX as u128 {
        return Err(Error::Overflow);
    }
    match a.align((start as u64)..(end as u64)) {
        Ok(range) => Ok((range.start as usize, range.end as usize)),
        Err(e) => Err(e),
    }
}

/// The size in bytes that a type of no parts takes at the context.
fn own_size_in(t: &H2Type, context: Context) -> (r: Result<usize, Error>)
    ensures
        size_outcome(r) == own_size(*t, context.bytes(), context.pos()),
{
    match t {
        H2Type::Rgb(x) => Ok(x.base_size()),
        H2Type::H2Bitmask(x) => Ok(x.base_size()),
        H2Type::H2Enum(x) => Ok(x.base_size()),
        H2Type::H2UUID(x) => Ok(x.base_size()),
        H2Type::H2Blob(x) => Ok(x.base_size()),
        H2Type::H2Character(x) => x.base_size(context),
        H2Type::H2Float(x) => Ok(x.base_size()),
        H2Type::H2Integer(x) => Ok(x.base_size()),
        H2Type::IPv4(x) => Ok(x.base_size()),
        H2Type::IPv6(x) => Ok(x.base_size()),
        H2Type::MacAddress(x) => Ok(x.base_size()),
        H2Type::MacAddress8(x) => Ok(x.base_size()),
        H2Type::H2String(x) => {
            let wide = match x.character {
                CharacterReader::UTF32(_) => true,
                _ => false,
            };
            if wide && x.length > usize::MAX / 4 {
                return Err(Error::Overflow);
            }
            x.base_size(context)
        },
        H2Type::NTString(x) => x.base_size(context),
        H2Type::LPString(x) => x.base_size(context),
        _ => Err(Error::Unsupported),
    }
}

/// The size in bytes of a type at the context (see [`size_of`]).
fn size_in(t: &H2Type, data: &Data, context: Context, depth: usize) -> (r: Result<usize, Error>)
    requires
        data.wf(),
    ensures
        size_outcome(r) == size_of(*t, *data, context.bytes(), context.pos(), depth as nat),
    decreases depth, *t, 1nat, 0nat,
{
    match t {
        H2Type::NamedReference(n) => {
            if depth == 0 {
                return Err(Error::ReferenceCycle);
            }
            match named(data, n) {
                Err(e) => Err(e),
                Ok(u) => size_in(u, data, context, depth - 1),
            }
        },
        H2Type::H2Struct(_) | H2Type::H2Array(_) => {
            let spans = match spans_in(t, data, context, depth) {
                Ok(s) => s,
                Err(e) => return Err(e),
            };
            if spans.len() == 0 {
                return Err(Error::ZeroLength);
            }
            let last = spans.len() - 1;
            assert(spans_view(spans@).last() == spans_view(spans@)[last as int]);
            assert(spans_view(spans@)[0] == (spans@[0].0 as nat, spans@[0].1 as nat));
            proof {
                lemma_spans_ordered(*t, *data, context.bytes(), context.pos(), depth as nat, 0);
            }
            Ok(spans[last].1 - spans[0].0)
        },
        _ => own_size_in(t, context),
    }
}

/// The padded range that a type takes at the context (see [`span_of`]).
fn span_in(t: &H2Type, data: &Data, context: Context, depth: usize) -> (r: Result<(usize, usize), Error>)
    requires
        data.wf(),
    ensures
        span_outcome(r) == span_of(*t, *data, context.bytes(), context.pos(), depth as nat),
    decreases depth, *t, 2nat, 0nat,
{
    match t {
        H2Type::NamedReference(n) => {
            if depth == 0 {
                return Err(Error::ReferenceCycle);
            }
            match named(data, n) {
                Err(e) => Err(e),
                Ok(u) => span_in(u, data, context, depth - 1),
            }
        },
        _ => {
            let size = match size_in(t, data, context, depth) {
                Ok(s) => s,
                Err(e) => return Err(e),
            };
            align_span(t.alignment(), context.position(), size)
        },
    }
}

/// The padded ranges of a type's parts at the context (see [`spans_of`]).
fn spans_in(t: &H2Type, data: &Data, context: Context, depth: usize) -> (r: Result<Vec<(usize, usize)>, Error>)
    requires
        data.wf(),
    ensures
        spans_outcome(r) == spans_of(*t, *data, context.bytes(), context.pos(), depth as nat, 0),
    decreases depth, *t, 0nat, 0nat,
{
    let ghost bytes = context.bytes();
    let n = parts_len(t);
    let mut out: Vec<(usize, usize)> = Vec::new();
    let mut pos = context.position();
    let mut i: usize = 0;
    assert(spans_view(out@) =~= Seq::<(nat, nat)>::empty());
    assert(Seq::<(nat, nat)>::empty() + Seq::<(nat, nat)>::empty() =~= Seq::<(nat, nat)>::empty());
    while i < n
        invariant
            n == parts(*t).len(),
            i <= n,
            data.wf(),
            bytes == context.bytes(),
            spans_of(*t, *data, bytes, context.pos(), depth as nat, 0) == prepend_spans(
                spans_view(out@),
                spans_of(*t, *data, bytes, pos as nat, depth as nat, i as nat),
            ),
        decreases n - i,
    {
        let (part, _) = part_at(t, i);
        proof {
            lemma_part_smaller(*t, i as int);
        }
        let r = match span_in(part, data, context.at(pos), depth) {
            Ok(r) => r,
            Err(e) => {
                assert(spans_of(*t, *data, bytes, pos as nat, depth as nat, i as nat) == Err::<Seq<(nat, nat)>, Error>(e));
                return Err(e);
            },
        };
        let ghost next = spans_of(*t, *data, bytes, r.1 as nat, depth as nat, (i + 1) as nat);
        let ghost prev = spans_view(out@);
        assert(spans_of(*t, *data, bytes, pos as nat, depth as nat, i as nat) == prepend_spans(
            seq![(r.0 as nat, r.1 as nat)],
            next,
        ));
        out.push(r);
        pos = r.1;
        i = i + 1;
        proof {
            assert(spans_view(out@) =~= prev + seq![(r.0 as nat, r.1 as nat)]);
            match next {
                Err(e) => {
                    assert(prepend_spans(prev, prepend_spans(seq![(r.0 as nat, r.1 as nat)], next)) == Err::<Seq<(nat, nat)>, Error>(e));
                },
                Ok(rest) => {
                    assert(spans_view(out@) + rest =~= prev + (seq![(r.0 as nat, r.1 as nat)] + rest));
                },
            }
        }
    }
    assert(spans_of(*t, *data, bytes, pos as nat, depth as nat, i as nat) == Ok::<Seq<(nat, nat)>, Error>(Seq::empty()));
    assert(spans_view(out@) + Seq::<(nat, nat)>::empty() =~= spans_view(out@));
    Ok(out)
}

/// Padded ranges never end before they start, and each part's range starts
/// where the one before it ends, so the last part's range ends no earlier
/// than the first one starts.
pub proof fn lemma_spans_ordered(t: H2Type, data: Data, bytes: Seq<u8>, pos: nat, depth: nat, i: nat)
    ensures
        spans_of(t, data, bytes, pos, depth, i) matches Ok(spans) ==> spans.len() > 0 ==> (
        spans[0].0 == pos && spans.last().1 >= pos),
    decreases parts(t).len() - i,
{
    if i < parts(t).len() {
        lemma_span_ordered(parts(t)[i as int].1, data, bytes, pos, depth);
        match span_of(parts(t)[i as int].1, data, bytes, pos, depth) {
            Err(_) => {},
            Ok(r) => {
                lemma_spans_ordered(t, data, bytes, r.1, depth, i + 1);
            },
        }
    }
}

/// A padded range starts at the position and does not end before it.
pub proof fn lemma_span_ordered(t: H2Type, data: Data, bytes: Seq<u8>, pos: nat, depth: nat)
    ensures
        span_of(t, data, bytes, pos, depth) matches Ok(r) ==> r.0 == pos && r.1 >= pos,
    decreases depth,
{
    match t {
        H2Type::NamedReference(n) => {
            if depth > 0 {
                match named_type(data, n@) {
                    Err(_) => {},
                    Ok(u) => lemma_span_ordered(u, data, bytes, pos, (depth - 1) as nat),
                }
            }
        },
        _ => {
            match size_of(t, data, bytes, pos, depth) {
                Err(_) => {},
                Ok(size) => lemma_aligned_span_ordered(t.spec_alignment(), pos, size),
            }
        },
    }
}

/// A padded range starts at the start and does not end before it.
pub proof fn lemma_aligned_span_ordered(al: Option<Alignment>, start: nat, size: nat)
    ensures
        aligned_span(al, start, size) matches Ok(r) ==> r.0 == start && r.1 >= start + size,
{
    match al {
        None => {},
        Some(a) => match a {
            Alignment::NoAlignment => {},
            Alignment::Loose(m) => {
                if m > 0 {
                    crate::types::alignment::lemma_round_up(size, m as nat);
                }
            },
            Alignment::Strict(m) => {
                if m > 0 {
                    crate::types::alignment::lemma_round_up(size, m as nat);
                }
            },
        },
    }
}

/// The `n` bytes at a position.
pub open spec fn window_at(bytes: Seq<u8>, pos: nat, n: nat) -> Seq<u8> {
    bytes.subrange(pos as int, (pos + n) as int)
}

/// What a type of no parts displays at a position.
pub open spec fn own_display(t: H2Type, data: Data, bytes: Seq<u8>, pos: nat) -> Result<Seq<char>, Error> {
    match t {
        H2Type::Rgb(_) => if pos + 3 <= bytes.len() {
            Ok(seq!['#'] + zero_pad(digits(unsigned_value(window_at(bytes, pos, 3), Endian::Big), 16, false), 6))
        } else {
            Err(Error::OutOfBounds)
        },
        H2Type::H2Enum(e) => if pos + e.reader.spec_size() <= bytes.len() {
            e.rendered(e.reader.decode(window_at(bytes, pos, e.reader.spec_size())), data)
        } else {
            Err(Error::OutOfBounds)
        },
        H2Type::H2Bitmask(b) => if pos + b.reader.spec_size() <= bytes.len() {
            b.rendered(b.reader.decode(window_at(bytes, pos, b.reader.spec_size())), data)
        } else {
            Err(Error::OutOfBounds)
        },
        H2Type::H2UUID(u) => if pos + 16 <= bytes.len() {
            let v = unsigned_value(window_at(bytes, pos, 16), u.endian) as u128;
            if u.include_version {
                Ok(uuid_text(v) + " ("@ + version_label(uuid_version_of(v)) + ")"@)
            } else {
                Ok(uuid_text(v))
            }
        } else {
            Err(Error::OutOfBounds)
        },
        H2Type::H2Blob(b) => Ok(
            "Binary blob ("@ + b.length_display.rendered(Integer::USize(b.length)) + " bytes)"@,
        ),
        H2Type::H2Character(c) => c.displayed(bytes, pos),
        H2Type::H2Integer(i) => if pos + i.reader.spec_size() <= bytes.len() {
            Ok(i.renderer.rendered(i.reader.decode(window_at(bytes, pos, i.reader.spec_size()))))
        } else {
            Err(Error::OutOfBounds)
        },
        H2Type::IPv4(a) => if pos + 4 <= bytes.len() {
            Ok(ipv4_text(unsigned_value(window_at(bytes, pos, 4), a.endian)))
        } else {
            Err(Error::OutOfBounds)
        },
        H2Type::IPv6(a) => if pos + 16 <= bytes.len() {
            Ok(ipv6_text(unsigned_value(window_at(bytes, pos, 16), a.endian) as u128))
        } else {
            Err(Error::OutOfBounds)
        },
        H2Type::MacAddress(_) => if pos + 6 <= bytes.len() {
            Ok(colon_hex(window_at(bytes, pos, 6)))
        } else {
            Err(Error::OutOfBounds)
        },
        H2Type::MacAddress8(_) => if pos + 8 <= bytes.len() {
            Ok(colon_hex(window_at(bytes, pos, 8)))
        } else {
            Err(Error::OutOfBounds)
        },
        H2Type::H2String(x) => quoted_read(x.renderer, x.read_at(bytes, pos)),
        H2Type::NTString(x) => quoted_read(x.renderer, x.read_at(bytes, pos)),
        H2Type::LPString(x) => quoted_read(x.renderer, x.read_at(bytes, pos)),
        _ => Err(Error::Unsupported),
    }
}

/// A part's text in a composite's display: `name: text` for a named part.
pub open spec fn labelled(name: Option<Seq<char>>, text: Seq<char>) -> Seq<char> {
    match name {
        Some(n) => n + ": "@ + text,
        None => text,
    }
}

/// Texts joined by `, `.
pub open spec fn joined(ts: Seq<Seq<char>>) -> Seq<char>
    decreases ts.len(),
{
    if ts.len() == 0 {
        Seq::empty()
    } else if ts.len() == 1 {
        ts[0]
    } else {
        joined(ts.drop_last()) + ", "@ + ts.last()
    }
}

/// What a type displays at a position, following references at most
/// `depth` deep: a struct as `{ name: text, ... }`, an array as
/// `[ text, ... ]`, each part displayed where its range starts.
pub open spec fn display_of(t: H2Type, data: Data, bytes: Seq<u8>, pos: nat, depth: nat) -> Result<Seq<char>, Error>
    decreases depth, t, 1nat, 0nat,
{
    match t {
        H2Type::NamedReference(n) => if depth == 0 {
            Err(Error::ReferenceCycle)
        } else {
            match named_type(data, n@) {
                Err(e) => Err(e),
                Ok(u) => display_of(u, data, bytes, pos, (depth - 1) as nat),
            }
        },
        H2Type::H2Struct(_) => match spans_of(t, data, bytes, pos, depth, 0) {
            Err(e) => Err(e),
            Ok(spans) => match texts_of(t, data, bytes, spans, depth, 0) {
                Err(e) => Err(e),
                Ok(ts) => Ok("{ "@ + joined(ts) + " }"@),
            },
        },
        H2Type::H2Array(_) => match spans_of(t, data, bytes, pos, depth, 0) {
            Err(e) => Err(e),
            Ok(spans) => match texts_of(t, data, bytes, spans, depth, 0) {
                Err(e) => Err(e),
                Ok(ts) => Ok("[ "@ + joined(ts) + " ]"@),
            },
        },
        _ => own_display(t, data, bytes, pos),
    }
}

/// The texts of a type's parts from the `i`-th on, each displayed where its
/// range starts.
pub open spec fn texts_of(t: H2Type, data: Data, bytes: Seq<u8>, spans: Seq<(nat, nat)>, depth: nat, i: nat) -> Result<Seq<Seq<char>>, Error>
    decreases depth, t, 0nat, parts(t).len() - i,
{
    if i >= parts(t).len() || i >= spans.len() {
        Ok(Seq::empty())
    } else {
        proof {
            lemma_part_smaller(t, i as int);
        }
        match display_of(parts(t)[i as int].1, data, bytes, spans[i as int].0, depth) {
            Err(e) => Err(e),
            Ok(d) => match texts_of(t, data, bytes, spans, depth, i + 1) {
                Err(e) => Err(e),
                Ok(rest) => Ok(seq![labelled(parts(t)[i as int].0, d)] + rest),
            },
        }
    }
}

/// Texts found so far, followed by those still to find.
pub open spec fn prepend_texts(acc: Seq<Seq<char>>, r: Result<Seq<Seq<char>>, Error>) -> Result<Seq<Seq<char>>, Error> {
    match r {
        Err(e) => Err(e),
        Ok(rest) => Ok(acc + rest),
    }
}

/// What a type of no parts displays at the context.
fn own_display_in(t: &H2Type, data: &Data, context: Context) -> (r: Result<String, Error>)
    requires
        data.wf(),
    ensures
        text_of(r) == own_display(*t, *data, context.bytes(), context.pos()),
{
    match t {
        H2Type::Rgb(x) => x.to_display(context),
        H2Type::H2Enum(x) => x.to_display(context, data),
        H2Type::H2Bitmask(x) => x.to_display(context, data),
        H2Type::H2UUID(x) => x.to_display(context),
        H2Type::H2Blob(x) => Ok(x.to_display()),
        H2Type::H2Character(x) => x.to_display(context),
        H2Type::H2Integer(x) => x.to_display(context),
        H2Type::IPv4(x) => x.to_display(context),
        H2Type::IPv6(x) => x.to_display(context),
        H2Type::MacAddress(x) => x.to_display(context),
        H2Type::MacAddress8(x) => x.to_display(context),
        H2Type::H2String(x) => x.to_display(context),
        H2Type::NTString(x) => x.to_display(context),
        H2Type::LPString(x) => x.to_display(context),
        _ => Err(Error::Unsupported),
    }
}

/// What a type displays at the context (see [`display_of`]).
fn display_in(t: &H2Type, data: &Data, context: Context, depth: usize) -> (r: Result<String, Error>)
    requires
        data.wf(),
    ensures
        text_of(r) == display_of(*t, *data, context.bytes(), context.pos(), depth as nat),
    decreases depth, *t, 1nat, 0nat,
{
    match t {
        H2Type::NamedReference(n) => {
            if depth == 0 {
                return Err(Error::ReferenceCycle);
            }
            match named(data, n) {
                Err(e) => Err(e),
                Ok(u) => display_in(u, data, context, depth - 1),
            }
        },
        H2Type::H2Struct(_) | H2Type::H2Array(_) => {
            let spans = match spans_in(t, data, context, depth) {
                Ok(s) => s,
                Err(e) => return Err(e),
            };
            let texts = match texts_in(t, data, context, &spans, depth) {
                Ok(ts) => ts,
                Err(e) => return Err(e),
            };
            let is_struct = match t {
                H2Type::H2Struct(_) => true,
                _ => false,
            };
            let mut out = if is_struct {
                String::from_str("{ ")
            } else {
                String::from_str("[ ")
            };
            proof {
                reveal_strlit("{ ");
                reveal_strlit("[ ");
                reveal_strlit(" }");
                reveal_strlit(" ]");
                reveal_strlit(", ");
            }
            let ghost start = out@;
            let mut i: usize = 0;
            while i < texts.len()
                invariant
                    i <= texts@.len(),
                    out@ == start + joined(texts@.map_values(|s: String| s@).take(i as int)),
                decreases texts@.len() - i,
            {
                let ghost tv = texts@.map_values(|s: String| s@);
                assert(tv.take(i + 1).drop_last() =~= tv.take(i as int));
                if i > 0 {
                    out.append(", ");
                }
                out.append(texts[i].as_str());
                i = i + 1;
            }
            assert(texts@.map_values(|s: String| s@).take(texts@.len() as int) =~= texts@.map_values(
                |s: String| s@,
            ));
            if is_struct {
                out.append(" }");
            } else {
                out.append(" ]");
            }
            Ok(out)
        },
        _ => own_display_in(t, data, context),
    }
}

/// The texts of a type's parts at their ranges (see [`texts_of`]).
fn texts_in(t: &H2Type, data: &Data, context: Context, spans: &Vec<(usize, usize)>, depth: usize) -> (r: Result<Vec<String>, Error>)
    requires
        data.wf(),
    ensures
        match r {
            Ok(ts) => texts_of(*t, *data, context.bytes(), spans_view(spans@), depth as nat, 0) == Ok::<
                Seq<Seq<char>>,
                Error,
            >(ts@.map_values(|s: String| s@)),
            Err(e) => texts_of(*t, *data, context.bytes(), spans_view(spans@), depth as nat, 0) == Err::<
                Seq<Seq<char>>,
                Error,
            >(e),
        },
    decreases depth, *t, 0nat, 0nat,
{
    let ghost bytes = context.bytes();
    let ghost sv = spans_view(spans@);
    let n = parts_len(t);
    let mut out: Vec<String> = Vec::new();
    let mut i: usize = 0;
    assert(out@.map_values(|s: String| s@) =~= Seq::<Seq<char>>::empty());
    assert(Seq::<Seq<char>>::empty() + Seq::<Seq<char>>::empty() =~= Seq::<Seq<char>>::empty());
    while i < n && i < spans.len()
        invariant
            n == parts(*t).len(),
            i <= n,
            data.wf(),
            bytes == context.bytes(),
            sv == spans_view(spans@),
            texts_of(*t, *data, bytes, sv, depth as nat, 0) == prepend_texts(
                out@.map_values(|s: String| s@),
                texts_of(*t, *data, bytes, sv, depth as nat, i as nat),
            ),
        decreases n - i,
    {
        let (part, name) = part_at(t, i);
        proof {
            lemma_part_smaller(*t, i as int);
        }
        let d = match display_in(part, data, context.at(spans[i].0), depth) {
            Ok(d) => d,
            Err(e) => {
                assert(texts_of(*t, *data, bytes, sv, depth as nat, i as nat) == Err::<Seq<Seq<char>>, Error>(e));
                return Err(e);
            },
        };
        let text = match name {
            Some(nm) => {
                let mut s = nm.clone();
                s.append(": ");
                s.append(d.as_str());
                proof {
                    reveal_strlit(": ");
                }
                s
            },
            None => d,
        };
        let ghost next = texts_of(*t, *data, bytes, sv, depth as nat, (i + 1) as nat);
        let ghost prev = out@.map_values(|s: String| s@);
        assert(texts_of(*t, *data, bytes, sv, depth as nat, i as nat) == prepend_texts(seq![text@], next));
        out.push(text);
        i = i + 1;
        proof {
            assert(out@.map_values(|s: String| s@) =~= prev + seq![text@]);
            match next {
                Err(e) => {
                    assert(prepend_texts(prev, prepend_texts(seq![text@], next)) == Err::<Seq<Seq<char>>, Error>(e));
                },
                Ok(rest) => {
                    assert(out@.map_values(|s: String| s@) + rest =~= prev + (seq![text@] + rest));
                },
            }
        }
    }
    assert(texts_of(*t, *data, bytes, sv, depth as nat, i as nat) == Ok::<Seq<Seq<char>>, Error>(Seq::empty()));
    assert(out@.map_values(|s: String| s@) + Seq::<Seq<char>>::empty() =~= out@.map_values(|s: String| s@));
    Ok(out)
}

/// Following references, at most `depth` deep, to the type they name.
pub open spec fn target_of(t: H2Type, data: Data, depth: nat) -> Result<H2Type, Error>
    decreases depth,
{
    match t {
        H2Type::NamedReference(n) => if depth == 0 {
            Err(Error::ReferenceCycle)
        } else {
            match named_type(data, n@) {
                Err(e) => Err(e),
                Ok(u) => target_of(u, data, (depth - 1) as nat),
            }
        },
        _ => Ok(t),
    }
}

/// The number of named types.
pub(crate) fn depth_of(data: &Data) -> (r: usize)
    requires
        data.wf(),
    ensures
        r == reference_depth(*data),
{
    data.types.len(None)
}

/// A range as the specification gives it.
pub open spec fn range_outcome(r: Result<Range<usize>, Error>) -> Result<(nat, nat), Error> {
    match r {
        Ok(range) => Ok((range.start as nat, range.end as nat)),
        Err(e) => Err(e),
    }
}

/// The unpadded range of a type at a position.
pub open spec fn base_span(t: H2Type, data: Data, bytes: Seq<u8>, pos: nat) -> Result<(nat, nat), Error> {
    match size_of(t, data, bytes, pos, reference_depth(data)) {
        Err(e) => Err(e),
        Ok(size) => if pos + size > usize::MAX {
            Err(Error::Overflow)
        } else {
            Ok((pos, pos + size))
        },
    }
}

impl H2Type {
    /// The type that this one stands for: itself, or for a reference, the
    /// type it names (in the unnamed namespace of the data's types), followed
    /// until a type that is no reference. Fails with [`Error::NotFound`] for
    /// a name with no type, and with [`Error::ReferenceCycle`] for names that
    /// lead back to themselves.
    pub fn as_trait<'a>(&'a self, data: &'a Data) -> (r: Result<&'a H2Type, Error>)
        ensures
            match target_of(*self, *data, reference_depth(*data)) {
                Ok(u) => r is Ok && *r->Ok_0 == u,
                Err(e) => r == Err::<&H2Type, Error>(e),
            },
    {
        proof {
            use_type_invariant(&data.constants);
            use_type_invariant(&data.enums);
            use_type_invariant(&data.bitmasks);
            use_type_invariant(&data.types);
        }
        let depth = depth_of(data);
        let mut current: &H2Type = self;
        let mut left: usize = depth;
        loop
            invariant
                data.wf(),
                left <= depth,
                depth == reference_depth(*data),
                target_of(*self, *data, depth as nat) == target_of(*current, *data, left as nat),
            decreases left,
        {
            match current {
                H2Type::NamedReference(n) => {
                    if left == 0 {
                        return Err(Error::ReferenceCycle);
                    }
                    match named(data, n) {
                        Err(e) => return Err(e),
                        Ok(u) => {
                            current = u;
                            left = left - 1;
                        },
                    }
                },
                _ => return Ok(current),
            }
        }
    }

    /// The size in bytes of the type at the context: for a struct or an
    /// array, from the start of its first part to the end of the padded
    /// range of its last (see [`size_of`]).
    pub fn base_size(&self, context: Context, data: &Data) -> (r: Result<usize, Error>)
        ensures
            size_outcome(r) == size_of(*self, *data, context.bytes(), context.pos(), reference_depth(*data)),
    {
        proof {
            use_type_invariant(&data.constants);
            use_type_invariant(&data.enums);
            use_type_invariant(&data.bitmasks);
            use_type_invariant(&data.types);
        }
        size_in(self, data, context, depth_of(data))
    }

    /// The range of the type at the context, without padding.
    pub fn base_range(&self, context: Context, data: &Data) -> (r: Result<Range<usize>, Error>)
        ensures
            range_outcome(r) == base_span(*self, *data, context.bytes(), context.pos()),
    {
        proof {
            use_type_invariant(&data.constants);
            use_type_invariant(&data.enums);
            use_type_invariant(&data.bitmasks);
            use_type_invariant(&data.types);
        }
        let size = match self.base_size(context, data) {
            Ok(s) => s,
            Err(e) => return Err(e),
        };
        let start = context.position();
        if size > usize::MAX - start {
            return Err(Error::Overflow);
        }
        Ok(start..(start + size))
    }

    /// The range of the type at the context, padded as its alignment asks
    /// (see [`span_of`]).
    pub fn aligned_range(&self, context: Context, data: &Data) -> (r: Result<Range<usize>, Error>)
        ensures
            range_outcome(r) == span_of(*self, *data, context.bytes(), context.pos(), reference_depth(*data)),
    {
        proof {
            use_type_invariant(&data.constants);
            use_type_invariant(&data.enums);
            use_type_invariant(&data.bitmasks);
            use_type_invariant(&data.types);
        }
        match span_in(self, data, context, depth_of(data)) {
            Ok((s, e)) => Ok(s..e),
            Err(e) => Err(e),
        }
    }

    /// The size in bytes of the type at the context, with padding.
    pub fn aligned_size(&self, context: Context, data: &Data) -> (r: Result<usize, Error>)
        ensures
            size_outcome(r) == match span_of(*self, *data, context.bytes(), context.pos(), reference_depth(*data)) {
                Ok(span) => Ok::<nat, Error>((span.1 - span.0) as nat),
                Err(e) => Err(e),
            },
    {
        proof {
            use_type_invariant(&data.constants);
            use_type_invariant(&data.enums);
            use_type_invariant(&data.bitmasks);
            use_type_invariant(&data.types);
        }
        proof {
            lemma_span_ordered(*self, *data, context.bytes(), context.pos(), reference_depth(*data));
        }
        match span_in(self, data, context, depth_of(data)) {
            Ok((s, e)) => Ok(e - s),
            Err(e) => Err(e),
        }
    }

    /// The padded ranges of the type's parts at the context, with their
    /// names: a struct's fields, an array's elements (see [`spans_of`]).
    pub fn children_with_range(&self, context: Context, data: &Data) -> (r: Result<Vec<(Range<usize>, Option<String>)>, Error>)
        ensures
            match spans_of(*self, *data, context.bytes(), context.pos(), reference_depth(*data), 0) {
                Ok(spans) => r is Ok && r->Ok_0@.len() == spans.len() && forall|i: int|
                    0 <= i < spans.len() ==> {
                        let (range, name) = #[trigger] r->Ok_0@[i];
                        &&& (range.start as nat, range.end as nat) == spans[i]
                        &&& i < parts(*self).len()
                        &&& match name {
                            Some(n) => parts(*self)[i].0 == Some(n@),
                            None => parts(*self)[i].0 is None,
                        }
                    },
                Err(e) => r == Err::<Vec<(Range<usize>, Option<String>)>, Error>(e),
            },
    {
        proof {
            use_type_invariant(&data.constants);
            use_type_invariant(&data.enums);
            use_type_invariant(&data.bitmasks);
            use_type_invariant(&data.types);
        }
        let spans = match spans_in(self, data, context, depth_of(data)) {
            Ok(s) => s,
            Err(e) => return Err(e),
        };
        proof {
            lemma_spans_len(*self, *data, context.bytes(), context.pos(), reference_depth(*data), 0);
        }
        let mut out: Vec<(Range<usize>, Option<String>)> = Vec::new();
        let mut i: usize = 0;
        while i < spans.len()
            invariant
                i <= spans@.len(),
                spans@.len() <= parts(*self).len(),
                out@.len() == i,
                forall|j: int|
                    0 <= j < i ==> {
                        let (range, name) = #[trigger] out@[j];
                        &&& range.start == spans@[j].0 && range.end == spans@[j].1
                        &&& match name {
                            Some(n) => parts(*self)[j].0 == Some(n@),
                            None => parts(*self)[j].0 is None,
                        }
                    },
            decreases spans@.len() - i,
        {
            let (_, name) = part_at(self, i);
            let name: Option<String> = match name {
                Some(n) => Some(n.clone()),
                None => None,
            };
            out.push((spans[i].0..spans[i].1, name));
            i = i + 1;
        }
        Ok(out)
    }

    /// What the type displays at the context (see [`display_of`]).
    pub fn to_display(&self, context: Context, data: &Data) -> (r: Result<String, Error>)
        ensures
            text_of(r) == display_of(*self, *data, context.bytes(), context.pos(), reference_depth(*data)),
    {
        proof {
            use_type_invariant(&data.constants);
            use_type_invariant(&data.enums);
            use_type_invariant(&data.bitmasks);
            use_type_invariant(&data.types);
        }
        display_in(self, data, context, depth_of(data))
    }
}

/// The parts of a type lie one after another: the first starts where the
/// type does, each of the others where the one before it ends, and none ends
/// before it starts.
pub proof fn lemma_parts_consecutive(t: H2Type, data: Data, bytes: Seq<u8>, pos: nat, depth: nat, i: nat)
    ensures
        spans_of(t, data, bytes, pos, depth, i) matches Ok(spans) ==> {
            &&& spans.len() > 0 ==> spans[0].0 == pos
            &&& forall|k: int| 0 <= k < spans.len() ==> (#[trigger] spans[k]).0 <= spans[k].1
            &&& forall|k: int| 0 <= k < spans.len() - 1 ==> (#[trigger] spans[k + 1]).0 == spans[k].1
        },
    decreases parts(t).len() - i,
{
    if i < parts(t).len() {
        lemma_span_ordered(parts(t)[i as int].1, data, bytes, pos, depth);
        match span_of(parts(t)[i as int].1, data, bytes, pos, depth) {
            Err(_) => {},
            Ok(r) => {
                lemma_parts_consecutive(t, data, bytes, r.1, depth, i + 1);
                match spans_of(t, data, bytes, r.1, depth, i + 1) {
                    Err(_) => {},
                    Ok(rest) => {
                        let spans = seq![r] + rest;
                        assert forall|k: int| 0 <= k < spans.len() implies (#[trigger] spans[k]).0 <= spans[k].1 by {
                            if k > 0 {
                                assert(spans[k] == rest[k - 1]);
                            }
                        }
                        assert forall|k: int| 0 <= k < spans.len() - 1 implies (#[trigger] spans[k + 1]).0 == spans[k].1 by {
                            assert(spans[k + 1] == rest[k]);
                            if k > 0 {
                                let kk = k - 1;
                                assert(spans[k] == rest[kk]);
                                assert(rest[kk + 1].0 == rest[kk].1);
                            }
                        }
                    },
                }
            },
        }
    }
}

/// A type's padded range starts where its unpadded range does and ends no
/// earlier.
pub proof fn lemma_aligned_covers_base(t: H2Type, data: Data, bytes: Seq<u8>, pos: nat, depth: nat)
    ensures
        span_of(t, data, bytes, pos, depth) matches Ok(r) ==> (r.0 == pos && (size_of(t, data, bytes, pos, depth) matches Ok(
            size,
        ) && r.1 >= pos + size)),
    decreases depth,
{
    match t {
        H2Type::NamedReference(n) => {
            if depth > 0 {
                match named_type(data, n@) {
                    Err(_) => {},
                    Ok(u) => lemma_aligned_covers_base(u, data, bytes, pos, (depth - 1) as nat),
                }
            }
        },
        _ => {
            match size_of(t, data, bytes, pos, depth) {
                Err(_) => {},
                Ok(size) => lemma_aligned_span_ordered(t.spec_alignment(), pos, size),
            }
        },
    }
}

/// There are no more ranges than parts.
pub proof fn lemma_spans_len(t: H2Type, data: Data, bytes: Seq<u8>, pos: nat, depth: nat, i: nat)
    ensures
        spans_of(t, data, bytes, pos, depth, i) matches Ok(spans) ==> i + spans.len() <= parts(t).len()
            || (i >= parts(t).len() && spans.len() == 0),
    decreases parts(t).len() - i,
{
    if i < parts(t).len() {
        match span_of(parts(t)[i as int].1, data, bytes, pos, depth) {
            Err(_) => {},
            Ok(r) => {
                lemma_spans_len(t, data, bytes, r.1, depth, i + 1);
            },
        }
    }
}

} // verus!
