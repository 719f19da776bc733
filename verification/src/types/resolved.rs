use vstd::prelude::*;

use std::ops::Range;

use crate::data::store::Data;
use crate::error::Error;
use crate::number::character::Character;
use crate::number::context::Context;
use crate::number::integer::Integer;
use crate::types::h2type::H2Type;
use crate::types::layout::{
    base_span, depth_of, display_of, named, named_type, part_at, parts, reference_depth, span_of,
    spans_of, lemma_aligned_covers_base, lemma_part_smaller, lemma_parts_consecutive, lemma_spans_len,
};
use crate::types::strings::{rendered_read, rest_at};

verus! {

/// Following references from a type, at most `depth` deep: the type that is
/// reached, which is no reference, and the depth that is left.
pub open spec fn follow(t: H2Type, data: Data, depth: nat) -> Result<(H2Type, nat), Error>
    decreases depth,
{
    match t {
        H2Type::NamedReference(n) => if depth == 0 {
            Err(Error::ReferenceCycle)
        } else {
            match named_type(data, n@) {
                Err(e) => Err(e),
                Ok(u) => follow(u, data, (depth - 1) as nat),
            }
        },
        _ => Ok((t, depth)),
    }
}

/// Following references uses up depth, and a type that is no reference is
/// reached without using any.
pub proof fn lemma_follow(t: H2Type, data: Data, depth: nat)
    ensures
        follow(t, data, depth) matches Ok((u, left)) ==> {
            &&& left <= depth
            &&& left == depth ==> u == t
            &&& !(u is NamedReference)
        },
    decreases depth,
{
    if let H2Type::NamedReference(n) = t {
        if depth > 0 {
            if let Ok(u) = named_type(data, n@) {
                lemma_follow(u, data, (depth - 1) as nat);
            }
        }
    }
}

/// The text that a string type reads at a position, rendered; `None` for
/// other types and where the read fails.
pub open spec fn string_of(t: H2Type, bytes: Seq<u8>, pos: nat) -> Option<Seq<char>> {
    let read = match t {
        H2Type::H2String(s) => rendered_read(s.renderer, s.read_at(bytes, pos)),
        H2Type::NTString(s) => rendered_read(s.renderer, s.read_at(bytes, pos)),
        H2Type::LPString(s) => rendered_read(s.renderer, s.read_at(bytes, pos)),
        _ => Err(Error::Unsupported),
    };
    match read {
        Ok(text) => Some(text),
        Err(_) => None,
    }
}

/// The integer that an integer, enumeration or bitmask type reads at a
/// position; `None` for other types and where too few bytes are left.
pub open spec fn integer_of(t: H2Type, bytes: Seq<u8>, pos: nat) -> Option<Integer> {
    let reader = match t {
        H2Type::H2Integer(i) => Some(i.reader),
        H2Type::H2Enum(e) => Some(e.reader),
        H2Type::H2Bitmask(b) => Some(b.reader),
        _ => None,
    };
    match reader {
        Some(rd) => if pos + rd.spec_size() <= bytes.len() {
            Some(rd.decode(bytes.subrange(pos as int, (pos + rd.spec_size()) as int)))
        } else {
            None
        },
        None => None,
    }
}

/// The character that a character type reads at a position; `None` for
/// other types and where no character can be read.
pub open spec fn character_at(t: H2Type, bytes: Seq<u8>, pos: nat) -> Option<Character> {
    match t {
        H2Type::H2Character(c) => match c.reader.read_result(rest_at(bytes, pos)) {
            Ok(ch) => Some(ch),
            Err(_) => None,
        },
        _ => None,
    }
}

/// An optional string as text.
pub open spec fn text_view(o: Option<String>) -> Option<Seq<char>> {
    match o {
        Some(s) => Some(s@),
        None => None,
    }
}

/// A range as a pair of numbers.
pub open spec fn range_view(r: Range<usize>) -> (nat, nat) {
    (r.start as nat, r.end as nat)
}

/// A type applied to data at a position, with everything about it worked
/// out: its ranges, its name in the type that holds it, what it displays,
/// its parts (each resolved in turn) and the values it reads.
pub struct ResolvedType {
    pub base_range: Range<usize>,
    pub aligned_range: Range<usize>,
    pub field_name: Option<String>,
    pub display: String,
    pub children: Vec<ResolvedType>,
    /// Values elsewhere that this one refers to, with their types; none of
    /// the types here refers to another value.
    pub related: Vec<(usize, H2Type)>,
    pub as_string: Option<String>,
    pub as_integer: Option<Integer>,
    pub as_character: Option<Character>,
}

/// The first failure in resolving a type at a position, if there is one:
/// following its references, its ranges, its display, the ranges of its
/// parts, then each part resolved in turn. References are followed at most
/// `depth` deep along any chain of parts; the ranges and the display are
/// those of the public functions.
pub open spec fn resolve_error(t: H2Type, data: Data, bytes: Seq<u8>, pos: nat, depth: nat) -> Option<Error>
    decreases depth, t, 1nat, 0nat,
{
    match follow(t, data, depth) {
        Err(e) => Some(e),
        Ok((u, left)) => {
            proof {
                lemma_follow(t, data, depth);
            }
            let rd = reference_depth(data);
            match base_span(u, data, bytes, pos) {
                Err(e) => Some(e),
                Ok(_) => match span_of(u, data, bytes, pos, rd) {
                    Err(e) => Some(e),
                    Ok(_) => match display_of(u, data, bytes, pos, rd) {
                        Err(e) => Some(e),
                        Ok(_) => match spans_of(u, data, bytes, pos, rd, 0) {
                            Err(e) => Some(e),
                            Ok(spans) => children_error(u, data, bytes, spans, left, 0),
                        },
                    },
                },
            }
        },
    }
}

/// The first failure in resolving the parts of a type from the `i`-th on,
/// each at the start of its range.
pub open spec fn children_error(t: H2Type, data: Data, bytes: Seq<u8>, spans: Seq<(nat, nat)>, depth: nat, i: nat) -> Option<Error>
    decreases depth, t, 0nat, parts(t).len() - i,
{
    if i >= parts(t).len() || i >= spans.len() {
        None
    } else {
        proof {
            lemma_part_smaller(t, i as int);
        }
        match resolve_error(parts(t)[i as int].1, data, bytes, spans[i as int].0, depth) {
            Some(e) => Some(e),
            None => children_error(t, data, bytes, spans, depth, i + 1),
        }
    }
}

/// Whether `r` is the type resolved at a position under the given name:
/// its ranges and display are those of the type that its references lead
/// to, it refers to nothing, its values are those that type reads, and its
/// children are that type's parts, each resolved at the start of its range.
pub open spec fn resolves(r: ResolvedType, t: H2Type, data: Data, bytes: Seq<u8>, pos: nat, name: Option<Seq<char>>, depth: nat) -> bool
    decreases depth, t, 1nat, 0nat,
{
    match follow(t, data, depth) {
        Err(_) => false,
        Ok((u, left)) => {
            proof {
                lemma_follow(t, data, depth);
            }
            let rd = reference_depth(data);
            &&& base_span(u, data, bytes, pos) == Ok::<(nat, nat), Error>(range_view(r.base_range))
            &&& span_of(u, data, bytes, pos, rd) == Ok::<(nat, nat), Error>(range_view(r.aligned_range))
            &&& display_of(u, data, bytes, pos, rd) == Ok::<Seq<char>, Error>(r.display@)
            &&& text_view(r.field_name) == name
            &&& r.related@.len() == 0
            &&& text_view(r.as_string) == string_of(u, bytes, pos)
            &&& r.as_integer == integer_of(u, bytes, pos)
            &&& r.as_character == character_at(u, bytes, pos)
            &&& match spans_of(u, data, bytes, pos, rd, 0) {
                Ok(spans) => children_resolve(r.children@, u, data, bytes, spans, left, 0),
                Err(_) => false,
            }
        },
    }
}

/// Whether `rs` are the parts of a type from the `i`-th on, resolved each
/// at the start of its range.
pub open spec fn children_resolve(rs: Seq<ResolvedType>, t: H2Type, data: Data, bytes: Seq<u8>, spans: Seq<(nat, nat)>, depth: nat, i: nat) -> bool
    decreases depth, t, 0nat, parts(t).len() - i,
{
    if i >= parts(t).len() || i >= spans.len() {
        rs.len() == 0
    } else {
        proof {
            lemma_part_smaller(t, i as int);
        }
        &&& rs.len() > 0
        &&& resolves(rs[0], parts(t)[i as int].1, data, bytes, spans[i as int].0, parts(t)[i as int].0, depth)
        &&& children_resolve(rs.drop_first(), t, data, bytes, spans, depth, i + 1)
    }
}

/// Follow references from a type, at most `depth` deep (see [`follow`]).
fn follow_in<'a>(t: &'a H2Type, data: &'a Data, depth: usize) -> (r: Result<(&'a H2Type, usize), Error>)
    requires
        data.wf(),
    ensures
        match follow(*t, *data, depth as nat) {
            Ok((u, left)) => r is Ok && *r->Ok_0.0 == u && r->Ok_0.1 == left,
            Err(e) => r == Err::<(&H2Type, usize), Error>(e),
        },
{
    let mut current: &H2Type = t;
    let mut left: usize = depth;
    loop
        invariant
            data.wf(),
            follow(*t, *data, depth as nat) == follow(*current, *data, left as nat),
        decreases left,
    {
        match current {
            H2Type::NamedReference(n) => {
                if left == 0 {
                    return Err(Error::ReferenceCycle);
                }
                match named(data, n) {
                    Err(e) => return Err(e),
                    Ok(u) => {
                        current = u;
                        left = left - 1;
                    },
                }
            },
            _ => return Ok((current, left)),
        }
    }
}

/// The text a string type reads at the context (see [`string_of`]).
fn string_in(t: &H2Type, context: Context) -> (r: Option<String>)
    ensures
        text_view(r) == string_of(*t, context.bytes(), context.pos()),
{
    let read = match t {
        H2Type::H2String(s) => s.to_string(context),
        H2Type::NTString(s) => s.to_string(context),
        H2Type::LPString(s) => s.to_string(context),
        _ => return None,
    };
    match read {
        Ok(text) => Some(text),
        Err(_) => None,
    }
}

/// The integer a type reads at the context (see [`integer_of`]).
fn integer_in(t: &H2Type, context: Context) -> (r: Option<Integer>)
    ensures
        r == integer_of(*t, context.bytes(), context.pos()),
{
    let read = match t {
        H2Type::H2Integer(i) => i.to_integer(context),
        H2Type::H2Enum(e) => e.to_integer(context),
        H2Type::H2Bitmask(b) => b.to_integer(context),
        _ => return None,
    };
    match read {
        Ok(i) => Some(i),
        Err(_) => None,
    }
}

/// The character a type reads at the context (see [`character_at`]).
fn character_in(t: &H2Type, context: Context) -> (r: Option<Character>)
    ensures
        r == character_at(*t, context.bytes(), context.pos()),
{
    match t {
        H2Type::H2Character(c) => match c.to_character(context) {
            Ok(ch) => Some(ch),
            Err(_) => None,
        },
        _ => None,
    }
}

/// Resolve a type at the context under a name, following references at
/// most `depth` deep along any chain of parts (see [`resolves`]).
fn resolve_in(t: &H2Type, data: &Data, context: Context, name: Option<String>, depth: usize) -> (r: Result<ResolvedType, Error>)
    requires
        data.wf(),
    ensures
        match resolve_error(*t, *data, context.bytes(), context.pos(), depth as nat) {
            Some(e) => r == Err::<ResolvedType, Error>(e),
            None => r is Ok && resolves(r->Ok_0, *t, *data, context.bytes(), context.pos(), text_view(name), depth as nat),
        },
    decreases depth, *t, 1nat, 0nat,
{
    let (u, left) = match follow_in(t, data, depth) {
        Ok(found) => found,
        Err(e) => return Err(e),
    };
    proof {
        lemma_follow(*t, *data, depth as nat);
    }
    let base_range = match u.base_range(context, data) {
        Ok(range) => range,
        Err(e) => return Err(e),
    };
    let aligned_range = match u.aligned_range(context, data) {
        Ok(range) => range,
        Err(e) => return Err(e),
    };
    let display = match u.to_display(context, data) {
        Ok(text) => text,
        Err(e) => return Err(e),
    };
    let ranges = match u.children_with_range(context, data) {
        Ok(ranges) => ranges,
        Err(e) => return Err(e),
    };
    let ghost spans = spans_of(*u, *data, context.bytes(), context.pos(), reference_depth(*data), 0)->Ok_0;
    proof {
        lemma_spans_len(*u, *data, context.bytes(), context.pos(), reference_depth(*data), 0);
    }
    let children = match resolve_children(u, data, context, &ranges, Ghost(spans), left, 0) {
        Ok(children) => children,
        Err(e) => return Err(e),
    };
    Ok(ResolvedType {
        base_range,
        aligned_range,
        field_name: name,
        display,
        children,
        related: Vec::new(),
        as_string: string_in(u, context),
        as_integer: integer_in(u, context),
        as_character: character_in(u, context),
    })
}

/// Resolve the parts of a type from the `i`-th on, each at the start of its
/// range and under its name.
fn resolve_children(
    t: &H2Type,
    data: &Data,
    context: Context,
    ranges: &Vec<(Range<usize>, Option<String>)>,
    Ghost(spans): Ghost<Seq<(nat, nat)>>,
    depth: usize,
    i: usize,
) -> (r: Result<Vec<ResolvedType>, Error>)
    requires
        data.wf(),
        i <= ranges@.len(),
        ranges@.len() == spans.len(),
        spans.len() <= parts(*t).len(),
        forall|j: int|
            0 <= j < spans.len() ==> range_view(#[trigger] ranges@[j].0) == spans[j] && text_view(
                ranges@[j].1,
            ) == parts(*t)[j].0,
    ensures
        match children_error(*t, *data, context.bytes(), spans, depth as nat, i as nat) {
            Some(e) => r == Err::<Vec<ResolvedType>, Error>(e),
            None => r is Ok && children_resolve(r->Ok_0@, *t, *data, context.bytes(), spans, depth as nat, i as nat),
        },
    decreases depth, *t, 0nat, parts(*t).len() - i,
{
    if i >= ranges.len() {
        return Ok(Vec::new());
    }
    let (part, _) = part_at(t, i);
    proof {
        lemma_part_smaller(*t, i as int);
    }
    let name: Option<String> = match &ranges[i].1 {
        Some(n) => Some(n.clone()),
        None => None,
    };
    let child = match resolve_in(part, data, context.at(ranges[i].0.start), name, depth) {
        Ok(child) => child,
        Err(e) => return Err(e),
    };
    let mut rest = match resolve_children(t, data, context, ranges, Ghost(spans), depth, i + 1) {
        Ok(rest) => rest,
        Err(e) => return Err(e),
    };
    let ghost tail = rest@;
    rest.insert(0, child);
    proof {
        assert(rest@.drop_first() =~= tail);
    }
    Ok(rest)
}

impl H2Type {
    /// The type resolved at the context: its ranges, display, parts and
    /// values all worked out, under the given field name (see
    /// [`resolves`]). Fails with the first error met on the way (see
    /// [`resolve_error`]).
    pub fn resolve(&self, context: Context, field_name_override: Option<String>, data: &Data) -> (r: Result<ResolvedType, Error>)
        ensures
            match resolve_error(*self, *data, context.bytes(), context.pos(), reference_depth(*data)) {
                Some(e) => r == Err::<ResolvedType, Error>(e),
                None => r is Ok && resolves(
                    r->Ok_0,
                    *self,
                    *data,
                    context.bytes(),
                    context.pos(),
                    text_view(field_name_override),
                    reference_depth(*data),
                ),
            },
    {
        proof {
            use_type_invariant(&data.constants);
            use_type_invariant(&data.enums);
            use_type_invariant(&data.bitmasks);
            use_type_invariant(&data.types);
        }
        resolve_in(self, data, context, field_name_override, depth_of(data))
    }
}

impl ResolvedType {
    /// The size of the range without padding.
    pub fn base_size(&self) -> (r: usize)
        requires
            self.base_range.start <= self.base_range.end,
        ensures
            r == self.base_range.end - self.base_range.start,
    {
        self.base_range.end - self.base_range.start
    }

    /// The size of the padded range.
    pub fn aligned_size(&self) -> (r: usize)
        requires
            self.aligned_range.start <= self.aligned_range.end,
        ensures
            r == self.aligned_range.end - self.aligned_range.start,
    {
        self.aligned_range.end - self.aligned_range.start
    }
}

/// A resolved value starts at the position it was resolved at, and its
/// padded range starts with its unpadded range and ends no earlier.
pub proof fn lemma_resolved_ranges(r: ResolvedType, t: H2Type, data: Data, bytes: Seq<u8>, pos: nat, name: Option<Seq<char>>, depth: nat)
    requires
        resolves(r, t, data, bytes, pos, name, depth),
    ensures
        r.base_range.start == pos,
        r.aligned_range.start == pos,
        r.base_range.start <= r.base_range.end <= r.aligned_range.end,
{
    lemma_follow(t, data, depth);
    let u = follow(t, data, depth)->Ok_0.0;
    lemma_aligned_covers_base(u, data, bytes, pos, reference_depth(data));
}

/// Resolved parts from the `i`-th on each start where their range does.
proof fn lemma_children_starts(rs: Seq<ResolvedType>, t: H2Type, data: Data, bytes: Seq<u8>, spans: Seq<(nat, nat)>, depth: nat, i: nat)
    requires
        children_resolve(rs, t, data, bytes, spans, depth, i),
    ensures
        forall|k: int|
            0 <= k < rs.len() ==> i + k < spans.len() && (#[trigger] rs[k]).base_range.start == spans[i + k].0,
    decreases parts(t).len() - i,
{
    if i < parts(t).len() && i < spans.len() {
        lemma_children_starts(rs.drop_first(), t, data, bytes, spans, depth, i + 1);
        lemma_resolved_ranges(rs[0], parts(t)[i as int].1, data, bytes, spans[i as int].0, parts(t)[i as int].0, depth);
        assert forall|k: int| 0 <= k < rs.len() implies i + k < spans.len() && (#[trigger] rs[k]).base_range.start
            == spans[i + k].0 by {
            if k > 0 {
                assert(rs[k] == rs.drop_first()[k - 1]);
            }
        }
    }
}

/// The parts of a resolved value come in order: the first starts where the
/// value does, and each of the others starts no earlier than the one before
/// it, where the padded range of that one's type ends.
pub proof fn lemma_resolved_children_ordered(r: ResolvedType, t: H2Type, data: Data, bytes: Seq<u8>, pos: nat, name: Option<Seq<char>>, depth: nat)
    requires
        resolves(r, t, data, bytes, pos, name, depth),
    ensures
        r.children@.len() > 0 ==> r.children@[0].base_range.start == r.base_range.start,
        forall|k: int|
            0 <= k < r.children@.len() - 1 ==> (#[trigger] r.children@[k]).base_range.start
                <= r.children@[k + 1].base_range.start,
{
    lemma_follow(t, data, depth);
    lemma_resolved_ranges(r, t, data, bytes, pos, name, depth);
    let (u, left) = follow(t, data, depth)->Ok_0;
    let rd = reference_depth(data);
    let spans = spans_of(u, data, bytes, pos, rd, 0)->Ok_0;
    lemma_parts_consecutive(u, data, bytes, pos, rd, 0);
    lemma_children_starts(r.children@, u, data, bytes, spans, left, 0);
    assert forall|k: int| 0 <= k < r.children@.len() - 1 implies (#[trigger] r.children@[k]).base_range.start
        <= r.children@[k + 1].base_range.start by {
        assert(r.children@[k].base_range.start == spans[k].0);
        assert(r.children@[k + 1].base_range.start == spans[k + 1].0);
        assert(spans[k].0 <= spans[k].1);
    }
}

/// An integer, an enumeration or a bitmask resolved where enough bytes are
/// left has as its integer what its reader makes of the bytes there: the
/// integer that the type's `to_integer` gives at that position. An
/// enumeration or a bitmask is an integer too.
pub proof fn lemma_resolved_integer(r: ResolvedType, t: H2Type, data: Data, bytes: Seq<u8>, pos: nat, name: Option<Seq<char>>, depth: nat)
    requires
        resolves(r, t, data, bytes, pos, name, depth),
    ensures
        t matches H2Type::H2Integer(i) ==> r.as_integer == if pos + i.reader.spec_size() <= bytes.len() {
            Some(i.reader.decode(bytes.subrange(pos as int, (pos + i.reader.spec_size()) as int)))
        } else {
            None
        },
        t matches H2Type::H2Enum(e) ==> r.as_integer == if pos + e.reader.spec_size() <= bytes.len() {
            Some(e.reader.decode(bytes.subrange(pos as int, (pos + e.reader.spec_size()) as int)))
        } else {
            None
        },
        t matches H2Type::H2Bitmask(b) ==> r.as_integer == if pos + b.reader.spec_size() <= bytes.len() {
            Some(b.reader.decode(bytes.subrange(pos as int, (pos + b.reader.spec_size()) as int)))
        } else {
            None
        },
{
}

} // verus!
