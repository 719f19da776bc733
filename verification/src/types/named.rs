use vstd::prelude::*;

use vstd::string::StringExecFns;

use crate::data::data_entry::{has_item, item_of, opt_string_text, opt_text, space_of};
use crate::data::h2bitmasks::{
    bit_set, lemma_div_step, lemma_two_to_127, lemma_two_to_monotone, name_at, two_to, Bits,
    H2Bitmasks,
};
use crate::data::store::Data;
use crate::data::traits::Lookupable;
use crate::data::table::{
    lemma_names_of_value_none, lemma_names_of_value_one, lemma_names_of_value_two, same_integer,
    texts,
};
use crate::data::enums::Enums;
use crate::error::Error;
use crate::number::context::Context;
use crate::number::integer::Integer;
use crate::number::integer_reader::IntegerReader;
use crate::number::renderer::IntegerRenderer;
use crate::types::alignment::Alignment;

verus! {

/// What an enumeration's name for a value looks like: `Type::NAME` for one
/// name, `Type::Unknown_` and the fallback text for none, `Type::(ambiguous)`
/// for several.
pub open spec fn enum_text(enum_type: Seq<char>, names: Seq<Seq<char>>, fallback: Seq<char>) -> Seq<char> {
    if names.len() == 0 {
        enum_type + "::Unknown_"@ + fallback
    } else if names.len() == 1 {
        enum_type + "::"@ + names[0]
    } else {
        enum_type + "::(ambiguous)"@
    }
}

/// The value of bit `b` as an integer: a `U32` below bit 32, a `U64` below
/// bit 64, a `U128` above.
pub open spec fn bit_value(b: nat) -> Integer {
    if b < 32 {
        Integer::U32(two_to(b) as u32)
    } else if b < 64 {
        Integer::U64(two_to(b) as u64)
    } else {
        Integer::U128(two_to(b) as u128)
    }
}

/// The labels of bits `from` to 127 of a value of which the lowest `width`
/// bits are read, lowest bit first: a set bit's name; with `show_negative`,
/// `~` and the name of a named bit that is not set; for a set bit with no
/// name, `Unknown_` and the bit's value as the unknown renderer renders it
/// (nothing when there is no unknown renderer).
pub open spec fn bitmask_labels(s: Bits, v: nat, width: nat, unknown: Option<IntegerRenderer>, show_negative: bool, from: nat) -> Seq<Seq<char>>
    decreases 128 - from,
{
    if from >= 128 {
        Seq::empty()
    } else {
        let rest = bitmask_labels(s, v, width, unknown, show_negative, from + 1);
        let on = from < width && bit_set(v, from);
        match name_at(s, from) {
            Some(n) => if on {
                seq![n] + rest
            } else if show_negative {
                seq![seq!['~'] + n] + rest
            } else {
                rest
            },
            None => match unknown {
                Some(r) => if on {
                    seq!["Unknown_"@ + r.rendered(bit_value(from))] + rest
                } else {
                    rest
                },
                None => rest,
            },
        }
    }
}

/// Labels joined by ` | `.
pub open spec fn bar_joined(ts: Seq<Seq<char>>) -> Seq<char>
    decreases ts.len(),
{
    if ts.len() == 0 {
        Seq::empty()
    } else if ts.len() == 1 {
        ts[0]
    } else {
        bar_joined(ts.drop_last()) + " | "@ + ts.last()
    }
}

/// What a bitmask displays: its labels joined by ` | `, or `(n/a)` when
/// there are none.
pub open spec fn bitmask_text(ts: Seq<Seq<char>>) -> Seq<char> {
    if ts.len() == 0 {
        "(n/a)"@
    } else {
        bar_joined(ts)
    }
}

/// The borrowed form of an optional name.
fn opt_str(o: &Option<String>) -> (r: Option<&str>)
    ensures
        opt_text(r) == opt_string_text(*o),
{
    match o {
        Some(s) => Some(s.as_str()),
        None => None,
    }
}

/// An integer displayed by the name an enumeration gives its value.
#[derive(Debug, Clone)]
pub struct H2Enum {
    pub reader: IntegerReader,
    pub fallback_renderer: IntegerRenderer,
    pub enum_type: String,
    pub namespace: Option<String>,
    pub alignment: Option<Alignment>,
}

impl H2Enum {
    /// What [`Self::render`] gives for a value, given the enumerations.
    pub open spec fn rendered(&self, value: Integer, data: Data) -> Result<Seq<char>, Error> {
        match space_of(data.enums@, opt_string_text(self.namespace)) {
            None => Err(Error::NoSuchNamespace),
            Some(items) => match item_of(items, self.enum_type@) {
                None => Err(Error::NotFound),
                Some(e) => Ok(
                    enum_text(self.enum_type@, e.looked_up(value), self.fallback_renderer.rendered(value)),
                ),
            },
        }
    }

    /// Fails with [`Error::NoSuchNamespace`] when the namespace does not
    /// exist, and with [`Error::NotFound`] when it holds no such enumeration.
    pub fn new_aligned(alignment: Option<Alignment>, reader: IntegerReader, fallback_renderer: IntegerRenderer, namespace: Option<&str>, enum_type: &str, data: &Data) -> (r: Result<Self, Error>)
        ensures
            match space_of(data.enums@, opt_text(namespace)) {
                None => r == Err::<Self, Error>(Error::NoSuchNamespace),
                Some(items) => if has_item(items, enum_type@) {
                    r is Ok && r->Ok_0.reader == reader && r->Ok_0.fallback_renderer
                        == fallback_renderer && r->Ok_0.enum_type@ == enum_type@
                        && opt_string_text(r->Ok_0.namespace) == opt_text(namespace)
                        && r->Ok_0.alignment == alignment
                } else {
                    r == Err::<Self, Error>(Error::NotFound)
                },
            },
    {
        proof {
            use_type_invariant(&data.constants);
            use_type_invariant(&data.enums);
            use_type_invariant(&data.bitmasks);
            use_type_invariant(&data.types);
        }
        match data.enums.contains(namespace, enum_type) {
            Err(e) => Err(e),
            Ok(false) => Err(Error::NotFound),
            Ok(true) => {
                let namespace: Option<String> = match namespace {
                    Some(n) => Some(n.to_owned()),
                    None => None,
                };
                Ok(H2Enum { reader, fallback_renderer, enum_type: enum_type.to_owned(), namespace, alignment })
            },
        }
    }

    /// See [`Self::new_aligned`].
    pub fn new(reader: IntegerReader, fallback_renderer: IntegerRenderer, namespace: Option<&str>, enum_type: &str, data: &Data) -> (r: Result<Self, Error>)
        ensures
            match space_of(data.enums@, opt_text(namespace)) {
                None => r == Err::<Self, Error>(Error::NoSuchNamespace),
                Some(items) => if has_item(items, enum_type@) {
                    r is Ok && r->Ok_0.reader == reader && r->Ok_0.fallback_renderer
                        == fallback_renderer && r->Ok_0.enum_type@ == enum_type@
                        && opt_string_text(r->Ok_0.namespace) == opt_text(namespace)
                        && r->Ok_0.alignment is None
                } else {
                    r == Err::<Self, Error>(Error::NotFound)
                },
            },
    {
        proof {
            use_type_invariant(&data.constants);
            use_type_invariant(&data.enums);
            use_type_invariant(&data.bitmasks);
            use_type_invariant(&data.types);
        }
        Self::new_aligned(None, reader, fallback_renderer, namespace, enum_type, data)
    }

    /// The name the enumeration gives the value.
    fn render(&self, value: Integer, data: &Data) -> (r: Result<String, Error>)
        requires
            data.wf(),
        ensures
            match self.rendered(value, *data) {
                Ok(t) => r is Ok && r->Ok_0@ == t,
                Err(e) => r == Err::<String, Error>(e),
            },
    {
        let names = match data.enums.lookup(opt_str(&self.namespace), self.enum_type.as_str(), &value) {
            Ok(v) => v,
            Err(e) => return Err(e),
        };
        let mut s = self.enum_type.clone();
        if names.len() == 0 {
            s.append("::Unknown_");
            let fallback = self.fallback_renderer.render(value);
            s.append(fallback.as_str());
        } else if names.len() == 1 {
            s.append("::");
            s.append(names[0].as_str());
        } else {
            s.append("::(ambiguous)");
        }
        Ok(s)
    }

    /// The size in bytes: that of the reader.
    pub fn base_size(&self) -> (r: usize)
        ensures
            r == self.reader.spec_size(),
    {
        self.reader.size()
    }

    pub fn alignment(&self) -> (r: Option<Alignment>)
        ensures
            r == self.alignment,
    {
        self.alignment
    }

    /// The integer at the context; fails with [`Error::OutOfBounds`] when
    /// too few bytes are left.
    pub fn to_integer(&self, context: Context) -> (r: Result<Integer, Error>)
        ensures
            r is Ok <==> context.has(self.reader.spec_size()),
            r matches Ok(i) ==> i == self.reader.decode(context.window(self.reader.spec_size())),
            r matches Err(e) ==> e == Error::OutOfBounds,
    {
        self.reader.read(context)
    }

    /// The name the enumeration gives the integer at the context.
    pub fn to_display(&self, context: Context, data: &Data) -> (r: Result<String, Error>)
        ensures
            !context.has(self.reader.spec_size()) ==> r == Err::<String, Error>(Error::OutOfBounds),
            context.has(self.reader.spec_size()) ==> match self.rendered(
                self.reader.decode(context.window(self.reader.spec_size())),
                *data,
            ) {
                Ok(t) => r is Ok && r->Ok_0@ == t,
                Err(e) => r == Err::<String, Error>(e),
            },
    {
        proof {
            use_type_invariant(&data.constants);
            use_type_invariant(&data.enums);
            use_type_invariant(&data.bitmasks);
            use_type_invariant(&data.types);
        }
        match self.reader.read(context) {
            Ok(i) => self.render(i, data),
            Err(e) => Err(e),
        }
    }
}

/// The value of bit `bit`, whose weight is given (see [`bit_value`]).
fn bit_value_of(bit: u8, weight: u128) -> (r: Integer)
    requires
        bit < 128,
        weight == two_to(bit as nat),
    ensures
        r == bit_value(bit as nat),
{
    proof {
        lemma_two_to_127();
    }
    if bit < 32 {
        proof {
            lemma_two_to_monotone(bit as nat, 31);
        }
        Integer::U32(weight as u32)
    } else if bit < 64 {
        proof {
            lemma_two_to_monotone(bit as nat, 63);
        }
        Integer::U64(weight as u64)
    } else {
        Integer::U128(weight)
    }
}

/// The labels of a value's bits in a bitmask (see [`bitmask_labels`]).
fn labels_of(bits: &H2Bitmasks, value: Integer, width: usize, unknown: Option<IntegerRenderer>, show_negative: bool) -> (r: Vec<String>)
    requires
        width <= 128,
    ensures
        texts(r@) == bitmask_labels(bits@, value.spec_as_u128() as nat, width as nat, unknown, show_negative, 0),
{
    let v = value.as_u128();
    let ghost vn = v as nat;
    let ghost all = bitmask_labels(bits@, vn, width as nat, unknown, show_negative, 0);
    let mut rem: u128 = v;
    let mut weight: u128 = 1;
    let mut bit: u8 = 0;
    let mut out: Vec<String> = Vec::new();
    assert(two_to(0) == 1);
    while bit < 128
        invariant
            bit <= 128,
            width <= 128,
            vn == value.spec_as_u128(),
            all == bitmask_labels(bits@, vn, width as nat, unknown, show_negative, 0),
            bit < 128 ==> weight == two_to(bit as nat),
            rem == vn / two_to(bit as nat),
            texts(out@) + bitmask_labels(bits@, vn, width as nat, unknown, show_negative, bit as nat) == all,
        decreases 128 - bit,
    {
        let ghost before = texts(out@);
        let ghost rest = bitmask_labels(bits@, vn, width as nat, unknown, show_negative, bit as nat + 1);
        let ghost here = bitmask_labels(bits@, vn, width as nat, unknown, show_negative, bit as nat);
        let on = (bit as usize) < width && rem % 2 == 1;
        assert(on == (bit < width && bit_set(vn, bit as nat)));
        match bits.name_at_position(bit) {
            Some(n) => {
                if on {
                    out.push(n);
                    assert(texts(out@) =~= before + seq![name_at(bits@, bit as nat)->0]);
                    assert(here == seq![name_at(bits@, bit as nat)->0] + rest);
                } else if show_negative {
                    let mut t = String::from_str("~");
                    proof {
                        reveal_strlit("~");
                    }
                    t.append(n.as_str());
                    assert(t@ =~= seq!['~'] + name_at(bits@, bit as nat)->0);
                    out.push(t);
                    assert(texts(out@) =~= before + seq![seq!['~'] + name_at(bits@, bit as nat)->0]);
                    assert(here == seq![seq!['~'] + name_at(bits@, bit as nat)->0] + rest);
                } else {
                    assert(here == rest);
                }
            },
            None => {
                match unknown {
                    Some(r) => {
                        if on {
                            let mut t = String::from_str("Unknown_");
                            let x = r.render(bit_value_of(bit, weight));
                            t.append(x.as_str());
                            out.push(t);
                            assert(texts(out@) =~= before + seq!["Unknown_"@ + r.rendered(bit_value(bit as nat))]);
                            assert(here == seq!["Unknown_"@ + r.rendered(bit_value(bit as nat))] + rest);
                        } else {
                            assert(here == rest);
                        }
                    },
                    None => {
                        assert(here == rest);
                    },
                }
            },
        }
        assert(texts(out@) + rest =~= before + here);
        proof {
            lemma_div_step(vn, bit as nat);
        }
        rem = rem / 2;
        if bit < 127 {
            proof {
                lemma_two_to_monotone((bit + 1) as nat, 127);
                lemma_two_to_127();
            }
            weight = weight * 2;
        }
        bit = bit + 1;
    }
    assert(texts(out@) =~= all);
    out
}

/// Labels joined as a bitmask displays them (see [`bitmask_text`]).
fn join_labels(ts: &Vec<String>) -> (r: String)
    ensures
        r@ == bitmask_text(texts(ts@)),
{
    if ts.len() == 0 {
        let r = String::from_str("(n/a)");
        return r;
    }
    let ghost all = texts(ts@);
    let mut out = ts[0].clone();
    assert(all.take(1) =~= seq![all[0]]);
    let mut i: usize = 1;
    while i < ts.len()
        invariant
            1 <= i <= ts@.len(),
            all == texts(ts@),
            out@ == bar_joined(all.take(i as int)),
        decreases ts@.len() - i,
    {
        out.append(" | ");
        out.append(ts[i].as_str());
        assert(all.take(i + 1).drop_last() =~= all.take(i as int));
        assert(all.take(i + 1).last() == ts@[i as int]@);
        i = i + 1;
    }
    assert(all.take(ts@.len() as int) =~= all);
    out
}


/// An integer displayed by the names of its set bits.
#[derive(Debug, Clone)]
pub struct H2Bitmask {
    pub reader: IntegerReader,
    pub unknown_renderer: Option<IntegerRenderer>,
    pub bitmask_type: String,
    pub namespace: Option<String>,
    pub show_negative: bool,
    pub alignment: Option<Alignment>,
}

impl H2Bitmask {
    /// Fails with [`Error::NoSuchNamespace`] when the namespace does not
    /// exist, and with [`Error::NotFound`] when it holds no such bitmask.
    pub fn new_aligned(alignment: Option<Alignment>, reader: IntegerReader, unknown_renderer: Option<IntegerRenderer>, namespace: Option<&str>, bitmask_type: &str, show_negative: bool, data: &Data) -> (r: Result<Self, Error>)
        ensures
            match space_of(data.bitmasks@, opt_text(namespace)) {
                None => r == Err::<Self, Error>(Error::NoSuchNamespace),
                Some(items) => if has_item(items, bitmask_type@) {
                    r is Ok && r->Ok_0.reader == reader && r->Ok_0.unknown_renderer
                        == unknown_renderer && r->Ok_0.bitmask_type@ == bitmask_type@
                        && opt_string_text(r->Ok_0.namespace) == opt_text(namespace)
                        && r->Ok_0.show_negative == show_negative && r->Ok_0.alignment == alignment
                } else {
                    r == Err::<Self, Error>(Error::NotFound)
                },
            },
    {
        proof {
            use_type_invariant(&data.constants);
            use_type_invariant(&data.enums);
            use_type_invariant(&data.bitmasks);
            use_type_invariant(&data.types);
        }
        match data.bitmasks.contains(namespace, bitmask_type) {
            Err(e) => Err(e),
            Ok(false) => Err(Error::NotFound),
            Ok(true) => {
                let namespace: Option<String> = match namespace {
                    Some(n) => Some(n.to_owned()),
                    None => None,
                };
                Ok(
                    H2Bitmask {
                        reader,
                        unknown_renderer,
                        bitmask_type: bitmask_type.to_owned(),
                        namespace,
                        show_negative,
                        alignment,
                    },
                )
            },
        }
    }

    /// See [`Self::new_aligned`].
    pub fn new(reader: IntegerReader, unknown_renderer: Option<IntegerRenderer>, namespace: Option<&str>, bitmask_type: &str, show_negative: bool, data: &Data) -> (r: Result<Self, Error>)
        ensures
            match space_of(data.bitmasks@, opt_text(namespace)) {
                None => r == Err::<Self, Error>(Error::NoSuchNamespace),
                Some(items) => if has_item(items, bitmask_type@) {
                    r is Ok && r->Ok_0.reader == reader && r->Ok_0.unknown_renderer
                        == unknown_renderer && r->Ok_0.bitmask_type@ == bitmask_type@
                        && opt_string_text(r->Ok_0.namespace) == opt_text(namespace)
                        && r->Ok_0.show_negative == show_negative && r->Ok_0.alignment is None
                } else {
                    r == Err::<Self, Error>(Error::NotFound)
                },
            },
    {
        proof {
            use_type_invariant(&data.constants);
            use_type_invariant(&data.enums);
            use_type_invariant(&data.bitmasks);
            use_type_invariant(&data.types);
        }
        Self::new_aligned(None, reader, unknown_renderer, namespace, bitmask_type, show_negative, data)
    }

    /// What the bitmask displays for a value: the labels of its bits in
    /// the named bitmask of the data's bitmasks (see [`bitmask_labels`],
    /// reading as many bits as the reader reads) joined by ` | `, or `(n/a)`
    /// when there are none. Fails with [`Error::NoSuchNamespace`] or
    /// [`Error::NotFound`] when the bitmask is not there.
    pub open spec fn rendered(&self, value: Integer, data: Data) -> Result<Seq<char>, Error> {
        match space_of(data.bitmasks@, opt_string_text(self.namespace)) {
            None => Err(Error::NoSuchNamespace),
            Some(items) => match item_of(items, self.bitmask_type@) {
                None => Err(Error::NotFound),
                Some(b) => Ok(
                    bitmask_text(
                        bitmask_labels(
                            b@,
                            value.spec_as_u128() as nat,
                            8 * self.reader.spec_size(),
                            self.unknown_renderer,
                            self.show_negative,
                            0,
                        ),
                    ),
                ),
            },
        }
    }

    /// The text the bitmask gives a value.
    fn render(&self, value: Integer, data: &Data) -> (r: Result<String, Error>)
        requires
            data.wf(),
        ensures
            match self.rendered(value, *data) {
                Ok(t) => r is Ok && r->Ok_0@ == t,
                Err(e) => r == Err::<String, Error>(e),
            },
    {
        let bits = match data.bitmasks.get(opt_str(&self.namespace), self.bitmask_type.as_str()) {
            Ok(b) => b,
            Err(e) => return Err(e),
        };
        let width = 8 * self.reader.size();
        let labels = labels_of(bits, value, width, self.unknown_renderer, self.show_negative);
        Ok(join_labels(&labels))
    }

    /// The text the bitmask gives the integer at the context.
    pub fn to_display(&self, context: Context, data: &Data) -> (r: Result<String, Error>)
        ensures
            !context.has(self.reader.spec_size()) ==> r == Err::<String, Error>(Error::OutOfBounds),
            context.has(self.reader.spec_size()) ==> match self.rendered(
                self.reader.decode(context.window(self.reader.spec_size())),
                *data,
            ) {
                Ok(t) => r is Ok && r->Ok_0@ == t,
                Err(e) => r == Err::<String, Error>(e),
            },
    {
        proof {
            use_type_invariant(&data.constants);
            use_type_invariant(&data.enums);
            use_type_invariant(&data.bitmasks);
            use_type_invariant(&data.types);
        }
        match self.reader.read(context) {
            Ok(i) => self.render(i, data),
            Err(e) => Err(e),
        }
    }

    /// The size in bytes: that of the reader.
    pub fn base_size(&self) -> (r: usize)
        ensures
            r == self.reader.spec_size(),
    {
        self.reader.size()
    }

    pub fn alignment(&self) -> (r: Option<Alignment>)
        ensures
            r == self.alignment,
    {
        self.alignment
    }

    /// The integer at the context; fails with [`Error::OutOfBounds`] when
    /// too few bytes are left.
    pub fn to_integer(&self, context: Context) -> (r: Result<Integer, Error>)
        ensures
            r is Ok <==> context.has(self.reader.spec_size()),
            r matches Ok(i) ==> i == self.reader.decode(context.window(self.reader.spec_size())),
            r matches Err(e) ==> e == Error::OutOfBounds,
    {
        self.reader.read(context)
    }
}

/// How an enumerated value is displayed, by how many of the enumeration's
/// entries have the value (compared as integers compare): two or more give
/// the enumeration's name followed by `::(ambiguous)`, whichever they are;
/// exactly one gives the enumeration's name, `::` and that entry's name;
/// none gives the enumeration's name, `::Unknown_` and the value rendered
/// by the fallback renderer.
pub proof fn lemma_enum_display(h: H2Enum, value: Integer, data: Data, e: Enums, i: int, j: int)
    requires
        space_of(data.enums@, opt_string_text(h.namespace)) matches Some(items) && item_of(items, h.enum_type@) == Some(e),
    ensures
        0 <= i < j < e@.len() && same_integer(e@[i].1, value) && same_integer(e@[j].1, value)
            ==> h.rendered(value, data) == Ok::<Seq<char>, Error>(h.enum_type@ + "::(ambiguous)"@),
        0 <= i < e@.len() && same_integer(e@[i].1, value) && (forall|k: int|
            0 <= k < e@.len() && k != i ==> !same_integer(#[trigger] e@[k].1, value))
            ==> h.rendered(value, data) == Ok::<Seq<char>, Error>(h.enum_type@ + "::"@ + e@[i].0),
        (forall|k: int| 0 <= k < e@.len() ==> !same_integer(#[trigger] e@[k].1, value))
            ==> h.rendered(value, data) == Ok::<Seq<char>, Error>(
                h.enum_type@ + "::Unknown_"@ + h.fallback_renderer.rendered(value),
            ),
{
    if 0 <= i < j < e@.len() && same_integer(e@[i].1, value) && same_integer(e@[j].1, value) {
        lemma_names_of_value_two(e@, value, i, j);
    }
    if 0 <= i < e@.len() && same_integer(e@[i].1, value) && (forall|k: int|
        0 <= k < e@.len() && k != i ==> !same_integer(#[trigger] e@[k].1, value)) {
        lemma_names_of_value_one(e@, value, i);
    }
    if forall|k: int| 0 <= k < e@.len() ==> !same_integer(#[trigger] e@[k].1, value) {
        lemma_names_of_value_none(e@, value);
    }
}

} // verus!
