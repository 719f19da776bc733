use vstd::prelude::*;

use crate::data::entries::{loaded, text_result, written};
use crate::data::formats::{
    csv_records_of, csv_text_of, entries_view, holds_pairs, leads_with_bom, pair_names_distinct,
    row_records, json_entries_of, json_text, json_text_of,
    pairs_view, parse_json_entries, parse_yaml_entries, read_csv_records, records_view,
    write_csv_rows, yaml_entries_of, yaml_text, yaml_text_of,
};
use crate::data::table::texts;
use crate::error::Error;
use crate::number::digits::{chars_to_string, digits, push_digits};
use crate::number::format::decimal_text;
use crate::number::integer::Integer;
use crate::number::integer_text::{lemma_decimal_parses, parse_integer, parse_text};

verus! {

/// Named bit positions, in the order added.
pub type Bits = Seq<(Seq<char>, u8)>;

/// Whether an entry carries the name.
pub open spec fn bit_has_name(s: Bits, name: Seq<char>) -> bool {
    exists|i: int| 0 <= i < s.len() && (#[trigger] s[i]).0 == name
}

/// Whether an entry carries the position.
pub open spec fn bit_has_position(s: Bits, p: u8) -> bool {
    exists|i: int| 0 <= i < s.len() && (#[trigger] s[i]).1 == p
}

/// Names and positions each occur once, and every position is below 128.
pub open spec fn bits_wf(s: Bits) -> bool {
    &&& forall|i: int, j: int| 0 <= i < j < s.len() ==> (#[trigger] s[i]).0 != (#[trigger] s[j]).0
    &&& forall|i: int, j: int| 0 <= i < j < s.len() ==> (#[trigger] s[i]).1 != (#[trigger] s[j]).1
    &&& forall|i: int| 0 <= i < s.len() ==> (#[trigger] s[i]).1 < 128
}

/// Add a named bit: a name already there fails with
/// [`Error::DuplicateName`], a position above 127 with
/// [`Error::OutOfRange`], a position already there with
/// [`Error::DuplicateValue`]. Positions are read as 128-bit patterns.
pub open spec fn add_bit(s: Bits, name: Seq<char>, position: Integer) -> Result<Bits, Error> {
    if bit_has_name(s, name) {
        Err(Error::DuplicateName)
    } else if position.spec_as_u128() > 127 {
        Err(Error::OutOfRange)
    } else if bit_has_position(s, position.spec_as_u128() as u8) {
        Err(Error::DuplicateValue)
    } else {
        Ok(s.push((name, position.spec_as_u128() as u8)))
    }
}

/// The name and position of a CSV record, which must hold exactly two
/// fields ([`Error::BadRecord`] for more or none, [`Error::MissingValue`]
/// for a name alone).
pub open spec fn bit_record(rec: Seq<Seq<char>>) -> Result<(Seq<char>, Integer), Error> {
    if rec.len() == 0 || rec.len() > 2 {
        Err(Error::BadRecord)
    } else if rec.len() == 1 {
        Err(Error::MissingValue)
    } else {
        match parse_text(rec[1]) {
            Some(v) => Ok((rec[0], v)),
            None => Err(Error::InvalidInteger),
        }
    }
}

/// The name and position of a mapping entry, whose value must be there.
pub open spec fn bit_text(e: (Seq<char>, Option<Seq<char>>)) -> Result<(Seq<char>, Integer), Error> {
    match e.1 {
        None => Err(Error::Unparseable),
        Some(t) => match parse_text(t) {
            Some(v) => Ok((e.0, v)),
            None => Err(Error::InvalidInteger),
        },
    }
}

/// The bits that CSV records give, added one after the other; the first
/// failure is the result.
pub open spec fn bits_from_records(recs: Seq<Seq<Seq<char>>>) -> Result<Bits, Error>
    decreases recs.len(),
{
    if recs.len() == 0 {
        Ok(Seq::empty())
    } else {
        match bits_from_records(recs.drop_last()) {
            Err(e) => Err(e),
            Ok(s) => match bit_record(recs.last()) {
                Err(e) => Err(e),
                Ok(p) => add_bit(s, p.0, p.1),
            },
        }
    }
}

/// The bits that mapping entries give, added one after the other; the first
/// failure is the result.
pub open spec fn bits_from_texts(es: Seq<(Seq<char>, Option<Seq<char>>)>) -> Result<Bits, Error>
    decreases es.len(),
{
    if es.len() == 0 {
        Ok(Seq::empty())
    } else {
        match bits_from_texts(es.drop_last()) {
            Err(e) => Err(e),
            Ok(s) => match bit_text(es.last()) {
                Err(e) => Err(e),
                Ok(p) => add_bit(s, p.0, p.1),
            },
        }
    }
}

/// What loading CSV text gives: its records, each a name and a position.
pub open spec fn bits_from_csv(text: Seq<char>) -> Result<Bits, Error> {
    match csv_records_of(text) {
        None => Err(Error::Unparseable),
        Some(recs) => bits_from_records(recs),
    }
}

/// What loading a JSON object gives: its names with their positions.
pub open spec fn bits_from_json(text: Seq<char>) -> Result<Bits, Error> {
    match json_entries_of(text) {
        None => Err(Error::Unparseable),
        Some(es) => bits_from_texts(es),
    }
}

/// The same bits, in any order: as many, and each in both or in neither.
pub open spec fn same_bit_set(a: Bits, b: Bits) -> bool {
    &&& a.len() == b.len()
    &&& forall|x: (Seq<char>, u8)| a.contains(x) <==> b.contains(x)
}

/// 2 to the power `n`.
pub open spec fn two_to(n: nat) -> nat
    decreases n,
{
    if n == 0 {
        1
    } else {
        2 * two_to((n - 1) as nat)
    }
}

/// Whether bit `b` of `v` is set.
pub open spec fn bit_set(v: nat, b: nat) -> bool {
    (v / two_to(b)) % 2 == 1
}

/// The name of the bit at a position, if one carries it.
pub open spec fn name_at(s: Bits, p: nat) -> Option<Seq<char>>
    decreases s.len(),
{
    if s.len() == 0 {
        None
    } else if s.last().1 as nat == p {
        Some(s.last().0)
    } else {
        name_at(s.drop_last(), p)
    }
}

/// The text for a set bit: its name, or `Unknown_0x` and the bit's value in
/// hex.
pub open spec fn bit_label(s: Bits, p: nat) -> Seq<char> {
    match name_at(s, p) {
        Some(n) => n,
        None => seq!['U', 'n', 'k', 'n', 'o', 'w', 'n', '_', '0', 'x'] + digits(two_to(p), 16, false),
    }
}

/// The labels of the bits of `v` set from bit `from` up to bit 127, lowest
/// first.
pub open spec fn bit_labels(s: Bits, v: nat, from: nat) -> Seq<Seq<char>>
    decreases 128 - from,
{
    if from >= 128 {
        Seq::empty()
    } else if bit_set(v, from) {
        seq![bit_label(s, from)] + bit_labels(s, v, from + 1)
    } else {
        bit_labels(s, v, from + 1)
    }
}

/// Each bit as its name and its position in decimal.
pub open spec fn position_rows(s: Bits) -> Seq<(Seq<char>, Seq<char>)> {
    s.map_values(|e: (Seq<char>, u8)| (e.0, decimal_text(e.1 as int)))
}

/// Named bits of a bitmask, each at its own position (0 to 127).
#[derive(Debug)]
pub struct H2Bitmasks {
    entries: Vec<(String, u8)>,
}

impl View for H2Bitmasks {
    type V = Bits;

    closed spec fn view(&self) -> Bits {
        self.entries@.map_values(|e: (String, u8)| (e.0@, e.1))
    }
}

/// A result of bits, as a loader returns it.
pub open spec fn same_bits(r: Result<H2Bitmasks, Error>, expected: Result<Bits, Error>) -> bool {
    match expected {
        Ok(s) => r is Ok && r->Ok_0@ == s,
        Err(e) => r is Err && r->Err_0 == e,
    }
}

impl H2Bitmasks {
    /// The invariant: unique names and positions, all below 128.
    pub open spec fn wf(&self) -> bool {
        bits_wf(self@)
    }

    fn new_empty() -> (r: Self)
        ensures
            r@ == Seq::<(Seq<char>, u8)>::empty(),
    {
        H2Bitmasks { entries: Vec::new() }
    }

    /// The position of the entry with the name.
    fn find_name(&self, name: &str) -> (r: Option<usize>)
        ensures
            r is None <==> !bit_has_name(self@, name@),
            r matches Some(i) ==> i < self@.len() && self@[i as int].0 == name@,
    {
        let key: String = name.to_owned();
        let mut i: usize = 0;
        while i < self.entries.len()
            invariant
                i <= self.entries@.len(),
                key@ == name@,
                forall|j: int| 0 <= j < i ==> (#[trigger] self@[j]).0 != name@,
            decreases self.entries@.len() - i,
        {
            if self.entries[i].0 == key {
                assert(self@[i as int].0 == name@);
                return Some(i);
            }
            i = i + 1;
        }
        None
    }

    /// Whether some entry carries the position.
    fn has_position(&self, p: u8) -> (r: bool)
        ensures
            r == bit_has_position(self@, p),
    {
        let mut i: usize = 0;
        while i < self.entries.len()
            invariant
                i <= self.entries@.len(),
                forall|j: int| 0 <= j < i ==> (#[trigger] self@[j]).1 != p,
            decreases self.entries@.len() - i,
        {
            if self.entries[i].1 == p {
                assert(self@[i as int].1 == p);
                return true;
            }
            i = i + 1;
        }
        false
    }

    /// Add a named bit at a position.
    fn add_entry(&mut self, name: &str, position: Integer) -> (r: Result<(), Error>)
        requires
            old(self).wf(),
        ensures
            final(self).wf(),
            match add_bit(old(self)@, name@, position) {
                Ok(s) => r is Ok && final(self)@ == s,
                Err(e) => r == Err::<(), Error>(e) && final(self)@ == old(self)@,
            },
    {
        if self.find_name(name).is_some() {
            return Err(Error::DuplicateName);
        }
        let position = position.as_u128();
        if position > 127 {
            return Err(Error::OutOfRange);
        }
        let position = position as u8;
        if self.has_position(position) {
            return Err(Error::DuplicateValue);
        }
        self.entries.push((name.to_owned(), position));
        assert(self@ =~= old(self)@.push((name@, position)));
        Ok(())
    }

    /// Build from CSV records: each a name and a position.
    pub fn load_records(records: &Vec<Vec<String>>) -> (r: Result<Self, Error>)
        ensures
            same_bits(r, bits_from_records(records_view(records@))),
            r matches Ok(t) ==> t.wf(),
    {
        let ghost recs = records_view(records@);
        let mut out = Self::new_empty();
        let mut i: usize = 0;
        while i < records.len()
            invariant
                i <= records@.len(),
                recs == records_view(records@),
                out.wf(),
                bits_from_records(recs.take(i as int)) == Ok::<Bits, Error>(out@),
            decreases records@.len() - i,
        {
            assert(recs.take(i + 1).drop_last() =~= recs.take(i as int));
            let rec = &records[i];
            assert(recs.take(i + 1).last() == texts(rec@));
            let result: Result<(), Error> = if rec.len() == 0 || rec.len() > 2 {
                Err(Error::BadRecord)
            } else if rec.len() == 1 {
                Err(Error::MissingValue)
            } else {
                match parse_integer(rec[1].as_str()) {
                    Ok(v) => out.add_entry(rec[0].as_str(), v),
                    Err(e) => Err(e),
                }
            };
            if let Err(e) = result {
                proof {
                    lemma_bits_records_stops(recs, i as int + 1);
                }
                return Err(e);
            }
            i = i + 1;
        }
        assert(recs.take(records@.len() as int) =~= recs);
        Ok(out)
    }

    /// Build from mapping entries: each a name and a position.
    pub fn load_entries(entries: &Vec<(String, Option<String>)>) -> (r: Result<Self, Error>)
        ensures
            same_bits(r, bits_from_texts(entries_view(entries@))),
            r matches Ok(t) ==> t.wf(),
    {
        let ghost es = entries_view(entries@);
        let mut out = Self::new_empty();
        let mut i: usize = 0;
        while i < entries.len()
            invariant
                i <= entries@.len(),
                es == entries_view(entries@),
                out.wf(),
                bits_from_texts(es.take(i as int)) == Ok::<Bits, Error>(out@),
            decreases entries@.len() - i,
        {
            assert(es.take(i + 1).drop_last() =~= es.take(i as int));
            let e = &entries[i];
            assert(es.take(i + 1).last() == es[i as int]);
            let result: Result<(), Error> = match &e.1 {
                None => Err(Error::Unparseable),
                Some(t) => match parse_integer(t.as_str()) {
                    Ok(v) => out.add_entry(e.0.as_str(), v),
                    Err(err) => Err(err),
                },
            };
            if let Err(err) = result {
                proof {
                    lemma_bits_texts_stops(es, i as int + 1);
                }
                return Err(err);
            }
            i = i + 1;
        }
        assert(es.take(entries@.len() as int) =~= es);
        Ok(out)
    }

    /// Load from CSV text: a name and a position per line.
    pub fn load_from_csv_string(data: &str) -> (r: Result<Self, Error>)
        ensures
            same_bits(r, bits_from_csv(data@)),
            r matches Ok(t) ==> t.wf(),
    {
        match read_csv_records(data) {
            Ok(records) => Self::load_records(&records),
            Err(e) => Err(e),
        }
    }

    /// Load from a YAML mapping of names to positions.
    pub fn load_from_yaml_string(data: &str) -> (r: Result<Self, Error>)
        ensures
            same_bits(r, loaded(yaml_entries_of(data@), |es| bits_from_texts(es))),
            r matches Ok(t) ==> t.wf(),
    {
        match parse_yaml_entries(data) {
            Ok(entries) => Self::load_entries(&entries),
            Err(e) => Err(e),
        }
    }

    /// Load from a JSON object of names to positions.
    pub fn load_from_json_string(data: &str) -> (r: Result<Self, Error>)
        ensures
            same_bits(r, bits_from_json(data@)),
            r matches Ok(t) ==> t.wf(),
    {
        match parse_json_entries(data) {
            Ok(entries) => Self::load_entries(&entries),
            Err(e) => Err(e),
        }
    }

    /// Each bit as its name and decimal position, in the order added.
    fn rows(&self) -> (r: Vec<(String, String)>)
        ensures
            pairs_view(r@) == position_rows(self@),
    {
        let mut out: Vec<(String, String)> = Vec::new();
        let mut i: usize = 0;
        while i < self.entries.len()
            invariant
                i <= self.entries@.len(),
                out@.len() == i,
                pairs_view(out@) == position_rows(self@).take(i as int),
            decreases self.entries@.len() - i,
        {
            let mut text: Vec<char> = Vec::new();
            push_digits(&mut text, self.entries[i].1 as u128, 10, false);
            assert(text@ =~= decimal_text(self@[i as int].1 as int));
            out.push((self.entries[i].0.clone(), chars_to_string(text)));
            i = i + 1;
            assert(pairs_view(out@) =~= position_rows(self@).take(i as int));
        }
        assert(position_rows(self@).take(self@.len() as int) =~= position_rows(self@));
        out
    }

    /// Write as CSV: a name and a decimal position per line. Loading the
    /// text gives back the same bits in the same order (unless the first
    /// name starts with a byte-order mark, which the reader drops).
    pub fn to_csv(&self) -> (r: Result<String, Error>)
        ensures
            text_result(r) == written(csv_text_of(position_rows(self@))),
            r matches Ok(s) ==> (self.wf() && !leads_with_bom(position_rows(self@)) ==> bits_from_csv(s@)
                == Ok::<Bits, Error>(self@)),
    {
        proof {
            if self.wf() {
                lemma_bits_rows(self@);
            }
        }
        write_csv_rows(&self.rows())
    }

    /// Write as a YAML mapping of names to decimal positions.
    pub fn to_yaml(&self) -> (r: Result<String, Error>)
        ensures
            text_result(r) == written(yaml_text_of(position_rows(self@))),
    {
        yaml_text(&self.rows())
    }

    /// Write as a JSON object of names to decimal positions. Loading the
    /// text gives back the same bits, not necessarily in the same order.
    pub fn to_json(&self) -> (r: Result<String, Error>)
        ensures
            text_result(r) == written(json_text_of(position_rows(self@))),
            r matches Ok(s) ==> (self.wf() ==> (bits_from_json(s@) matches Ok(t) && same_bit_set(t, self@))),
    {
        proof {
            if self.wf() {
                lemma_position_rows_distinct(self@);
            }
        }
        let r = json_text(&self.rows());
        proof {
            if self.wf() && r is Ok {
                lemma_bits_texts(json_entries_of(r->Ok_0@)->0, self@);
            }
        }
        r
    }

    /// The position of the named bit, as a `U8`.
    pub fn get_by_name(&self, name: &str) -> (r: Option<Integer>)
        requires
            self.wf(),
        ensures
            r is Some <==> bit_has_name(self@, name@),
            r matches Some(v) ==> exists|i: int|
                0 <= i < self@.len() && (#[trigger] self@[i]).0 == name@ && v == Integer::U8(
                    self@[i].1,
                ),
    {
        match self.find_name(name) {
            Some(i) => Some(Integer::U8(self.entries[i].1)),
            None => None,
        }
    }

    /// The name of the bit at a position.
    pub(crate) fn name_at_position(&self, p: u8) -> (r: Option<String>)
        ensures
            match name_at(self@, p as nat) {
                Some(n) => r is Some && r->0@ == n,
                None => r is None,
            },
    {
        let mut i: usize = self.entries.len();
        assert(self@.take(i as int) =~= self@);
        while i > 0
            invariant
                i <= self.entries@.len(),
                name_at(self@, p as nat) == name_at(self@.take(i as int), p as nat),
            decreases i,
        {
            assert(self@.take(i as int).drop_last() =~= self@.take(i - 1));
            if self.entries[i - 1].1 == p {
                return Some(self.entries[i - 1].0.clone());
            }
            i = i - 1;
        }
        None
    }

    /// The names of the bits set in the value, lowest bit first; a set bit
    /// with no name gives `Unknown_0x` and the bit's value in hex.
    ///
    /// Every set bit from 32 up must carry a name.
    pub fn get_by_value(&self, value: &Integer) -> (r: Vec<String>)
        requires
            forall|b: nat|
                32 <= b < 128 && bit_set(value.spec_as_u128() as nat, b) ==> (#[trigger] name_at(
                    self@,
                    b,
                )) is Some,
        ensures
            texts(r@) == bit_labels(self@, value.spec_as_u128() as nat, 0),
    {
        let v = value.as_u128();
        let ghost vn = v as nat;
        let mut rem: u128 = v;
        let mut weight: u128 = 1;
        let mut bit: u8 = 0;
        let mut out: Vec<String> = Vec::new();
        while bit < 128
            invariant
                bit <= 128,
                vn == value.spec_as_u128(),
                bit < 128 ==> weight == two_to(bit as nat),
                weight <= 0x8000_0000_0000_0000_0000_0000_0000_0000,
                rem == vn / two_to(bit as nat),
                forall|b: nat|
                    32 <= b < 128 && bit_set(vn, b) ==> (#[trigger] name_at(self@, b)) is Some,
                texts(out@) + bit_labels(self@, vn, bit as nat) == bit_labels(self@, vn, 0),
            decreases 128 - bit,
        {
            if rem % 2 == 1 {
                let label = match self.name_at_position(bit) {
                    Some(n) => n,
                    None => {
                        let mut text: Vec<char> = Vec::new();
                        text.push('U');
                        text.push('n');
                        text.push('k');
                        text.push('n');
                        text.push('o');
                        text.push('w');
                        text.push('n');
                        text.push('_');
                        text.push('0');
                        text.push('x');
                        push_digits(&mut text, weight, 16, false);
                        assert(text@ =~= bit_label(self@, bit as nat));
                        chars_to_string(text)
                    },
                };
                assert(label@ == bit_label(self@, bit as nat));
                let ghost before = out@;
                out.push(label);
                assert(texts(out@) =~= texts(before) + seq![bit_label(self@, bit as nat)]);
            }
            proof {
                lemma_div_step(vn, bit as nat);
            }
            rem = rem / 2;
            if bit < 127 {
                proof {
                    lemma_two_to_monotone((bit + 1) as nat, 127);
                    lemma_two_to_127();
                }
                weight = weight * 2;
            }
            bit = bit + 1;
        }
        out
    }

    /// The number of bits.
    pub fn len(&self) -> (r: usize)
        ensures
            r == self@.len(),
    {
        self.entries.len()
    }
}

/// Dividing by the next power of two is halving the previous quotient.
pub proof fn lemma_div_step(v: nat, b: nat)
    ensures
        v / two_to(b + 1) == (v / two_to(b)) / 2,
        two_to(b + 1) == 2 * two_to(b),
        two_to(b) > 0,
{
    lemma_two_to_pos(b);
    assert(two_to(b + 1) == 2 * two_to(b));
    vstd::arithmetic::div_mod::lemma_div_denominator(v as int, two_to(b) as int, 2);
    assert(two_to(b) * 2 == two_to(b + 1)) by (nonlinear_arith)
        requires
            two_to(b + 1) == 2 * two_to(b),
    ;
}

/// 2 to the powers 31, 63 and 127.
pub proof fn lemma_two_to_127()
    ensures
        two_to(31) == 0x8000_0000,
        two_to(63) == 0x8000_0000_0000_0000,
        two_to(127) == 0x8000_0000_0000_0000_0000_0000_0000_0000,
{
    reveal_with_fuel(two_to, 9);
    assert(two_to(8) == 256);
    assert(two_to(7) == 128);
    lemma_two_to_product(8, 8, 256, 256);
    lemma_two_to_product(16, 16, 0x1_0000, 0x1_0000);
    lemma_two_to_product(32, 32, 0x1_0000_0000, 0x1_0000_0000);
    lemma_two_to_product(8, 7, 256, 128);
    lemma_two_to_product(16, 15, 0x1_0000, 0x8000);
    lemma_two_to_product(32, 31, 0x1_0000_0000, 0x8000_0000);
    lemma_two_to_product(64, 63, 0x1_0000_0000_0000_0000, 0x8000_0000_0000_0000);
}

/// A power of two from two known factors.
proof fn lemma_two_to_product(a: nat, b: nat, x: nat, y: nat)
    requires
        two_to(a) == x,
        two_to(b) == y,
    ensures
        two_to(a + b) == x * y,
{
    lemma_two_to_add(a, b);
}

/// Powers of two multiply by adding exponents.
proof fn lemma_two_to_add(a: nat, b: nat)
    ensures
        two_to(a + b) == two_to(a) * two_to(b),
    decreases a,
{
    if a > 0 {
        let a1 = (a - 1) as nat;
        lemma_two_to_add(a1, b);
        let p = two_to(a1);
        let q = two_to(b);
        assert(two_to(a) == 2 * p);
        assert(two_to(a1 + b + 1) == 2 * two_to(a1 + b));
        assert(a1 + b + 1 == a + b);
        assert(2 * (p * q) == (2 * p) * q) by (nonlinear_arith);
        assert(two_to(a + b) == two_to(a) * two_to(b));
    } else {
        assert(two_to(a) == 1);
        assert(a + b == b);
        assert(two_to(a + b) == two_to(b));
    }
}

/// Powers of two grow with the exponent.
pub proof fn lemma_two_to_monotone(a: nat, b: nat)
    requires
        a <= b,
    ensures
        two_to(a) <= two_to(b),
    decreases b,
{
    if a < b {
        lemma_two_to_monotone(a, (b - 1) as nat);
    }
}

/// Powers of two are positive.
pub proof fn lemma_two_to_pos(b: nat)
    ensures
        two_to(b) > 0,
    decreases b,
{
    if b > 0 {
        lemma_two_to_pos((b - 1) as nat);
    }
}

/// A failure among the first records is the failure of all of them.
pub proof fn lemma_bits_records_stops(recs: Seq<Seq<Seq<char>>>, k: int)
    requires
        0 <= k <= recs.len(),
        bits_from_records(recs.take(k)) is Err,
    ensures
        bits_from_records(recs) == bits_from_records(recs.take(k)),
    decreases recs.len() - k,
{
    if k < recs.len() {
        assert(recs.take(k + 1).drop_last() =~= recs.take(k));
        lemma_bits_records_stops(recs, k + 1);
    } else {
        assert(recs.take(k) =~= recs);
    }
}

/// A failure among the first entries is the failure of all of them.
pub proof fn lemma_bits_texts_stops(es: Seq<(Seq<char>, Option<Seq<char>>)>, k: int)
    requires
        0 <= k <= es.len(),
        bits_from_texts(es.take(k)) is Err,
    ensures
        bits_from_texts(es) == bits_from_texts(es.take(k)),
    decreases es.len() - k,
{
    if k < es.len() {
        assert(es.take(k + 1).drop_last() =~= es.take(k));
        lemma_bits_texts_stops(es, k + 1);
    } else {
        assert(es.take(k) =~= es);
    }
}


/// A position written in decimal reads back as the same position.
proof fn lemma_position_parses(p: u8)
    ensures
        parse_text(decimal_text(p as int)) matches Some(w) && w.spec_as_u128() == p,
{
    lemma_decimal_parses(Integer::U8(p));
}

/// Well-formed bits, written as decimal rows and loaded again, give the same
/// bits in the same order.
proof fn lemma_bits_rows(s: Bits)
    requires
        bits_wf(s),
    ensures
        bits_from_records(row_records(position_rows(s))) == Ok::<Bits, Error>(s),
    decreases s.len(),
{
    if s.len() > 0 {
        let front = s.drop_last();
        assert forall|i: int, j: int| 0 <= i < j < front.len() implies (#[trigger] front[i]).0 != (#[trigger] front[j]).0 by {
            assert(front[i] == s[i] && front[j] == s[j]);
        }
        assert forall|i: int, j: int| 0 <= i < j < front.len() implies (#[trigger] front[i]).1 != (#[trigger] front[j]).1 by {
            assert(front[i] == s[i] && front[j] == s[j]);
        }
        assert forall|i: int| 0 <= i < front.len() implies (#[trigger] front[i]).1 < 128 by {
            assert(front[i] == s[i]);
        }
        lemma_bits_rows(front);
        let recs = row_records(position_rows(s));
        assert(recs.drop_last() =~= row_records(position_rows(front)));
        let last = s[s.len() - 1];
        assert(s.last() == last);
        lemma_position_parses(last.1);
        let w = parse_text(decimal_text(last.1 as int))->0;
        assert(recs.last() == seq![last.0, decimal_text(last.1 as int)]);
        assert(bit_record(recs.last()) == Ok::<(Seq<char>, Integer), Error>((last.0, w)));
        if bit_has_name(front, last.0) {
            let k = choose|k: int| 0 <= k < front.len() && (#[trigger] front[k]).0 == last.0;
            assert(front[k] == s[k]);
        }
        if bit_has_position(front, last.1) {
            let k = choose|k: int| 0 <= k < front.len() && (#[trigger] front[k]).1 == last.1;
            assert(front[k] == s[k]);
        }
        assert(front.push((last.0, last.1)) =~= s);
    } else {
        assert(row_records(position_rows(s)) =~= Seq::<Seq<Seq<char>>>::empty());
        assert(s =~= Seq::<(Seq<char>, u8)>::empty());
    }
}

/// The decimal rows of well-formed bits have distinct names.
proof fn lemma_position_rows_distinct(s: Bits)
    requires
        bits_wf(s),
    ensures
        pair_names_distinct(position_rows(s)),
{
    let ps = position_rows(s);
    assert forall|i: int, j: int| 0 <= i < j < ps.len() implies (#[trigger] ps[i]).0 != (#[trigger] ps[j]).0 by {
        assert(ps[i].0 == s[i].0 && ps[j].0 == s[j].0);
    }
}

/// The bit that a mapping entry holding a decimal position stands for.
pub open spec fn bit_of_entry(e: (Seq<char>, Option<Seq<char>>)) -> (Seq<char>, u8) {
    (e.0, parse_text(e.1->0)->0.spec_as_u128() as u8)
}

/// Each entry read back from a mapping of well-formed bits stands for one
/// of those bits.
proof fn lemma_entry_is_bit(es: Seq<(Seq<char>, Option<Seq<char>>)>, s: Bits, j: int)
    requires
        bits_wf(s),
        holds_pairs(es, position_rows(s)),
        0 <= j < es.len(),
    ensures
        exists|i: int| 0 <= i < s.len() && es[j] == (s[i].0, Some(decimal_text(s[i].1 as int))) && bit_of_entry(es[j]) == s[i],
        bit_text(es[j]) == Ok::<(Seq<char>, Integer), Error>((es[j].0, parse_text(es[j].1->0)->0)),
        parse_text(es[j].1->0)->0.spec_as_u128() <= 127,
{
    let rows = position_rows(s);
    let i = choose|i: int| 0 <= i < rows.len() && es[j] == (#[trigger] rows[i].0, Some(rows[i].1));
    lemma_position_parses(s[i].1);
    assert(rows[i] == (s[i].0, decimal_text(s[i].1 as int)));
}

/// The first `k` entries read back from a mapping of well-formed bits load
/// as the bits they stand for.
proof fn lemma_bits_texts_prefix(es: Seq<(Seq<char>, Option<Seq<char>>)>, s: Bits, k: int)
    requires
        bits_wf(s),
        holds_pairs(es, position_rows(s)),
        0 <= k <= es.len(),
    ensures
        bits_from_texts(es.take(k)) == Ok::<Bits, Error>(es.take(k).map_values(|e: (Seq<char>, Option<Seq<char>>)| bit_of_entry(e))),
    decreases k,
{
    let f = |e: (Seq<char>, Option<Seq<char>>)| bit_of_entry(e);
    if k > 0 {
        lemma_bits_texts_prefix(es, s, k - 1);
        let pre = es.take(k);
        assert(pre.drop_last() =~= es.take(k - 1));
        assert(pre.last() == es[k - 1]);
        let bits = es.take(k - 1).map_values(f);
        lemma_entry_is_bit(es, s, k - 1);
        let i = choose|i: int| 0 <= i < s.len() && es[k - 1] == (s[i].0, Some(decimal_text(s[i].1 as int))) && bit_of_entry(es[k - 1]) == s[i];
        if bit_has_name(bits, es[k - 1].0) {
            let m = choose|m: int| 0 <= m < bits.len() && (#[trigger] bits[m]).0 == es[k - 1].0;
            assert(bits[m].0 == es[m].0);
        }
        let w = parse_text(es[k - 1].1->0)->0;
        if bit_has_position(bits, w.spec_as_u128() as u8) {
            let m = choose|m: int| 0 <= m < bits.len() && (#[trigger] bits[m]).1 == w.spec_as_u128() as u8;
            lemma_entry_is_bit(es, s, m);
            let im = choose|im: int| 0 <= im < s.len() && es[m] == (s[im].0, Some(decimal_text(s[im].1 as int))) && bit_of_entry(es[m]) == s[im];
            assert(bits[m] == bit_of_entry(es[m]));
            assert(s[im].1 == s[i].1);
            assert(es[m].0 != es[k - 1].0);
        }
        assert(pre.map_values(f) =~= bits.push(bit_of_entry(es[k - 1])));
    } else {
        assert(es.take(k).map_values(f) =~= Seq::<(Seq<char>, u8)>::empty());
    }
}

/// Well-formed bits, written as a mapping of names to decimal positions and
/// read back in any order, load as the same bits.
proof fn lemma_bits_texts(es: Seq<(Seq<char>, Option<Seq<char>>)>, s: Bits)
    requires
        bits_wf(s),
        holds_pairs(es, position_rows(s)),
    ensures
        bits_from_texts(es) matches Ok(t) && same_bit_set(t, s),
{
    lemma_bits_texts_prefix(es, s, es.len() as int);
    assert(es.take(es.len() as int) =~= es);
    let f = |e: (Seq<char>, Option<Seq<char>>)| bit_of_entry(e);
    let t = es.map_values(f);
    let rows = position_rows(s);
    assert forall|x: (Seq<char>, u8)| t.contains(x) <==> s.contains(x) by {
        if t.contains(x) {
            let j = choose|j: int| 0 <= j < t.len() && t[j] == x;
            lemma_entry_is_bit(es, s, j);
        }
        if s.contains(x) {
            let i = choose|i: int| 0 <= i < s.len() && s[i] == x;
            assert(rows[i] == (s[i].0, decimal_text(s[i].1 as int)));
            let j = choose|j: int| 0 <= j < es.len() && #[trigger] es[j] == (rows[i].0, Some(rows[i].1));
            lemma_position_parses(s[i].1);
            assert(t[j] == bit_of_entry(es[j]));
            assert(t[j] == x);
        }
    }
}

} // verus!
