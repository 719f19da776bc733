use vstd::prelude::*;

use bimap::BiHashMap;

use crate::data::entries::{
    decimal_rows, decimal_rows_of, lemma_decimal_rows_distinct, lemma_mapping_same, loaded,
    same_named_values, same_values, text_result, written, Entries,
};
use crate::data::formats::{
    csv_records_of, csv_text_of, entries_view, holds_pairs, leads_with_bom, row_records, json_entries_of, json_text, json_text_of,
    parse_json_entries, parse_yaml_entries, read_csv_records, records_view, write_csv_rows,
    yaml_entries_of, yaml_text, yaml_text_of,
};
use crate::data::table::{has_name, names_distinct, texts, NameTable};
use crate::error::Error;
use crate::number::integer::Integer;
use crate::number::format::decimal_text;
use crate::number::integer_text::{lemma_decimal_parses, parse_integer, parse_text};

verus! {

#[verifier::external_type_specification]
#[verifier::external_body]
#[verifier::reject_recursive_types(L)]
#[verifier::reject_recursive_types(R)]
#[verifier::reject_recursive_types(LS)]
#[verifier::reject_recursive_types(RS)]
pub struct ExBiHashMap<L, R, LS, RS>(BiHashMap<L, R, LS, RS>);

/// A bimap of names and the 128-bit patterns of their values.
pub type NamePatterns = BiHashMap<String, u128>;

/// What a bimap of names and 128-bit values holds: each name with its
/// value.
pub uninterp spec fn bimap_contents(m: NamePatterns) -> Map<Seq<char>, u128>;

/// An empty bimap.
///
/// Calls bimap's `BiHashMap::new`, which holds no pairs.
#[verifier::external_body]
fn bimap_new() -> (r: NamePatterns)
    ensures
        bimap_contents(r).dom() == Set::<Seq<char>>::empty(),
{
    BiHashMap::new()
}

/// Add a name and its value, unless either is already there.
///
/// Calls bimap's `BiHashMap::insert_no_overwrite`, which (by its source)
/// refuses, leaving the map as it was, when the name or the value is
/// already in it, and otherwise adds the pair. The result says whether the
/// pair was added.
#[verifier::external_body]
fn bimap_insert_no_overwrite(m: &mut NamePatterns, name: String, value: u128) -> (r: bool)
    ensures
        ({
            let before = bimap_contents(*old(m));
            let taken = before.dom().contains(name@) || exists|k: Seq<char>|
                #[trigger] before.dom().contains(k) && before[k] == value;
            if taken {
                !r && bimap_contents(*final(m)) == before
            } else {
                r && bimap_contents(*final(m)) == before.insert(name@, value)
            }
        }),
{
    m.insert_no_overwrite(name, value).is_ok()
}

/// The name that has a value.
///
/// Calls bimap's `BiHashMap::get_by_right` (and clones the name found): a
/// name whose value is the given one, `None` when there is none.
#[verifier::external_body]
fn bimap_get_by_right(m: &NamePatterns, value: u128) -> (r: Option<String>)
    ensures
        match r {
            Some(n) => bimap_contents(*m).dom().contains(n@) && bimap_contents(*m)[n@] == value,
            None => forall|k: Seq<char>|
                #[trigger] bimap_contents(*m).dom().contains(k) ==> bimap_contents(*m)[k] != value,
        },
{
    m.get_by_right(&value).cloned()
}

/// Each name with the 128-bit pattern of its value.
pub open spec fn patterns(s: Entries) -> Map<Seq<char>, u128>
    decreases s.len(),
{
    if s.len() == 0 {
        Map::empty()
    } else {
        patterns(s.drop_last()).insert(s.last().0, s.last().1.spec_as_u128() as u128)
    }
}

/// Whether some entry has a value of the given 128-bit pattern.
pub open spec fn has_pattern(s: Entries, v: u128) -> bool {
    exists|i: int| 0 <= i < s.len() && (#[trigger] s[i]).1.spec_as_u128() as u128 == v
}

/// No two entries have equal values (values are equal when their 128-bit
/// patterns are).
pub open spec fn patterns_distinct(s: Entries) -> bool {
    forall|i: int, j: int|
        0 <= i < j < s.len() ==> (#[trigger] s[i]).1.spec_as_u128() as u128 != (#[trigger] s[j]).1.spec_as_u128() as u128
}

/// Add a constant: a name already there fails with
/// [`Error::DuplicateName`], a value equal to one already there with
/// [`Error::DuplicateValue`].
pub open spec fn add_unique(s: Entries, name: Seq<char>, value: Integer) -> Result<Entries, Error> {
    if has_name(s, name) {
        Err(Error::DuplicateName)
    } else if has_pattern(s, value.spec_as_u128() as u128) {
        Err(Error::DuplicateValue)
    } else {
        Ok(s.push((name, value)))
    }
}

/// The constant of a CSV record: exactly a name and a value
/// ([`Error::BadRecord`] for other than two fields,
/// [`Error::InvalidInteger`] for a value that is no integer).
pub open spec fn constant_record(rec: Seq<Seq<char>>) -> Result<(Seq<char>, Integer), Error> {
    if rec.len() != 2 {
        Err(Error::BadRecord)
    } else {
        match parse_text(rec[1]) {
            None => Err(Error::InvalidInteger),
            Some(v) => Ok((rec[0], v)),
        }
    }
}

/// The constant of a mapping entry, whose value must be there.
pub open spec fn constant_entry(e: (Seq<char>, Option<Seq<char>>)) -> Result<(Seq<char>, Integer), Error> {
    match e.1 {
        None => Err(Error::Unparseable),
        Some(t) => match parse_text(t) {
            None => Err(Error::InvalidInteger),
            Some(v) => Ok((e.0, v)),
        },
    }
}

/// The constants of CSV records, added in turn; the first failure is the
/// result.
pub open spec fn constants_of_records(recs: Seq<Seq<Seq<char>>>) -> Result<Entries, Error>
    decreases recs.len(),
{
    if recs.len() == 0 {
        Ok(Seq::empty())
    } else {
        match constants_of_records(recs.drop_last()) {
            Err(e) => Err(e),
            Ok(s) => match constant_record(recs.last()) {
                Err(e) => Err(e),
                Ok(c) => add_unique(s, c.0, c.1),
            },
        }
    }
}

/// The constants of mapping entries, added in turn; the first failure is
/// the result.
pub open spec fn constants_of_entries(es: Seq<(Seq<char>, Option<Seq<char>>)>) -> Result<Entries, Error>
    decreases es.len(),
{
    if es.len() == 0 {
        Ok(Seq::empty())
    } else {
        match constants_of_entries(es.drop_last()) {
            Err(e) => Err(e),
            Ok(s) => match constant_entry(es.last()) {
                Err(e) => Err(e),
                Ok(c) => add_unique(s, c.0, c.1),
            },
        }
    }
}

/// What loading CSV text gives: its records, each a name and a value.
pub open spec fn h2constants_from_csv(text: Seq<char>) -> Result<Entries, Error> {
    match csv_records_of(text) {
        None => Err(Error::Unparseable),
        Some(recs) => constants_of_records(recs),
    }
}

/// What loading a JSON object gives: its names with their values.
pub open spec fn h2constants_from_json(text: Seq<char>) -> Result<Entries, Error> {
    match json_entries_of(text) {
        None => Err(Error::Unparseable),
        Some(es) => constants_of_entries(es),
    }
}

/// A named collection of constants in which both names and values are
/// unique: each can be found from the other.
#[derive(Debug)]
pub struct H2Constants {
    table: NameTable,
    by_value: NamePatterns,
}

impl View for H2Constants {
    type V = Entries;

    closed spec fn view(&self) -> Entries {
        self.table@
    }
}

/// A result of constants, as a loader returns it.
pub open spec fn same_constants(r: Result<H2Constants, Error>, expected: Result<Entries, Error>) -> bool {
    match expected {
        Ok(s) => r is Ok && r->Ok_0@ == s,
        Err(e) => r is Err && r->Err_0 == e,
    }
}

impl H2Constants {
    /// The invariant: unique names, unique values, and the bimap holding
    /// each name with its value.
    pub closed spec fn wf(&self) -> bool {
        &&& self.table.wf()
        &&& patterns_distinct(self.table@)
        &&& bimap_contents(self.by_value) == patterns(self.table@)
    }

    /// No constants.
    pub fn new_empty() -> (r: Self)
        ensures
            r.wf(),
            r@ == Seq::<(Seq<char>, Integer)>::empty(),
    {
        let by_value = bimap_new();
        assert(bimap_contents(by_value) =~= Map::<Seq<char>, u128>::empty());
        H2Constants { table: NameTable::new(), by_value }
    }

    /// Add a constant (see [`add_unique`]).
    fn add(&mut self, name: &str, value: Integer) -> (r: Result<(), Error>)
        requires
            old(self).wf(),
        ensures
            final(self).wf(),
            match add_unique(old(self)@, name@, value) {
                Ok(s) => r is Ok && final(self)@ == s,
                Err(e) => r == Err::<(), Error>(e) && final(self)@ == old(self)@,
            },
    {
        proof {
            lemma_patterns_dom(self.table@, name@);
            lemma_patterns_values(self.table@, value.spec_as_u128() as u128);
        }
        if self.table.find(name).is_some() {
            return Err(Error::DuplicateName);
        }
        let pattern = value.as_u128();
        if !bimap_insert_no_overwrite(&mut self.by_value, name.to_owned(), pattern) {
            return Err(Error::DuplicateValue);
        }
        let ghost before = self.table@;
        self.table.push(name.to_owned(), value);
        proof {
            assert(self.table@ == before.push((name@, value)));
            assert(self.table@.drop_last() =~= before);
            assert forall|i: int, j: int|
                0 <= i < j < self.table@.len() implies (#[trigger] self.table@[i]).1.spec_as_u128() as u128
                != (#[trigger] self.table@[j]).1.spec_as_u128() as u128 by {
                if j == before.len() {
                    assert(before[i] == self.table@[i]);
                } else {
                    assert(before[i] == self.table@[i] && before[j] == self.table@[j]);
                }
            }
        }
        Ok(())
    }

    /// Build from CSV records: each a name and a value.
    pub fn from_records(records: &Vec<Vec<String>>) -> (r: Result<Self, Error>)
        ensures
            same_constants(r, constants_of_records(records_view(records@))),
            r matches Ok(c) ==> c.wf(),
    {
        let ghost recs = records_view(records@);
        let mut out = Self::new_empty();
        let mut i: usize = 0;
        assert(recs.take(0) =~= Seq::<Seq<Seq<char>>>::empty());
        while i < records.len()
            invariant
                i <= records@.len(),
                recs == records_view(records@),
                out.wf(),
                constants_of_records(recs.take(i as int)) == Ok::<Entries, Error>(out@),
            decreases records@.len() - i,
        {
            assert(recs.take(i + 1).drop_last() =~= recs.take(i as int));
            let rec = &records[i];
            assert(recs.take(i + 1).last() == texts(rec@));
            assert(texts(rec@).len() == rec@.len());
            let result: Result<(), Error> = if rec.len() != 2 {
                Err(Error::BadRecord)
            } else {
                assert(texts(rec@)[0] == rec@[0]@ && texts(rec@)[1] == rec@[1]@);
                match parse_integer(rec[1].as_str()) {
                    Ok(v) => out.add(rec[0].as_str(), v),
                    Err(e) => Err(e),
                }
            };
            if let Err(e) = result {
                proof {
                    lemma_records_stop(recs, i as int + 1);
                }
                return Err(e);
            }
            i = i + 1;
        }
        assert(recs.take(records@.len() as int) =~= recs);
        Ok(out)
    }

    /// Build from mapping entries: each a name and a value.
    pub fn from_entries(entries: &Vec<(String, Option<String>)>) -> (r: Result<Self, Error>)
        ensures
            same_constants(r, constants_of_entries(entries_view(entries@))),
            r matches Ok(c) ==> c.wf(),
    {
        let ghost es = entries_view(entries@);
        let mut out = Self::new_empty();
        let mut i: usize = 0;
        assert(es.take(0) =~= Seq::<(Seq<char>, Option<Seq<char>>)>::empty());
        while i < entries.len()
            invariant
                i <= entries@.len(),
                es == entries_view(entries@),
                out.wf(),
                constants_of_entries(es.take(i as int)) == Ok::<Entries, Error>(out@),
            decreases entries@.len() - i,
        {
            assert(es.take(i + 1).drop_last() =~= es.take(i as int));
            assert(es.take(i + 1).last() == es[i as int]);
            let e = &entries[i];
            let result: Result<(), Error> = match &e.1 {
                None => Err(Error::Unparseable),
                Some(t) => match parse_integer(t.as_str()) {
                    Ok(v) => out.add(e.0.as_str(), v),
                    Err(err) => Err(err),
                },
            };
            if let Err(err) = result {
                proof {
                    lemma_entries_stop(es, i as int + 1);
                }
                return Err(err);
            }
            i = i + 1;
        }
        assert(es.take(entries@.len() as int) =~= es);
        Ok(out)
    }

    /// Load from CSV text: a name and a value per line.
    pub fn load_from_csv_string(data: &str) -> (r: Result<Self, Error>)
        ensures
            same_constants(r, h2constants_from_csv(data@)),
            r matches Ok(c) ==> c.wf(),
    {
        match read_csv_records(data) {
            Ok(records) => Self::from_records(&records),
            Err(e) => Err(e),
        }
    }

    /// Load from a YAML mapping of names to values.
    pub fn load_from_yaml_string(data: &str) -> (r: Result<Self, Error>)
        ensures
            same_constants(r, loaded(yaml_entries_of(data@), |es| constants_of_entries(es))),
            r matches Ok(c) ==> c.wf(),
    {
        match parse_yaml_entries(data) {
            Ok(entries) => Self::from_entries(&entries),
            Err(e) => Err(e),
        }
    }

    /// Load from a JSON object of names to values.
    pub fn load_from_json_string(data: &str) -> (r: Result<Self, Error>)
        ensures
            same_constants(r, h2constants_from_json(data@)),
            r matches Ok(c) ==> c.wf(),
    {
        match parse_json_entries(data) {
            Ok(entries) => Self::from_entries(&entries),
            Err(e) => Err(e),
        }
    }

    /// Write as CSV: a name and a decimal value per line, in the order
    /// added. Loading the text gives back the same names in the same order,
    /// with the same numbers (unless the first name starts with a byte-order
    /// mark, which the reader drops).
    pub fn to_csv(&self) -> (r: Result<String, Error>)
        ensures
            text_result(r) == written(csv_text_of(decimal_rows(self@))),
            r matches Ok(s) ==> (self.wf() && !leads_with_bom(decimal_rows(self@)) ==> (h2constants_from_csv(
                s@,
            ) matches Ok(e) && same_values(e, self@))),
    {
        proof {
            if self.wf() {
                lemma_unique_rows(self@);
            }
        }
        write_csv_rows(&decimal_rows_of(&self.table))
    }

    /// Write as a YAML mapping of names to decimal values.
    pub fn to_yaml(&self) -> (r: Result<String, Error>)
        ensures
            text_result(r) == written(yaml_text_of(decimal_rows(self@))),
    {
        yaml_text(&decimal_rows_of(&self.table))
    }

    /// Write as a JSON object of names to decimal values. Loading the text
    /// gives back the same names with the same numbers, not necessarily in
    /// the same order.
    pub fn to_json(&self) -> (r: Result<String, Error>)
        ensures
            text_result(r) == written(json_text_of(decimal_rows(self@))),
            r matches Ok(s) ==> (self.wf() ==> (h2constants_from_json(s@) matches Ok(e) && same_named_values(
                e,
                self@,
            ))),
    {
        proof {
            if self.wf() {
                lemma_decimal_rows_distinct(self@);
            }
        }
        let r = json_text(&decimal_rows_of(&self.table));
        proof {
            if self.wf() && r is Ok {
                lemma_unique_texts(json_entries_of(r->Ok_0@)->0, self@);
            }
        }
        r
    }

    /// The value with the name.
    pub fn get_by_name(&self, name: &str) -> (r: Option<&Integer>)
        requires
            self.wf(),
        ensures
            match r {
                Some(v) => exists|i: int| 0 <= i < self@.len() && (#[trigger] self@[i]).0 == name@ && self@[i].1 == *v,
                None => !has_name(self@, name@),
            },
    {
        match self.table.find(name) {
            Some(i) => {
                let e = self.table.entry(i);
                assert(self@[i as int].0 == name@ && self@[i as int].1 == e.1);
                Some(&e.1)
            },
            None => None,
        }
    }

    /// The name of the constant whose value equals the given one (values are
    /// equal when their 128-bit patterns are).
    pub fn get_by_value(&self, value: &Integer) -> (r: Option<String>)
        requires
            self.wf(),
        ensures
            match r {
                Some(n) => exists|i: int|
                    0 <= i < self@.len() && (#[trigger] self@[i]).0 == n@ && self@[i].1.spec_as_u128() as u128
                        == value.spec_as_u128() as u128,
                None => !has_pattern(self@, value.spec_as_u128() as u128),
            },
    {
        let pattern = value.as_u128();
        assert(pattern == value.spec_as_u128() as u128);
        let r = bimap_get_by_right(&self.by_value, pattern);
        proof {
            if r is Some {
                let n = r->0@;
                lemma_patterns_entry(self.table@, n);
                let i = choose|i: int|
                    0 <= i < self.table@.len() && (#[trigger] self.table@[i]).0 == n
                        && self.table@[i].1.spec_as_u128() as u128 == patterns(self.table@)[n];
                assert(self@[i].0 == n && self@[i].1.spec_as_u128() as u128 == value.spec_as_u128() as u128);
            } else {
                lemma_patterns_values(self.table@, pattern);
            }
        }
        r
    }

    /// The number of constants.
    pub fn len(&self) -> (r: usize)
        ensures
            r == self@.len(),
    {
        self.table.len()
    }
}

/// The names of the pattern map are those of the entries.
proof fn lemma_patterns_dom(s: Entries, name: Seq<char>)
    ensures
        patterns(s).dom().contains(name) <==> has_name(s, name),
    decreases s.len(),
{
    if s.len() > 0 {
        lemma_patterns_dom(s.drop_last(), name);
        if has_name(s.drop_last(), name) {
            let i = choose|i: int| 0 <= i < s.drop_last().len() && (#[trigger] s.drop_last()[i]).0 == name;
            assert(s[i] == s.drop_last()[i]);
        }
        if has_name(s, name) && s.last().0 != name {
            let i = choose|i: int| 0 <= i < s.len() && (#[trigger] s[i]).0 == name;
            assert(i < s.len() - 1);
            assert(s.drop_last()[i] == s[i]);
        }
        if s.last().0 == name {
            assert(s[s.len() - 1].0 == name);
        }
    }
}

/// With unique names and values, a value lies in the pattern map exactly
/// when an entry has it.
proof fn lemma_patterns_values(s: Entries, v: u128)
    requires
        names_distinct(s),
    ensures
        (exists|k: Seq<char>| #[trigger] patterns(s).dom().contains(k) && patterns(s)[k] == v) <==> has_pattern(s, v),
    decreases s.len(),
{
    if s.len() > 0 {
        let p = s.drop_last();
        assert forall|i: int, j: int| 0 <= i < j < p.len() implies (#[trigger] p[i]).0 != (#[trigger] p[j]).0 by {
            assert(p[i] == s[i] && p[j] == s[j]);
        }
        lemma_patterns_values(p, v);
        lemma_patterns_dom(p, s.last().0);
        if has_name(p, s.last().0) {
            let i = choose|i: int| 0 <= i < p.len() && (#[trigger] p[i]).0 == s.last().0;
            assert(p[i] == s[i]);
            assert(s[i].0 != s[s.len() - 1].0);
        }
        if has_pattern(s, v) {
            let i = choose|i: int| 0 <= i < s.len() && (#[trigger] s[i]).1.spec_as_u128() as u128 == v;
            if i == s.len() - 1 {
                assert(patterns(s).dom().contains(s.last().0) && patterns(s)[s.last().0] == v);
            } else {
                assert(p[i] == s[i]);
                assert(has_pattern(p, v));
                let k = choose|k: Seq<char>| #[trigger] patterns(p).dom().contains(k) && patterns(p)[k] == v;
                if k == s.last().0 {
                    assert(patterns(s)[k] == s.last().1.spec_as_u128() as u128);
                } else {
                    assert(patterns(s).dom().contains(k) && patterns(s)[k] == v);
                }
            }
        }
        if exists|k: Seq<char>| #[trigger] patterns(s).dom().contains(k) && patterns(s)[k] == v {
            let k = choose|k: Seq<char>| #[trigger] patterns(s).dom().contains(k) && patterns(s)[k] == v;
            if k == s.last().0 {
                assert(s[s.len() - 1].1.spec_as_u128() as u128 == v);
            } else {
                assert(patterns(p).dom().contains(k) && patterns(p)[k] == v);
                let i = choose|i: int| 0 <= i < p.len() && (#[trigger] p[i]).1.spec_as_u128() as u128 == v;
                assert(s[i] == p[i]);
            }
        }
    }
}

/// A name in the pattern map is an entry's, with that entry's value.
proof fn lemma_patterns_entry(s: Entries, name: Seq<char>)
    requires
        patterns(s).dom().contains(name),
    ensures
        exists|i: int| 0 <= i < s.len() && (#[trigger] s[i]).0 == name && s[i].1.spec_as_u128() as u128 == patterns(s)[name],
    decreases s.len(),
{
    let p = s.drop_last();
    if s.last().0 == name {
        assert(s[s.len() - 1].0 == name);
    } else {
        lemma_patterns_entry(p, name);
        let i = choose|i: int| 0 <= i < p.len() && (#[trigger] p[i]).0 == name && p[i].1.spec_as_u128() as u128 == patterns(p)[name];
        assert(s[i] == p[i]);
    }
}

/// A failure among the first records is the failure of all of them.
proof fn lemma_records_stop(recs: Seq<Seq<Seq<char>>>, k: int)
    requires
        0 <= k <= recs.len(),
        constants_of_records(recs.take(k)) is Err,
    ensures
        constants_of_records(recs) == constants_of_records(recs.take(k)),
    decreases recs.len() - k,
{
    if k < recs.len() {
        assert(recs.take(k + 1).drop_last() =~= recs.take(k));
        lemma_records_stop(recs, k + 1);
    } else {
        assert(recs.take(k) =~= recs);
    }
}

/// A failure among the first entries is the failure of all of them.
proof fn lemma_entries_stop(es: Seq<(Seq<char>, Option<Seq<char>>)>, k: int)
    requires
        0 <= k <= es.len(),
        constants_of_entries(es.take(k)) is Err,
    ensures
        constants_of_entries(es) == constants_of_entries(es.take(k)),
    decreases es.len() - k,
{
    if k < es.len() {
        assert(es.take(k + 1).drop_last() =~= es.take(k));
        lemma_entries_stop(es, k + 1);
    } else {
        assert(es.take(k) =~= es);
    }
}


/// Constants with distinct names and values, written as decimal rows and
/// loaded again, give the same names in the same order with the same
/// numbers.
proof fn lemma_unique_rows(s: Entries)
    requires
        names_distinct(s),
        patterns_distinct(s),
    ensures
        constants_of_records(row_records(decimal_rows(s))) matches Ok(e) && same_values(e, s),
    decreases s.len(),
{
    if s.len() > 0 {
        let front = s.drop_last();
        assert forall|i: int, j: int| 0 <= i < j < front.len() implies (#[trigger] front[i]).0 != (#[trigger] front[j]).0 by {
            assert(front[i] == s[i] && front[j] == s[j]);
        }
        assert forall|i: int, j: int| 0 <= i < j < front.len() implies (#[trigger] front[i]).1.spec_as_u128() as u128
            != (#[trigger] front[j]).1.spec_as_u128() as u128 by {
            assert(front[i] == s[i] && front[j] == s[j]);
        }
        lemma_unique_rows(front);
        let recs = row_records(decimal_rows(s));
        assert(recs.drop_last() =~= row_records(decimal_rows(front)));
        let e = constants_of_records(recs.drop_last())->Ok_0;
        let last = s[s.len() - 1];
        assert(s.last() == last);
        lemma_decimal_parses(last.1);
        let w = parse_text(decimal_text(last.1.value()))->0;
        assert(recs.last() == seq![last.0, decimal_text(last.1.value())]);
        assert(constant_record(recs.last()) == Ok::<(Seq<char>, Integer), Error>((last.0, w)));
        if has_name(e, last.0) {
            let k = choose|k: int| 0 <= k < e.len() && (#[trigger] e[k]).0 == last.0;
            assert(front[k] == s[k]);
        }
        if has_pattern(e, w.spec_as_u128() as u128) {
            let k = choose|k: int| 0 <= k < e.len() && (#[trigger] e[k]).1.spec_as_u128() as u128 == w.spec_as_u128() as u128;
            assert(front[k] == s[k]);
            assert(e[k].1.value() == s[k].1.value());
        }
        let full = e.push((last.0, w));
        assert(constants_of_records(recs) == Ok::<Entries, Error>(full));
        assert forall|i: int| 0 <= i < full.len() implies (#[trigger] full[i]).0 == s[i].0 && full[i].1.value() == s[i].1.value() by {
            if i < front.len() {
                assert(full[i] == e[i]);
                assert(front[i] == s[i]);
            }
        }
    }
}

/// The constant that a mapping entry holding a decimal value stands for.
pub open spec fn constant_of_entry(e: (Seq<char>, Option<Seq<char>>)) -> (Seq<char>, Integer) {
    (e.0, parse_text(e.1->0)->0)
}

/// Each entry read back from a mapping of constants stands for one of
/// them, with a value of the same number.
proof fn lemma_entry_is_constant(es: Seq<(Seq<char>, Option<Seq<char>>)>, s: Entries, j: int)
    requires
        holds_pairs(es, decimal_rows(s)),
        0 <= j < es.len(),
    ensures
        exists|i: int|
            0 <= i < s.len() && es[j] == (s[i].0, Some(decimal_text(s[i].1.value()))) && constant_of_entry(es[j]).1.value()
                == s[i].1.value(),
        constant_entry(es[j]) == Ok::<(Seq<char>, Integer), Error>(constant_of_entry(es[j])),
{
    let rows = decimal_rows(s);
    let i = choose|i: int| 0 <= i < rows.len() && es[j] == (#[trigger] rows[i].0, Some(rows[i].1));
    lemma_decimal_parses(s[i].1);
    assert(rows[i] == (s[i].0, decimal_text(s[i].1.value())));
}

/// The first `k` entries read back from a mapping of constants with
/// distinct names and values load as the constants they stand for.
proof fn lemma_unique_texts_prefix(es: Seq<(Seq<char>, Option<Seq<char>>)>, s: Entries, k: int)
    requires
        names_distinct(s),
        patterns_distinct(s),
        holds_pairs(es, decimal_rows(s)),
        0 <= k <= es.len(),
    ensures
        constants_of_entries(es.take(k)) == Ok::<Entries, Error>(
            es.take(k).map_values(|e: (Seq<char>, Option<Seq<char>>)| constant_of_entry(e)),
        ),
    decreases k,
{
    let f = |e: (Seq<char>, Option<Seq<char>>)| constant_of_entry(e);
    if k > 0 {
        lemma_unique_texts_prefix(es, s, k - 1);
        let pre = es.take(k);
        assert(pre.drop_last() =~= es.take(k - 1));
        assert(pre.last() == es[k - 1]);
        let cs = es.take(k - 1).map_values(f);
        lemma_entry_is_constant(es, s, k - 1);
        let i = choose|i: int|
            0 <= i < s.len() && es[k - 1] == (s[i].0, Some(decimal_text(s[i].1.value()))) && constant_of_entry(es[k - 1]).1.value()
                == s[i].1.value();
        let c = constant_of_entry(es[k - 1]);
        if has_name(cs, c.0) {
            let m = choose|m: int| 0 <= m < cs.len() && (#[trigger] cs[m]).0 == c.0;
            assert(cs[m].0 == es[m].0);
        }
        if has_pattern(cs, c.1.spec_as_u128() as u128) {
            let m = choose|m: int| 0 <= m < cs.len() && (#[trigger] cs[m]).1.spec_as_u128() as u128 == c.1.spec_as_u128() as u128;
            lemma_entry_is_constant(es, s, m);
            let im = choose|im: int|
                0 <= im < s.len() && es[m] == (s[im].0, Some(decimal_text(s[im].1.value()))) && constant_of_entry(es[m]).1.value()
                    == s[im].1.value();
            assert(cs[m] == constant_of_entry(es[m]));
            assert(es[m].0 != es[k - 1].0);
            assert(im != i);
        }
        assert(pre.map_values(f) =~= cs.push(c));
    } else {
        assert(es.take(k).map_values(f) =~= Seq::<(Seq<char>, Integer)>::empty());
    }
}

/// Constants with distinct names and values, written as a mapping of names
/// to decimal values and read back in any order, load as the same names
/// with the same numbers.
proof fn lemma_unique_texts(es: Seq<(Seq<char>, Option<Seq<char>>)>, s: Entries)
    requires
        names_distinct(s),
        patterns_distinct(s),
        holds_pairs(es, decimal_rows(s)),
    ensures
        constants_of_entries(es) matches Ok(e) && same_named_values(e, s),
{
    lemma_unique_texts_prefix(es, s, es.len() as int);
    assert(es.take(es.len() as int) =~= es);
    let f = |e: (Seq<char>, Option<Seq<char>>)| constant_of_entry(e);
    let e = es.map_values(f);
    lemma_mapping_same(s, es, e);
}

} // verus!
