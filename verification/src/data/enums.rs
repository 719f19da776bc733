use vstd::prelude::*;

use crate::data::entries::{
    autovalue, autovalue_of, csv_values, decimal_rows, decimal_rows_of, lemma_csv_values_rows,
    lemma_decimal_rows_distinct, lemma_decimal_rows_reload, lemma_mapping_reload, loaded,
    pair_has_name, same_named_values, same_values,
    pairs_contain, pairs_of_entries, present_pairs, same_outcome, strict_from_pairs,
    table_from_pairs, text_result, values_from_records, values_view, written, Entries,
};
use crate::data::formats::{
    csv_records_of, csv_text_of, leads_with_bom, row_records, json_entries_of, json_text, json_text_of, pairs_view,
    parse_json_entries, parse_ron_pairs, parse_yaml_entries, read_csv_records, records_view,
    ron_pairs_of, ron_text, ron_text_of, write_csv_rows, yaml_entries_of, yaml_text,
    yaml_text_of,
};
use crate::data::table::{lemma_names_of_value_iff, same_integer, lemma_names_of_value_distinct, names_distinct, names_of_value, texts, value_of, NameTable};
use crate::error::Error;
use crate::number::format::{decimal_text, DefaultFormatter, IntegerRendererImpl};
use crate::number::integer::Integer;

verus! {

/// The value that follows the last one given, or a `U32` zero when there
/// was none; `None` on overflow.
pub open spec fn following(last: Option<Integer>) -> Option<Integer> {
    match last {
        None => Some(Integer::U32(0)),
        Some(i) => i.next(),
    }
}

/// The first step of loading an enumeration: a missing value is the one
/// after the previous value ([`Error::Overflow`] past its type's largest),
/// and every name must be new ([`Error::DuplicateName`]); gives each name
/// with its value in decimal, and the last value.
pub open spec fn enum_valued_pairs(data: Seq<(Seq<char>, Option<Integer>)>) -> Result<(Seq<(Seq<char>, Seq<char>)>, Option<Integer>), Error>
    decreases data.len(),
{
    if data.len() == 0 {
        Ok((Seq::empty(), None))
    } else {
        match enum_valued_pairs(data.drop_last()) {
            Err(e) => Err(e),
            Ok((ps, last)) => {
                let value = match data.last().1 {
                    Some(v) => Some(v),
                    None => following(last),
                };
                match value {
                    None => Err(Error::Overflow),
                    Some(v) => if pair_has_name(ps, data.last().0) {
                        Err(Error::DuplicateName)
                    } else {
                        Ok((ps.push((data.last().0, decimal_text(v.value()))), Some(v)))
                    },
                }
            },
        }
    }
}

/// Loading an enumeration: the first step, then the decimal texts read
/// back.
pub open spec fn enums_from_values(data: Seq<(Seq<char>, Option<Integer>)>) -> Result<Entries, Error> {
    match enum_valued_pairs(data) {
        Err(e) => Err(e),
        Ok((ps, _)) => strict_from_pairs(ps),
    }
}

/// What loading CSV text gives: its records, each a name and an optional
/// value.
pub open spec fn enums_from_csv(text: Seq<char>) -> Result<Entries, Error> {
    match csv_records_of(text) {
        None => Err(Error::Unparseable),
        Some(recs) => match csv_values(recs) {
            Err(e) => Err(e),
            Ok(vs) => enums_from_values(vs),
        },
    }
}

/// What loading a JSON object gives: its names with their values.
pub open spec fn enums_from_json(text: Seq<char>) -> Result<Entries, Error> {
    match json_entries_of(text) {
        None => Err(Error::Unparseable),
        Some(es) => match present_pairs(es) {
            Err(e) => Err(e),
            Ok(ps) => strict_from_pairs(ps),
        },
    }
}

/// An enumeration - a list of named values, where a value left out is the
/// one after the previous (zero for the first), as in C.
///
/// Names are unique; values need not be.
#[derive(Debug)]
pub struct Enums {
    table: NameTable,
}

impl View for Enums {
    type V = Entries;

    closed spec fn view(&self) -> Entries {
        self.table@
    }
}

impl Enums {
    /// The invariant: names are unique.
    #[verifier::type_invariant]
    pub closed spec fn wf(&self) -> bool {
        self.table.wf()
    }

    fn new_empty() -> (r: Self)
        ensures
            r@ == Seq::<(Seq<char>, Integer)>::empty(),
    {
        Enums { table: NameTable::new() }
    }

    /// The value an entry without one would get next (does not change
    /// anything).
    fn autovalue(&self) -> (r: Result<Integer, Error>)
        ensures
            match autovalue_of(self@) {
                Some(v) => r == Ok::<Integer, Error>(v),
                None => r == Err::<Integer, Error>(Error::Overflow),
            },
    {
        autovalue(&self.table)
    }

    /// The value with the given name.
    pub fn get_by_name(&self, name: &str) -> (r: Option<&Integer>)
        ensures
            r matches Some(v) ==> value_of(self@, name@) == Some(*v),
            r is None ==> value_of(self@, name@) is None,
    {
        self.table.get_by_name(name)
    }

    /// The names with the given value, in the order they were added; `None`
    /// when there are none.
    pub fn get_by_value(&self, value: &Integer) -> (r: Option<Vec<String>>)
        ensures
            r is None <==> names_of_value(self@, *value).len() == 0,
            r matches Some(v) ==> texts(v@) == names_of_value(self@, *value),
            r matches Some(v) ==> texts(v@).no_duplicates(),
            r matches Some(v) ==> forall|n: Seq<char>|
                #[trigger] texts(v@).contains(n) <==> (value_of(self@, n) matches Some(w) && same_integer(w, *value)),
            r is None ==> forall|n: Seq<char>|
                !(#[trigger] value_of(self@, n) matches Some(w) && same_integer(w, *value)),
    {
        proof {
            use_type_invariant(self);
            lemma_names_of_value_distinct(self@, *value);
            assert forall|n: Seq<char>|
                #[trigger] names_of_value(self@, *value).contains(n) <==> (value_of(self@, n) matches Some(w)
                    && same_integer(w, *value)) by {
                lemma_names_of_value_iff(self@, *value, n);
            }
            assert forall|n: Seq<char>|
                names_of_value(self@, *value).len() == 0 implies !(#[trigger] value_of(self@, n) matches Some(w)
                    && same_integer(w, *value)) by {
                lemma_names_of_value_iff(self@, *value, n);
                assert(!names_of_value(self@, *value).contains(n));
            }
        }
        let names = self.table.names_with_value(value);
        if names.len() == 0 {
            None
        } else {
            Some(names)
        }
    }

    /// Every entry, in the order added.
    pub fn list(&self) -> (r: Vec<(String, Integer)>)
        ensures
            r@.map_values(|e: (String, Integer)| (e.0@, e.1)) == self@,
            names_distinct(self@),
    {
        proof {
            use_type_invariant(self);
        }
        self.table.list()
    }

    /// The number of entries.
    pub fn len(&self) -> (r: usize)
        ensures
            r == self@.len(),
    {
        self.table.len()
    }

    /// Load from (name, value text) pairs.
    pub fn load(data: &Vec<(String, String)>) -> (r: Result<Self, Error>)
        ensures
            same_outcome(r, strict_from_pairs(pairs_view(data@))),
    {
        match table_from_pairs(data) {
            Ok(table) => Ok(Enums { table }),
            Err(e) => Err(e),
        }
    }

    /// Load from (name, optional value) pairs, numbering the missing values.
    pub fn load_str(data: Vec<(String, Option<Integer>)>) -> (r: Result<Self, Error>)
        ensures
            same_outcome(r, enums_from_values(values_view(data@))),
    {
        let ghost ds = values_view(data@);
        let f = DefaultFormatter::new();
        let mut pairs: Vec<(String, String)> = Vec::new();
        let mut last: Option<Integer> = None;
        let mut i: usize = 0;
        while i < data.len()
            invariant
                i <= data@.len(),
                ds == values_view(data@),
                enum_valued_pairs(ds.take(i as int)) matches Ok((ps, l)) && pairs_view(pairs@)
                    == ps && last == l,
            decreases data@.len() - i,
        {
            assert(ds.take(i + 1).drop_last() =~= ds.take(i as int));
            assert(ds.take(i + 1).last() == ds[i as int]);
            let value = match data[i].1 {
                Some(v) => v,
                None => {
                    let next = match last {
                        None => Some(Integer::U32(0)),
                        Some(l) => l.increment(),
                    };
                    match next {
                        Some(v) => v,
                        None => {
                            proof {
                                lemma_enum_valued_stops(ds, i as int + 1);
                            }
                            return Err(Error::Overflow);
                        },
                    }
                },
            };
            if pairs_contain(&pairs, &data[i].0) {
                proof {
                    lemma_enum_valued_stops(ds, i as int + 1);
                }
                return Err(Error::DuplicateName);
            }
            last = Some(value);
            let text = f.render_integer(value);
            pairs.push((data[i].0.clone(), text));
            i = i + 1;
            assert(pairs_view(pairs@) =~= enum_valued_pairs(ds.take(i as int))->Ok_0.0);
        }
        assert(ds.take(data@.len() as int) =~= ds);
        Self::load(&pairs)
    }

    /// Each entry as its name and decimal value, in the order added.
    pub fn save(&self) -> (r: Vec<(String, String)>)
        ensures
            pairs_view(r@) == decimal_rows(self@),
    {
        decimal_rows_of(&self.table)
    }

    /// Every entry, in the order added.
    pub fn save_str(&self) -> (r: Vec<(String, Integer)>)
        ensures
            r@.map_values(|e: (String, Integer)| (e.0@, e.1)) == self@,
    {
        self.table.list()
    }

    /// Load from CSV records: a name and an optional value each.
    pub fn load_records(records: &Vec<Vec<String>>) -> (r: Result<Self, Error>)
        ensures
            same_outcome(
                r,
                match csv_values(records_view(records@)) {
                    Err(e) => Err(e),
                    Ok(vs) => enums_from_values(vs),
                },
            ),
    {
        match values_from_records(records) {
            Ok(values) => Self::load_str(values),
            Err(e) => Err(e),
        }
    }

    /// Load from CSV text: a name and an optional value per line.
    pub fn load_from_csv_string(data: &str) -> (r: Result<Self, Error>)
        ensures
            same_outcome(r, enums_from_csv(data@)),
    {
        match read_csv_records(data) {
            Ok(records) => Self::load_records(&records),
            Err(e) => Err(e),
        }
    }

    /// Load from a YAML mapping of names to values.
    pub fn load_from_yaml_string(data: &str) -> (r: Result<Self, Error>)
        ensures
            same_outcome(
                r,
                loaded(
                    yaml_entries_of(data@),
                    |es|
                        match present_pairs(es) {
                            Err(e) => Err(e),
                            Ok(ps) => strict_from_pairs(ps),
                        },
                ),
            ),
    {
        match parse_yaml_entries(data) {
            Ok(entries) => match pairs_of_entries(entries) {
                Ok(pairs) => Self::load(&pairs),
                Err(e) => Err(e),
            },
            Err(e) => Err(e),
        }
    }

    /// Load from a JSON object of names to values.
    pub fn load_from_json_string(data: &str) -> (r: Result<Self, Error>)
        ensures
            same_outcome(r, enums_from_json(data@)),
    {
        match parse_json_entries(data) {
            Ok(entries) => match pairs_of_entries(entries) {
                Ok(pairs) => Self::load(&pairs),
                Err(e) => Err(e),
            },
            Err(e) => Err(e),
        }
    }

    /// Load from a RON map of names to values.
    pub fn load_from_ron_string(data: &str) -> (r: Result<Self, Error>)
        ensures
            same_outcome(r, loaded(ron_pairs_of(data@), |ps| strict_from_pairs(ps))),
    {
        match parse_ron_pairs(data) {
            Ok(pairs) => Self::load(&pairs),
            Err(e) => Err(e),
        }
    }

    /// Write as CSV: a name and a decimal value per line. Loading the text
    /// gives back the same names in the same order, with the same numbers
    /// (unless the first name starts with a byte-order mark, which the
    /// reader drops).
    pub fn to_csv(&self) -> (r: Result<String, Error>)
        ensures
            text_result(r) == written(csv_text_of(decimal_rows(self@))),
            r matches Ok(s) ==> (!leads_with_bom(decimal_rows(self@)) ==> (enums_from_csv(s@) matches Ok(e)
                && same_values(e, self@))),
    {
        proof {
            use_type_invariant(self);
        }
        let r = write_csv_rows(&self.save());
        proof {
            lemma_csv_values_rows(self@);
            let vs = csv_values(row_records(decimal_rows(self@)))->Ok_0;
            lemma_enum_valued_rows(vs, self@);
            lemma_decimal_rows_reload(self@);
        }
        r
    }

    /// Write as a YAML mapping of names to decimal values.
    pub fn to_yaml(&self) -> (r: Result<String, Error>)
        ensures
            text_result(r) == written(yaml_text_of(decimal_rows(self@))),
    {
        yaml_text(&self.save())
    }

    /// Write as a JSON object of names to decimal values. Loading the text
    /// gives back the same names with the same numbers, not necessarily in
    /// the same order.
    pub fn to_json(&self) -> (r: Result<String, Error>)
        ensures
            text_result(r) == written(json_text_of(decimal_rows(self@))),
            r matches Ok(s) ==> (enums_from_json(s@) matches Ok(e) && same_named_values(e, self@)),
    {
        proof {
            use_type_invariant(self);
            lemma_decimal_rows_distinct(self@);
        }
        let r = json_text(&self.save());
        proof {
            if r is Ok {
                lemma_mapping_reload(self@, json_entries_of(r->Ok_0@)->0);
            }
        }
        r
    }

    /// Write as a RON map of names to decimal values.
    pub fn to_ron(&self) -> (r: Result<String, Error>)
        ensures
            text_result(r) == written(ron_text_of(decimal_rows(self@))),
    {
        ron_text(&self.save())
    }
}

/// A failure among the first values is the failure of all of them.
pub proof fn lemma_enum_valued_stops(ds: Seq<(Seq<char>, Option<Integer>)>, k: int)
    requires
        0 <= k <= ds.len(),
        enum_valued_pairs(ds.take(k)) is Err,
    ensures
        enum_valued_pairs(ds) == enum_valued_pairs(ds.take(k)),
    decreases ds.len() - k,
{
    if k < ds.len() {
        assert(ds.take(k + 1).drop_last() =~= ds.take(k));
        lemma_enum_valued_stops(ds, k + 1);
    } else {
        assert(ds.take(k) =~= ds);
    }
}


/// Values that are all given, parse back to the same numbers and have
/// distinct names give back the decimal rows they were read from.
proof fn lemma_enum_valued_rows(vs: Seq<(Seq<char>, Option<Integer>)>, s: Entries)
    requires
        names_distinct(s),
        vs.len() == s.len(),
        forall|i: int|
            0 <= i < s.len() ==> (#[trigger] vs[i]).0 == s[i].0 && (vs[i].1 matches Some(w) && w.value()
                == s[i].1.value()),
    ensures
        enum_valued_pairs(vs) matches Ok((ps, _)) && ps == decimal_rows(s),
    decreases s.len(),
{
    if s.len() > 0 {
        let front = s.drop_last();
        let vfront = vs.drop_last();
        assert forall|i: int| 0 <= i < front.len() implies (#[trigger] vfront[i]).0 == front[i].0 && (vfront[i].1 matches Some(w)
            && w.value() == front[i].1.value()) by {
            assert(vfront[i] == vs[i] && front[i] == s[i]);
        }
        assert forall|i: int, j: int| 0 <= i < j < front.len() implies (#[trigger] front[i]).0 != (#[trigger] front[j]).0 by {
            assert(front[i] == s[i] && front[j] == s[j]);
        }
        lemma_enum_valued_rows(vfront, front);
        let ps = decimal_rows(front);
        let last = vs[vs.len() - 1];
        assert(last.0 == s[s.len() - 1].0);
        assert(last.1 matches Some(w) && w.value() == s[s.len() - 1].1.value());
        assert(vs.last() == last);
        if pair_has_name(ps, last.0) {
            let k = choose|k: int| 0 <= k < ps.len() && (#[trigger] ps[k]).0 == last.0;
            assert(ps[k].0 == s[k].0);
        }
        assert(enum_valued_pairs(vs)->Ok_0.0 == ps.push((last.0, decimal_text(last.1->0.value()))));
        assert(decimal_rows(s) =~= ps.push((last.0, decimal_text(last.1->0.value()))));
    } else {
        assert(decimal_rows(s) =~= Seq::<(Seq<char>, Seq<char>)>::empty());
    }
}

} // verus!
