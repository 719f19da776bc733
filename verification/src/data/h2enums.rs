use vstd::prelude::*;

use crate::data::entries::{
    add_auto, add_auto_entry, auto_from_records, auto_from_texts, autovalue, autovalue_of,
    decimal_rows, decimal_rows_of, lemma_auto_rows, lemma_decimal_rows_distinct,
    lemma_mapping_reload_auto, loaded, same_named_values, same_values, same_outcome, text_result, written, table_from_records, table_from_texts, Entries,
};
use crate::data::formats::{
    csv_records_of, csv_text_of, leads_with_bom, json_entries_of, json_text, json_text_of, parse_json_entries,
    parse_yaml_entries, read_csv_records, records_view, write_csv_rows, yaml_entries_of,
    yaml_text, yaml_text_of,
};
use crate::data::table::{lemma_names_of_value_iff, same_integer, names_distinct, lemma_names_of_value_distinct, names_of_value, texts, value_of, NameTable};
use crate::error::Error;
use crate::number::integer::Integer;

verus! {

/// What loading CSV text gives: its records, each a name and an optional
/// value, numbered automatically where the value is left out.
pub open spec fn h2enums_from_csv(text: Seq<char>) -> Result<Entries, Error> {
    match csv_records_of(text) {
        None => Err(Error::Unparseable),
        Some(recs) => auto_from_records(recs),
    }
}

/// What loading a JSON object gives: its names with their values, numbered
/// automatically where the value is null.
pub open spec fn h2enums_from_json(text: Seq<char>) -> Result<Entries, Error> {
    match json_entries_of(text) {
        None => Err(Error::Unparseable),
        Some(es) => auto_from_texts(es),
    }
}

/// An enumeration: names with values, where the names are unique but the
/// values need not be.
///
/// A value left out is assigned automatically, the way C does: zero for the
/// first entry, otherwise one more than the previous value.
#[derive(Debug)]
pub struct H2Enums {
    table: NameTable,
}

impl View for H2Enums {
    type V = Entries;

    closed spec fn view(&self) -> Entries {
        self.table@
    }
}

impl H2Enums {
    /// The invariant: names are unique.
    #[verifier::type_invariant]
    pub closed spec fn wf(&self) -> bool {
        self.table.wf()
    }

    fn new_empty() -> (r: Self)
        ensures
            r@ == Seq::<(Seq<char>, Integer)>::empty(),
            r.wf(),
    {
        H2Enums { table: NameTable::new() }
    }

    /// The value an entry without one would get next.
    fn autovalue(&self) -> (r: Result<Integer, Error>)
        ensures
            match autovalue_of(self@) {
                Some(v) => r == Ok::<Integer, Error>(v),
                None => r == Err::<Integer, Error>(Error::Overflow),
            },
    {
        autovalue(&self.table)
    }

    /// Add an entry; without a value it is numbered automatically.
    fn add_entry(&mut self, name: &str, value: Option<Integer>) -> (r: Result<(), Error>)
        ensures
            match add_auto(old(self)@, name@, value) {
                Ok(s) => r is Ok && final(self)@ == s,
                Err(e) => r == Err::<(), Error>(e) && final(self)@ == old(self)@,
            },
    {
        proof {
            use_type_invariant(&*self);
        }
        let mut table = NameTable::new();
        std::mem::swap(&mut table, &mut self.table);
        let r = add_auto_entry(&mut table, name.to_owned(), value);
        self.table = table;
        r
    }

    /// Build from CSV records: each a name and an optional value.
    pub fn load_records(records: &Vec<Vec<String>>) -> (r: Result<Self, Error>)
        ensures
            same_outcome(r, auto_from_records(records_view(records@))),
            r matches Ok(t) ==> t.wf(),
    {
        match table_from_records(records) {
            Ok(table) => Ok(H2Enums { table }),
            Err(e) => Err(e),
        }
    }

    /// Load from CSV text: one entry per line, a name and an optional value.
    pub fn load_from_csv_string(data: &str) -> (r: Result<Self, Error>)
        ensures
            same_outcome(r, h2enums_from_csv(data@)),
            r matches Ok(t) ==> t.wf(),
    {
        match read_csv_records(data) {
            Ok(records) => Self::load_records(&records),
            Err(e) => Err(e),
        }
    }

    /// Load from a YAML mapping of names to values (or nulls, numbered
    /// automatically, in the order of the names).
    pub fn load_from_yaml_string(data: &str) -> (r: Result<Self, Error>)
        ensures
            same_outcome(r, loaded(yaml_entries_of(data@), |es| auto_from_texts(es))),
            r matches Ok(t) ==> t.wf(),
    {
        match parse_yaml_entries(data) {
            Ok(entries) => match table_from_texts(&entries) {
                Ok(table) => Ok(H2Enums { table }),
                Err(e) => Err(e),
            },
            Err(e) => Err(e),
        }
    }

    /// Load from a JSON object of names to values (or nulls, numbered
    /// automatically, in the order of the names).
    pub fn load_from_json_string(data: &str) -> (r: Result<Self, Error>)
        ensures
            same_outcome(r, h2enums_from_json(data@)),
            r matches Ok(t) ==> t.wf(),
    {
        match parse_json_entries(data) {
            Ok(entries) => match table_from_texts(&entries) {
                Ok(table) => Ok(H2Enums { table }),
                Err(e) => Err(e),
            },
            Err(e) => Err(e),
        }
    }

    /// Write as CSV: a name and a decimal value per line, in the order added.
    /// Loading the text gives back the same names in the same order, with
    /// the same numbers (unless the first name starts with a byte-order
    /// mark, which the reader drops).
    pub fn to_csv(&self) -> (r: Result<String, Error>)
        ensures
            text_result(r) == written(csv_text_of(decimal_rows(self@))),
            r matches Ok(s) ==> (!leads_with_bom(decimal_rows(self@)) ==> (h2enums_from_csv(s@) matches Ok(
                e,
            ) && same_values(e, self@))),
    {
        proof {
            use_type_invariant(self);
            lemma_auto_rows(self@);
        }
        let rows = decimal_rows_of(&self.table);
        write_csv_rows(&rows)
    }

    /// Write as a YAML mapping of names to decimal values.
    pub fn to_yaml(&self) -> (r: Result<String, Error>)
        ensures
            text_result(r) == written(yaml_text_of(decimal_rows(self@))),
    {
        let rows = decimal_rows_of(&self.table);
        yaml_text(&rows)
    }

    /// Write as a JSON object of names to decimal values. Loading the text
    /// gives back the same names with the same numbers, not necessarily in
    /// the same order.
    pub fn to_json(&self) -> (r: Result<String, Error>)
        ensures
            text_result(r) == written(json_text_of(decimal_rows(self@))),
            r matches Ok(s) ==> (h2enums_from_json(s@) matches Ok(e) && same_named_values(e, self@)),
    {
        proof {
            use_type_invariant(self);
            lemma_decimal_rows_distinct(self@);
        }
        let rows = decimal_rows_of(&self.table);
        let r = json_text(&rows);
        proof {
            if r is Ok {
                lemma_mapping_reload_auto(self@, json_entries_of(r->Ok_0@)->0);
            }
        }
        r
    }

    /// The value with the given name.
    pub fn get_by_name(&self, name: &str) -> (r: Option<&Integer>)
        ensures
            r matches Some(v) ==> value_of(self@, name@) == Some(*v),
            r is None ==> value_of(self@, name@) is None,
    {
        self.table.get_by_name(name)
    }

    /// The names with the given value, in the order they were added; `None`
    /// when there are none.
    pub fn get_by_value(&self, value: &Integer) -> (r: Option<Vec<String>>)
        ensures
            r is None <==> names_of_value(self@, *value).len() == 0,
            r matches Some(v) ==> texts(v@) == names_of_value(self@, *value),
            r matches Some(v) ==> texts(v@).no_duplicates(),
            r matches Some(v) ==> forall|n: Seq<char>|
                #[trigger] texts(v@).contains(n) <==> (value_of(self@, n) matches Some(w) && same_integer(w, *value)),
            r is None ==> forall|n: Seq<char>|
                !(#[trigger] value_of(self@, n) matches Some(w) && same_integer(w, *value)),
    {
        proof {
            use_type_invariant(self);
            lemma_names_of_value_distinct(self@, *value);
            assert forall|n: Seq<char>|
                #[trigger] names_of_value(self@, *value).contains(n) <==> (value_of(self@, n) matches Some(w)
                    && same_integer(w, *value)) by {
                lemma_names_of_value_iff(self@, *value, n);
            }
            assert forall|n: Seq<char>|
                names_of_value(self@, *value).len() == 0 implies !(#[trigger] value_of(self@, n) matches Some(w)
                    && same_integer(w, *value)) by {
                lemma_names_of_value_iff(self@, *value, n);
                assert(!names_of_value(self@, *value).contains(n));
            }
        }
        let names = self.table.names_with_value(value);
        if names.len() == 0 {
            None
        } else {
            Some(names)
        }
    }

    /// The number of entries.
    pub fn len(&self) -> (r: usize)
        ensures
            r == self@.len(),
    {
        self.table.len()
    }
}

} // verus!
