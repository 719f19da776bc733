use vstd::prelude::*;

use crate::data::constants::Constants;
use crate::data::data_entry::{item_of, opt_text, space_of, DataEntry};
use crate::data::entries::{decimal_rows, text_result, written};
use crate::data::enums::Enums;
use crate::data::formats::{csv_text_of, json_text_of, ron_text_of, yaml_text_of};
use crate::data::h2enums::H2Enums;
use crate::data::load_options::FileType;
use crate::data::table::{names_of_value, texts};
use crate::error::Error;
use crate::number::integer::Integer;

verus! {

/// Data whose entries can be looked up by value, giving names.
pub trait Lookupable {
    /// The names that a lookup of the value gives.
    spec fn looked_up(&self, value: Integer) -> Seq<Seq<char>>;

    fn lookup(&self, value: &Integer) -> (r: Vec<String>)
        ensures
            texts(r@) == self.looked_up(*value),
    ;
}

/// Data that can be written out in each of the file formats.
pub trait Exportable {
    /// The text (or failure) that writing in a format gives.
    spec fn exported(&self, file_type: FileType) -> Result<Seq<char>, Error>;

    fn export(&self, file_type: FileType) -> (r: Result<String, Error>)
        ensures
            text_result(r) == self.exported(file_type),
    ;
}

impl Lookupable for Constants {
    open spec fn looked_up(&self, value: Integer) -> Seq<Seq<char>> {
        names_of_value(self@, value)
    }

    fn lookup(&self, value: &Integer) -> (r: Vec<String>) {
        self.get_by_value(value)
    }
}

impl Lookupable for Enums {
    open spec fn looked_up(&self, value: Integer) -> Seq<Seq<char>> {
        names_of_value(self@, value)
    }

    fn lookup(&self, value: &Integer) -> (r: Vec<String>) {
        match self.get_by_value(value) {
            Some(v) => v,
            None => Vec::new(),
        }
    }
}

impl Lookupable for H2Enums {
    open spec fn looked_up(&self, value: Integer) -> Seq<Seq<char>> {
        names_of_value(self@, value)
    }

    fn lookup(&self, value: &Integer) -> (r: Vec<String>) {
        match self.get_by_value(value) {
            Some(v) => v,
            None => Vec::new(),
        }
    }
}

/// What each format's writer gives for named decimal values.
pub open spec fn exported_rows(rows: Seq<(Seq<char>, Seq<char>)>, file_type: FileType) -> Result<Seq<char>, Error> {
    match file_type {
        FileType::CSV => written(csv_text_of(rows)),
        FileType::RON => written(ron_text_of(rows)),
        FileType::JSON => written(json_text_of(rows)),
        FileType::YAML => written(yaml_text_of(rows)),
    }
}

impl Exportable for Constants {
    open spec fn exported(&self, file_type: FileType) -> Result<Seq<char>, Error> {
        exported_rows(decimal_rows(self@), file_type)
    }

    fn export(&self, file_type: FileType) -> (r: Result<String, Error>) {
        match file_type {
            FileType::CSV => self.to_csv(),
            FileType::RON => self.to_ron(),
            FileType::JSON => self.to_json(),
            FileType::YAML => self.to_yaml(),
        }
    }
}

impl Exportable for Enums {
    open spec fn exported(&self, file_type: FileType) -> Result<Seq<char>, Error> {
        exported_rows(decimal_rows(self@), file_type)
    }

    fn export(&self, file_type: FileType) -> (r: Result<String, Error>) {
        match file_type {
            FileType::CSV => self.to_csv(),
            FileType::RON => self.to_ron(),
            FileType::JSON => self.to_json(),
            FileType::YAML => self.to_yaml(),
        }
    }
}

impl<T: Lookupable> DataEntry<T> {
    /// Look a value up in the named data of a namespace. Fails with
    /// [`Error::NoSuchNamespace`] or [`Error::NotFound`].
    pub fn lookup(&self, namespace: Option<&str>, name: &str, value: &Integer) -> (r: Result<Vec<String>, Error>)
        ensures
            match space_of(self@, opt_text(namespace)) {
                None => r == Err::<Vec<String>, Error>(Error::NoSuchNamespace),
                Some(items) => match item_of(items, name@) {
                    Some(t) => r is Ok && texts(r->Ok_0@) == t.looked_up(*value),
                    None => r == Err::<Vec<String>, Error>(Error::NotFound),
                },
            },
    {
        proof {
            use_type_invariant(&*self);
        }
        match self.get(namespace, name) {
            Ok(t) => Ok(t.lookup(value)),
            Err(e) => Err(e),
        }
    }
}

impl<T: Exportable> DataEntry<T> {
    /// Write the named data of a namespace in a file format. Fails with
    /// [`Error::NoSuchNamespace`] or [`Error::NotFound`], or as the writer
    /// does.
    pub fn export_single_entry(&self, namespace: Option<&str>, name: &str, file_type: FileType) -> (r: Result<String, Error>)
        ensures
            match space_of(self@, opt_text(namespace)) {
                None => r == Err::<String, Error>(Error::NoSuchNamespace),
                Some(items) => match item_of(items, name@) {
                    Some(t) => text_result(r) == t.exported(file_type),
                    None => r == Err::<String, Error>(Error::NotFound),
                },
            },
    {
        proof {
            use_type_invariant(&*self);
        }
        match self.get(namespace, name) {
            Ok(t) => t.export(file_type),
            Err(e) => Err(e),
        }
    }
}

} // verus!
