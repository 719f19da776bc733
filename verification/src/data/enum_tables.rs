use vstd::prelude::*;

use crate::data::lookup_tables::{
    name_of, numbered_csv, numbered_outcome, read_numbered, read_tables, table_of, tables_from,
    tables_outcome, LookupTables,
};
use crate::error::Error;

verus! {

/// Read an enumeration from CSV text: each line a value (an unsigned decimal
/// that fits in a `usize`) and its name. A line of other than two fields
/// fails with [`Error::BadRecord`], a value that is no such number with
/// [`Error::InvalidInteger`], a value given twice with
/// [`Error::DuplicateValue`].
pub fn load_from_csv(data: &str) -> (r: Result<Vec<(u64, String)>, Error>)
    ensures
        numbered_outcome(r) == numbered_csv(data@, usize::MAX as nat, usize::MAX as nat, true),
{
    read_numbered(data, usize::MAX as u64, usize::MAX as u64, true)
}

/// Read the enumerations: each source a name and its CSV text (see
/// [`load_from_csv`]); a later source of the same name replaces an earlier
/// one.
pub fn load_enums(sources: &Vec<(String, String)>) -> (r: Result<LookupTables, Error>)
    ensures
        tables_outcome(r) == tables_from(
            sources@.map_values(|p: (String, String)| (p.0@, p.1@)),
            usize::MAX as nat,
            usize::MAX as nat,
            true,
        ),
{
    read_tables(sources, usize::MAX as u64, usize::MAX as u64, true)
}

/// Is there an enumeration with the name?
pub fn enum_exists(enums: &LookupTables, name: &str) -> (r: bool)
    ensures
        r == table_of(enums@, name@) is Some,
{
    enums.contains(name)
}

/// The name that the named enumeration gives a value (`None` when it gives
/// none); [`Error::NotFound`] when there is no such enumeration.
pub fn from_enum(enums: &LookupTables, name: &str, value: usize) -> (r: Result<Option<String>, Error>)
    ensures
        match table_of(enums@, name@) {
            None => r == Err::<Option<String>, Error>(Error::NotFound),
            Some(t) => match name_of(t, value as nat) {
                Some(n) => r is Ok && r->Ok_0 is Some && r->Ok_0->0@ == n,
                None => r == Ok::<Option<String>, Error>(None),
            },
        },
{
    enums.name_of(name, value as u64)
}

} // verus!
