use vstd::prelude::*;

use crate::data::table::texts;
use crate::error::Error;

verus! {

/// The text of each field of each record.
pub open spec fn records_view(v: Seq<Vec<String>>) -> Seq<Seq<Seq<char>>> {
    v.map_values(|r: Vec<String>| texts(r@))
}

/// The text of both halves of each pair.
pub open spec fn pairs_view(v: Seq<(String, String)>) -> Seq<(Seq<char>, Seq<char>)> {
    v.map_values(|p: (String, String)| (p.0@, p.1@))
}

/// The text of each name, and of each value that is present.
pub open spec fn entries_view(v: Seq<(String, Option<String>)>) -> Seq<
    (Seq<char>, Option<Seq<char>>),
> {
    v.map_values(
        |p: (String, Option<String>)|
            (
                p.0@,
                match p.1 {
                    Some(s) => Some(s@),
                    None => None,
                },
            ),
    )
}

/// The records (each a list of fields) that the csv crate reads from a text,
/// with no header row and records of any length; `None` when it reports an
/// error.
pub uninterp spec fn csv_records_of(text: Seq<char>) -> Option<Seq<Seq<Seq<char>>>>;

/// The text that the csv crate writes for the given records of two fields,
/// with no header row; `None` when it reports an error.
pub uninterp spec fn csv_text_of(rows: Seq<(Seq<char>, Seq<char>)>) -> Option<Seq<char>>;

/// The entries of a JSON object of strings (or nulls), in the order of their
/// names, as serde_json reads them; `None` when it reports an error.
pub uninterp spec fn json_entries_of(text: Seq<char>) -> Option<Seq<(Seq<char>, Option<Seq<char>>)>>;

/// The entries of a YAML mapping of scalars (or nulls), in the order of their
/// names, as serde_yaml reads them; `None` when it reports an error.
pub uninterp spec fn yaml_entries_of(text: Seq<char>) -> Option<Seq<(Seq<char>, Option<Seq<char>>)>>;

/// The entries of a RON map of strings, in the order of their names, as ron
/// reads them; `None` when it reports an error.
pub uninterp spec fn ron_pairs_of(text: Seq<char>) -> Option<Seq<(Seq<char>, Seq<char>)>>;

/// The pretty-printed JSON object that serde_json writes for the pairs, as a
/// map ordered by name; `None` when it reports an error.
pub uninterp spec fn json_text_of(pairs: Seq<(Seq<char>, Seq<char>)>) -> Option<Seq<char>>;

/// The YAML mapping that serde_yaml writes for the pairs, as a map ordered by
/// name; `None` when it reports an error.
pub uninterp spec fn yaml_text_of(pairs: Seq<(Seq<char>, Seq<char>)>) -> Option<Seq<char>>;

/// The RON map that ron writes for the pairs, as a map ordered by name;
/// `None` when it reports an error.
pub uninterp spec fn ron_text_of(pairs: Seq<(Seq<char>, Seq<char>)>) -> Option<Seq<char>>;

/// Read the records of a CSV text.
///
/// Calls csv's `ReaderBuilder` (no headers, flexible record lengths) and
/// collects every field of every record. The contract claims only that the
/// outcome is the named function of the text; a reported error becomes
/// [`Error::Unparseable`].
#[verifier::external_body]
pub(crate) fn read_csv_records(text: &str) -> (r: Result<Vec<Vec<String>>, Error>)
    ensures
        r is Ok <==> csv_records_of(text@) is Some,
        r matches Ok(v) ==> records_view(v@) == csv_records_of(text@)->0,
        r matches Err(e) ==> e == Error::Unparseable,
{
    let mut reader = csv::ReaderBuilder::new().has_headers(false).flexible(true).from_reader(
        text.as_bytes(),
    );
    let mut out: Vec<Vec<String>> = Vec::new();
    for result in reader.records() {
        match result {
            Ok(record) => out.push(record.iter().map(|f| f.to_string()).collect()),
            Err(_) => return Err(Error::Unparseable),
        }
    }
    Ok(out)
}

/// Whether the first field of the first row starts with a byte-order mark.
pub open spec fn leads_with_bom(rows: Seq<(Seq<char>, Seq<char>)>) -> bool {
    rows.len() > 0 && rows[0].0.len() > 0 && rows[0].0[0] == '\u{feff}'
}

/// Each row as a record of its two fields.
pub open spec fn row_records(rows: Seq<(Seq<char>, Seq<char>)>) -> Seq<Seq<Seq<char>>> {
    rows.map_values(|p: (Seq<char>, Seq<char>)| seq![p.0, p.1])
}

/// Write records of two fields as CSV.
///
/// Calls csv's `WriterBuilder` (no headers) on each row, then takes the bytes
/// as UTF-8; a reported error becomes [`Error::Unwritable`]. The contract
/// names the text, and claims that csv's reader (as [`read_csv_records`]
/// runs it) gives back the rows, each a record of two fields: the writer
/// quotes every field that holds a comma, a double quote, a carriage return
/// or a line feed, doubling its double quotes, which is how the reader takes
/// fields apart. The one exception is a text that starts with a byte-order
/// mark, which the reader drops; there the contract says nothing of reading.
#[verifier::external_body]
pub(crate) fn write_csv_rows(rows: &Vec<(String, String)>) -> (r: Result<String, Error>)
    ensures
        r is Ok <==> csv_text_of(pairs_view(rows@)) is Some,
        r matches Ok(s) ==> s@ == csv_text_of(pairs_view(rows@))->0,
        r matches Err(e) ==> e == Error::Unwritable,
        r matches Ok(s) ==> (!leads_with_bom(pairs_view(rows@)) ==> csv_records_of(s@) == Some(
            row_records(pairs_view(rows@)),
        )),
{
    let mut writer = csv::WriterBuilder::new().has_headers(false).from_writer(vec![]);
    for (name, value) in rows {
        if writer.write_record([name, value]).is_err() {
            return Err(Error::Unwritable);
        }
    }
    match writer.into_inner() {
        Ok(bytes) => String::from_utf8(bytes).map_err(|_| Error::Unwritable),
        Err(_) => Err(Error::Unwritable),
    }
}

/// Read a JSON object whose values are strings or null.
///
/// Calls `serde_json::from_str` into a name-ordered map of optional strings.
/// The contract claims only that the outcome is the named function of the
/// text; a reported error becomes [`Error::Unparseable`].
#[verifier::external_body]
pub(crate) fn parse_json_entries(text: &str) -> (r: Result<Vec<(String, Option<String>)>, Error>)
    ensures
        r is Ok <==> json_entries_of(text@) is Some,
        r matches Ok(v) ==> entries_view(v@) == json_entries_of(text@)->0,
        r matches Err(e) ==> e == Error::Unparseable,
{
    match serde_json::from_str::<std::collections::BTreeMap<String, Option<String>>>(text) {
        Ok(map) => Ok(map.into_iter().collect()),
        Err(_) => Err(Error::Unparseable),
    }
}

/// Read a YAML mapping whose values are scalars or null.
///
/// Calls `serde_yaml::from_str` into a name-ordered map of optional strings.
/// The contract claims only that the outcome is the named function of the
/// text; a reported error becomes [`Error::Unparseable`].
#[verifier::external_body]
pub(crate) fn parse_yaml_entries(text: &str) -> (r: Result<Vec<(String, Option<String>)>, Error>)
    ensures
        r is Ok <==> yaml_entries_of(text@) is Some,
        r matches Ok(v) ==> entries_view(v@) == yaml_entries_of(text@)->0,
        r matches Err(e) ==> e == Error::Unparseable,
{
    match serde_yaml::from_str::<std::collections::BTreeMap<String, Option<String>>>(text) {
        Ok(map) => Ok(map.into_iter().collect()),
        Err(_) => Err(Error::Unparseable),
    }
}

/// Read a RON map of strings.
///
/// Calls `ron::from_str` into a name-ordered map of strings. The contract
/// claims only that the outcome is the named function of the text; a
/// reported error becomes [`Error::Unparseable`].
#[verifier::external_body]
pub(crate) fn parse_ron_pairs(text: &str) -> (r: Result<Vec<(String, String)>, Error>)
    ensures
        r is Ok <==> ron_pairs_of(text@) is Some,
        r matches Ok(v) ==> pairs_view(v@) == ron_pairs_of(text@)->0,
        r matches Err(e) ==> e == Error::Unparseable,
{
    match ron::from_str::<std::collections::BTreeMap<String, String>>(text) {
        Ok(map) => Ok(map.into_iter().collect()),
        Err(_) => Err(Error::Unparseable),
    }
}

/// No two pairs have the same name.
pub open spec fn pair_names_distinct(ps: Seq<(Seq<char>, Seq<char>)>) -> bool {
    forall|i: int, j: int| 0 <= i < j < ps.len() ==> (#[trigger] ps[i]).0 != (#[trigger] ps[j]).0
}

/// The entries are the pairs, each value present, in some order: as many,
/// every pair among them, nothing else, and no name twice.
pub open spec fn holds_pairs(es: Seq<(Seq<char>, Option<Seq<char>>)>, ps: Seq<(Seq<char>, Seq<char>)>) -> bool {
    &&& es.len() == ps.len()
    &&& forall|i: int|
        #![trigger ps[i]]
        0 <= i < ps.len() ==> exists|j: int| 0 <= j < es.len() && #[trigger] es[j] == (ps[i].0, Some(ps[i].1))
    &&& forall|j: int|
        #![trigger es[j]]
        0 <= j < es.len() ==> exists|i: int| 0 <= i < ps.len() && es[j] == (#[trigger] ps[i].0, Some(ps[i].1))
    &&& forall|j: int, k: int| 0 <= j < k < es.len() ==> (#[trigger] es[j]).0 != (#[trigger] es[k]).0
}

/// Write pairs as a pretty-printed JSON object.
///
/// Calls `serde_json::to_string_pretty` on a name-ordered map of the pairs;
/// a reported error becomes [`Error::Unwritable`]. The contract names the
/// text, and claims that when no name repeats, serde_json reads it back (as
/// [`parse_json_entries`] does) as the same names with the same strings, in
/// the map's order: serde_json escapes every character that a JSON string
/// cannot hold as it is, and unescapes them on reading.
#[verifier::external_body]
pub(crate) fn json_text(pairs: &Vec<(String, String)>) -> (r: Result<String, Error>)
    ensures
        r is Ok <==> json_text_of(pairs_view(pairs@)) is Some,
        r matches Ok(s) ==> s@ == json_text_of(pairs_view(pairs@))->0,
        r matches Err(e) ==> e == Error::Unwritable,
        r matches Ok(s) ==> (pair_names_distinct(pairs_view(pairs@)) ==> (json_entries_of(s@) matches Some(
            es,
        ) && holds_pairs(es, pairs_view(pairs@)))),
{
    let map: std::collections::BTreeMap<&String, &String> = pairs.iter().map(|p| (&p.0, &p.1)).collect();
    serde_json::to_string_pretty(&map).map_err(|_| Error::Unwritable)
}

/// Write pairs as a YAML mapping.
///
/// Calls `serde_yaml::to_string` on a name-ordered map of the pairs. The
/// contract claims only that the outcome is the named function of the pairs;
/// a reported error becomes [`Error::Unwritable`].
#[verifier::external_body]
pub(crate) fn yaml_text(pairs: &Vec<(String, String)>) -> (r: Result<String, Error>)
    ensures
        r is Ok <==> yaml_text_of(pairs_view(pairs@)) is Some,
        r matches Ok(s) ==> s@ == yaml_text_of(pairs_view(pairs@))->0,
        r matches Err(e) ==> e == Error::Unwritable,
{
    let map: std::collections::BTreeMap<&String, &String> = pairs.iter().map(|p| (&p.0, &p.1)).collect();
    serde_yaml::to_string(&map).map_err(|_| Error::Unwritable)
}

/// Write pairs as a RON map.
///
/// Calls `ron::to_string` on a name-ordered map of the pairs. The contract
/// claims only that the outcome is the named function of the pairs; a
/// reported error becomes [`Error::Unwritable`].
#[verifier::external_body]
pub(crate) fn ron_text(pairs: &Vec<(String, String)>) -> (r: Result<String, Error>)
    ensures
        r is Ok <==> ron_text_of(pairs_view(pairs@)) is Some,
        r matches Ok(s) ==> s@ == ron_text_of(pairs_view(pairs@))->0,
        r matches Err(e) ==> e == Error::Unwritable,
{
    let map: std::collections::BTreeMap<&String, &String> = pairs.iter().map(|p| (&p.0, &p.1)).collect();
    ron::to_string(&map).map_err(|_| Error::Unwritable)
}

} // verus!
