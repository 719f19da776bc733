use vstd::prelude::*;

use crate::data::formats::{entries_view, holds_pairs, pair_names_distinct, pairs_view, records_view, row_records};
use crate::data::table::{has_name, lemma_value_of_absent, lemma_value_of_first, names_distinct, texts, value_of, NameTable};
use crate::error::Error;
use crate::number::format::{decimal_text, DefaultFormatter, IntegerRendererImpl};
use crate::number::integer::Integer;
use crate::number::integer_text::{lemma_decimal_parses, parse_integer, parse_text};

verus! {

/// Named integers, as a sequence of (name, value) in the order added.
pub type Entries = Seq<(Seq<char>, Integer)>;

/// The value given to an entry that comes without one: one more than the
/// value last added, in its type, or a `U32` zero for the first entry;
/// `None` when the last value is its type's largest.
pub open spec fn autovalue_of(s: Entries) -> Option<Integer> {
    if s.len() == 0 {
        Some(Integer::U32(0))
    } else {
        s.last().1.next()
    }
}

/// Add a named entry whose value may be missing (and then numbered
/// automatically): a name that is already there fails with
/// [`Error::DuplicateName`], an automatic value past the type's largest
/// with [`Error::Overflow`].
pub open spec fn add_auto(s: Entries, name: Seq<char>, value: Option<Integer>) -> Result<Entries, Error> {
    if has_name(s, name) {
        Err(Error::DuplicateName)
    } else {
        match value {
            Some(v) => Ok(s.push((name, v))),
            None => match autovalue_of(s) {
                Some(v) => Ok(s.push((name, v))),
                None => Err(Error::Overflow),
            },
        }
    }
}

/// The name and optional value of a CSV record of one or two fields; other
/// lengths fail with [`Error::BadRecord`], a value that is no integer with
/// [`Error::InvalidInteger`].
pub open spec fn record_entry(rec: Seq<Seq<char>>) -> Result<(Seq<char>, Option<Integer>), Error> {
    if rec.len() == 0 || rec.len() > 2 {
        Err(Error::BadRecord)
    } else if rec.len() == 1 {
        Ok((rec[0], None))
    } else {
        match parse_text(rec[1]) {
            Some(v) => Ok((rec[0], Some(v))),
            None => Err(Error::InvalidInteger),
        }
    }
}

/// The name and optional value of an entry whose value is an optional text.
pub open spec fn text_entry(e: (Seq<char>, Option<Seq<char>>)) -> Result<(Seq<char>, Option<Integer>), Error> {
    match e.1 {
        None => Ok((e.0, None)),
        Some(t) => match parse_text(t) {
            Some(v) => Ok((e.0, Some(v))),
            None => Err(Error::InvalidInteger),
        },
    }
}

/// The entries that CSV records give, added one after the other with
/// automatic numbering; the first failure is the result.
pub open spec fn auto_from_records(recs: Seq<Seq<Seq<char>>>) -> Result<Entries, Error>
    decreases recs.len(),
{
    if recs.len() == 0 {
        Ok(Seq::empty())
    } else {
        match auto_from_records(recs.drop_last()) {
            Err(e) => Err(e),
            Ok(s) => match record_entry(recs.last()) {
                Err(e) => Err(e),
                Ok(p) => add_auto(s, p.0, p.1),
            },
        }
    }
}

/// The entries that (name, optional value text) pairs give, added one after
/// the other with automatic numbering; the first failure is the result.
pub open spec fn auto_from_texts(es: Seq<(Seq<char>, Option<Seq<char>>)>) -> Result<Entries, Error>
    decreases es.len(),
{
    if es.len() == 0 {
        Ok(Seq::empty())
    } else {
        match auto_from_texts(es.drop_last()) {
            Err(e) => Err(e),
            Ok(s) => match text_entry(es.last()) {
                Err(e) => Err(e),
                Ok(p) => add_auto(s, p.0, p.1),
            },
        }
    }
}

/// Each entry as its name and its value in decimal.
pub open spec fn decimal_rows(s: Entries) -> Seq<(Seq<char>, Seq<char>)> {
    s.map_values(|e: (Seq<char>, Integer)| (e.0, decimal_text(e.1.value())))
}

/// What a text format's loading gives: the failure to parse, or the entries
/// of what was parsed.
pub open spec fn loaded<T, R>(parsed: Option<T>, entries: spec_fn(T) -> Result<R, Error>) -> Result<R, Error> {
    match parsed {
        None => Err(Error::Unparseable),
        Some(p) => entries(p),
    }
}

/// The text of a result that holds a string.
pub open spec fn text_result(r: Result<String, Error>) -> Result<Seq<char>, Error> {
    match r {
        Ok(s) => Ok(s@),
        Err(e) => Err(e),
    }
}

/// What a text format's writing gives.
pub open spec fn written(text: Option<Seq<char>>) -> Result<Seq<char>, Error> {
    match text {
        None => Err(Error::Unwritable),
        Some(t) => Ok(t),
    }
}

/// A result of entries, as the result that a loader built on them returns.
pub open spec fn same_outcome<T: View<V = Entries>>(r: Result<T, Error>, expected: Result<Entries, Error>) -> bool {
    match expected {
        Ok(s) => r is Ok && r->Ok_0@ == s,
        Err(e) => r is Err && r->Err_0 == e,
    }
}

/// The next automatic value for the table.
pub fn autovalue(table: &NameTable) -> (r: Result<Integer, Error>)
    ensures
        match autovalue_of(table@) {
            Some(v) => r == Ok::<Integer, Error>(v),
            None => r == Err::<Integer, Error>(Error::Overflow),
        },
{
    let n = table.len();
    if n == 0 {
        return Ok(Integer::U32(0));
    }
    let last = table.entry(n - 1).1;
    match last.increment() {
        Some(v) => Ok(v),
        None => Err(Error::Overflow),
    }
}

/// Add an entry, numbering it automatically when it has no value.
pub fn add_auto_entry(table: &mut NameTable, name: String, value: Option<Integer>) -> (r: Result<(), Error>)
    requires
        old(table).wf(),
    ensures
        final(table).wf(),
        match add_auto(old(table)@, name@, value) {
            Ok(s) => r is Ok && final(table)@ == s,
            Err(e) => r == Err::<(), Error>(e) && final(table)@ == old(table)@,
        },
{
    if table.find(name.as_str()).is_some() {
        return Err(Error::DuplicateName);
    }
    let v = match value {
        Some(v) => v,
        None => match autovalue(table) {
            Ok(v) => v,
            Err(e) => return Err(e),
        },
    };
    table.push(name, v);
    Ok(())
}

/// The entries of CSV records, numbered automatically where a value is
/// missing.
pub fn table_from_records(records: &Vec<Vec<String>>) -> (r: Result<NameTable, Error>)
    ensures
        same_outcome(r, auto_from_records(records_view(records@))),
        r matches Ok(t) ==> t.wf(),
{
    let ghost recs = records_view(records@);
    let mut table = NameTable::new();
    let mut i: usize = 0;
    while i < records.len()
        invariant
            i <= records@.len(),
            recs == records_view(records@),
            table.wf(),
            auto_from_records(recs.take(i as int)) == Ok::<Entries, Error>(table@),
        decreases records@.len() - i,
    {
        assert(recs.take(i + 1).drop_last() =~= recs.take(i as int));
        let rec = &records[i];
        assert(recs.take(i + 1).last() == texts(rec@));
        if rec.len() == 0 || rec.len() > 2 {
            proof {
                lemma_auto_records_stops(recs, i as int + 1);
            }
            return Err(Error::BadRecord);
        }
        let value: Option<Integer> = if rec.len() == 1 {
            None
        } else {
            match parse_integer(rec[1].as_str()) {
                Ok(v) => Some(v),
                Err(e) => {
                    proof {
                        lemma_auto_records_stops(recs, i as int + 1);
                    }
                    return Err(e);
                },
            }
        };
        match add_auto_entry(&mut table, rec[0].clone(), value) {
            Ok(()) => {},
            Err(e) => {
                proof {
                    lemma_auto_records_stops(recs, i as int + 1);
                }
                return Err(e);
            },
        }
        i = i + 1;
    }
    assert(recs.take(records@.len() as int) =~= recs);
    Ok(table)
}

/// A failure among the first records is the failure of all of them.
pub proof fn lemma_auto_records_stops(recs: Seq<Seq<Seq<char>>>, k: int)
    requires
        0 <= k <= recs.len(),
        auto_from_records(recs.take(k)) is Err,
    ensures
        auto_from_records(recs) == auto_from_records(recs.take(k)),
    decreases recs.len() - k,
{
    if k < recs.len() {
        assert(recs.take(k + 1).drop_last() =~= recs.take(k));
        lemma_auto_records_stops(recs, k + 1);
    } else {
        assert(recs.take(k) =~= recs);
    }
}

/// The entries of (name, optional value text) pairs, numbered automatically
/// where a value is missing.
pub fn table_from_texts(entries: &Vec<(String, Option<String>)>) -> (r: Result<NameTable, Error>)
    ensures
        same_outcome(r, auto_from_texts(entries_view(entries@))),
        r matches Ok(t) ==> t.wf(),
{
    let ghost es = entries_view(entries@);
    let mut table = NameTable::new();
    let mut i: usize = 0;
    while i < entries.len()
        invariant
            i <= entries@.len(),
            es == entries_view(entries@),
            table.wf(),
            auto_from_texts(es.take(i as int)) == Ok::<Entries, Error>(table@),
        decreases entries@.len() - i,
    {
        assert(es.take(i + 1).drop_last() =~= es.take(i as int));
        let e = &entries[i];
        assert(es.take(i + 1).last() == es[i as int]);
        let value: Option<Integer> = match &e.1 {
            None => None,
            Some(t) => match parse_integer(t.as_str()) {
                Ok(v) => Some(v),
                Err(err) => {
                    proof {
                        lemma_auto_texts_stops(es, i as int + 1);
                    }
                    return Err(err);
                },
            },
        };
        match add_auto_entry(&mut table, e.0.clone(), value) {
            Ok(()) => {},
            Err(err) => {
                proof {
                    lemma_auto_texts_stops(es, i as int + 1);
                }
                return Err(err);
            },
        }
        i = i + 1;
    }
    assert(es.take(entries@.len() as int) =~= es);
    Ok(table)
}

/// A failure among the first pairs is the failure of all of them.
pub proof fn lemma_auto_texts_stops(es: Seq<(Seq<char>, Option<Seq<char>>)>, k: int)
    requires
        0 <= k <= es.len(),
        auto_from_texts(es.take(k)) is Err,
    ensures
        auto_from_texts(es) == auto_from_texts(es.take(k)),
    decreases es.len() - k,
{
    if k < es.len() {
        assert(es.take(k + 1).drop_last() =~= es.take(k));
        lemma_auto_texts_stops(es, k + 1);
    } else {
        assert(es.take(k) =~= es);
    }
}

/// Each entry of the table as its name and its value in decimal.
pub fn decimal_rows_of(table: &NameTable) -> (r: Vec<(String, String)>)
    ensures
        pairs_view(r@) == decimal_rows(table@),
{
    let mut out: Vec<(String, String)> = Vec::new();
    let mut i: usize = 0;
    let f = DefaultFormatter::new();
    while i < table.len()
        invariant
            i <= table@.len(),
            out@.len() == i,
            pairs_view(out@) == decimal_rows(table@).take(i as int),
        decreases table@.len() - i,
    {
        let e = table.entry(i);
        let text = f.render_integer(e.1);
        out.push((e.0.clone(), text));
        i = i + 1;
        assert(pairs_view(out@) =~= decimal_rows(table@).take(i as int));
    }
    assert(decimal_rows(table@).take(table@.len() as int) =~= decimal_rows(table@));
    out
}

/// Add a named entry with a value: a name already there fails with
/// [`Error::DuplicateName`].
pub open spec fn add_strict(s: Entries, name: Seq<char>, value: Integer) -> Result<Entries, Error> {
    if has_name(s, name) {
        Err(Error::DuplicateName)
    } else {
        Ok(s.push((name, value)))
    }
}

/// The entries that (name, value text) pairs give, each value parsed as an
/// integer ([`Error::InvalidInteger`] when it is none) and added in turn;
/// the first failure is the result.
pub open spec fn strict_from_pairs(ps: Seq<(Seq<char>, Seq<char>)>) -> Result<Entries, Error>
    decreases ps.len(),
{
    if ps.len() == 0 {
        Ok(Seq::empty())
    } else {
        match strict_from_pairs(ps.drop_last()) {
            Err(e) => Err(e),
            Ok(s) => match parse_text(ps.last().1) {
                None => Err(Error::InvalidInteger),
                Some(v) => add_strict(s, ps.last().0, v),
            },
        }
    }
}

/// The entries of (name, value text) pairs, each value parsed.
pub fn table_from_pairs(pairs: &Vec<(String, String)>) -> (r: Result<NameTable, Error>)
    ensures
        same_outcome(r, strict_from_pairs(pairs_view(pairs@))),
        r matches Ok(t) ==> t.wf(),
{
    let ghost ps = pairs_view(pairs@);
    let mut table = NameTable::new();
    let mut i: usize = 0;
    while i < pairs.len()
        invariant
            i <= pairs@.len(),
            ps == pairs_view(pairs@),
            table.wf(),
            strict_from_pairs(ps.take(i as int)) == Ok::<Entries, Error>(table@),
        decreases pairs@.len() - i,
    {
        assert(ps.take(i + 1).drop_last() =~= ps.take(i as int));
        let p = &pairs[i];
        assert(ps.take(i + 1).last() == ps[i as int]);
        let value = match parse_integer(p.1.as_str()) {
            Ok(v) => v,
            Err(e) => {
                proof {
                    lemma_strict_stops(ps, i as int + 1);
                }
                return Err(e);
            },
        };
        if table.find(p.0.as_str()).is_some() {
            proof {
                lemma_strict_stops(ps, i as int + 1);
            }
            return Err(Error::DuplicateName);
        }
        table.push(p.0.clone(), value);
        i = i + 1;
    }
    assert(ps.take(pairs@.len() as int) =~= ps);
    Ok(table)
}

/// A failure among the first pairs is the failure of all of them.
pub proof fn lemma_strict_stops(ps: Seq<(Seq<char>, Seq<char>)>, k: int)
    requires
        0 <= k <= ps.len(),
        strict_from_pairs(ps.take(k)) is Err,
    ensures
        strict_from_pairs(ps) == strict_from_pairs(ps.take(k)),
    decreases ps.len() - k,
{
    if k < ps.len() {
        assert(ps.take(k + 1).drop_last() =~= ps.take(k));
        lemma_strict_stops(ps, k + 1);
    } else {
        assert(ps.take(k) =~= ps);
    }
}

/// The (name, value text) pairs of mapping entries whose values must all be
/// present ([`Error::Unparseable`] for the first that is not).
pub open spec fn present_pairs(es: Seq<(Seq<char>, Option<Seq<char>>)>) -> Result<Seq<(Seq<char>, Seq<char>)>, Error>
    decreases es.len(),
{
    if es.len() == 0 {
        Ok(Seq::empty())
    } else {
        match present_pairs(es.drop_last()) {
            Err(e) => Err(e),
            Ok(ps) => match es.last().1 {
                None => Err(Error::Unparseable),
                Some(t) => Ok(ps.push((es.last().0, t))),
            },
        }
    }
}

/// The pairs of mapping entries, failing on a missing value.
pub fn pairs_of_entries(entries: Vec<(String, Option<String>)>) -> (r: Result<Vec<(String, String)>, Error>)
    ensures
        match present_pairs(entries_view(entries@)) {
            Ok(ps) => r is Ok && pairs_view(r->Ok_0@) == ps,
            Err(e) => r == Err::<Vec<(String, String)>, Error>(e),
        },
{
    let ghost es = entries_view(entries@);
    let mut out: Vec<(String, String)> = Vec::new();
    let mut i: usize = 0;
    while i < entries.len()
        invariant
            i <= entries@.len(),
            es == entries_view(entries@),
            present_pairs(es.take(i as int)) matches Ok(ps) && pairs_view(out@) == ps,
        decreases entries@.len() - i,
    {
        assert(es.take(i + 1).drop_last() =~= es.take(i as int));
        assert(es.take(i + 1).last() == es[i as int]);
        match &entries[i].1 {
            None => {
                proof {
                    lemma_present_stops(es, i as int + 1);
                }
                return Err(Error::Unparseable);
            },
            Some(t) => {
                out.push((entries[i].0.clone(), t.clone()));
            },
        }
        i = i + 1;
        assert(pairs_view(out@) =~= present_pairs(es.take(i as int))->Ok_0);
    }
    assert(es.take(entries@.len() as int) =~= es);
    Ok(out)
}

/// A missing value among the first entries is the failure of all of them.
pub proof fn lemma_present_stops(es: Seq<(Seq<char>, Option<Seq<char>>)>, k: int)
    requires
        0 <= k <= es.len(),
        present_pairs(es.take(k)) is Err,
    ensures
        present_pairs(es) == present_pairs(es.take(k)),
    decreases es.len() - k,
{
    if k < es.len() {
        assert(es.take(k + 1).drop_last() =~= es.take(k));
        lemma_present_stops(es, k + 1);
    } else {
        assert(es.take(k) =~= es);
    }
}

/// The (name, optional value) of each element.
pub open spec fn values_view(v: Seq<(String, Option<Integer>)>) -> Seq<(Seq<char>, Option<Integer>)> {
    v.map_values(|e: (String, Option<Integer>)| (e.0@, e.1))
}

/// The name and optional value of each CSV record: its first field, and its
/// second parsed as an integer when there is one (further fields are
/// ignored); a record with no field fails with [`Error::BadRecord`].
pub open spec fn csv_values(recs: Seq<Seq<Seq<char>>>) -> Result<Seq<(Seq<char>, Option<Integer>)>, Error>
    decreases recs.len(),
{
    if recs.len() == 0 {
        Ok(Seq::empty())
    } else {
        match csv_values(recs.drop_last()) {
            Err(e) => Err(e),
            Ok(vs) => {
                let rec = recs.last();
                if rec.len() == 0 {
                    Err(Error::BadRecord)
                } else if rec.len() == 1 {
                    Ok(vs.push((rec[0], None)))
                } else {
                    match parse_text(rec[1]) {
                        Some(v) => Ok(vs.push((rec[0], Some(v)))),
                        None => Err(Error::InvalidInteger),
                    }
                }
            },
        }
    }
}

/// The name and optional value of each CSV record.
pub fn values_from_records(records: &Vec<Vec<String>>) -> (r: Result<Vec<(String, Option<Integer>)>, Error>)
    ensures
        match csv_values(records_view(records@)) {
            Ok(vs) => r is Ok && values_view(r->Ok_0@) == vs,
            Err(e) => r == Err::<Vec<(String, Option<Integer>)>, Error>(e),
        },
{
    let ghost recs = records_view(records@);
    let mut out: Vec<(String, Option<Integer>)> = Vec::new();
    let mut i: usize = 0;
    while i < records.len()
        invariant
            i <= records@.len(),
            recs == records_view(records@),
            csv_values(recs.take(i as int)) matches Ok(vs) && values_view(out@) == vs,
        decreases records@.len() - i,
    {
        assert(recs.take(i + 1).drop_last() =~= recs.take(i as int));
        let rec = &records[i];
        assert(recs.take(i + 1).last() == texts(rec@));
        if rec.len() == 0 {
            proof {
                lemma_csv_values_stops(recs, i as int + 1);
            }
            return Err(Error::BadRecord);
        }
        let value: Option<Integer> = if rec.len() == 1 {
            None
        } else {
            match parse_integer(rec[1].as_str()) {
                Ok(v) => Some(v),
                Err(e) => {
                    proof {
                        lemma_csv_values_stops(recs, i as int + 1);
                    }
                    return Err(e);
                },
            }
        };
        out.push((rec[0].clone(), value));
        i = i + 1;
        assert(values_view(out@) =~= csv_values(recs.take(i as int))->Ok_0);
    }
    assert(recs.take(records@.len() as int) =~= recs);
    Ok(out)
}

/// A failure among the first records is the failure of all of them.
pub proof fn lemma_csv_values_stops(recs: Seq<Seq<Seq<char>>>, k: int)
    requires
        0 <= k <= recs.len(),
        csv_values(recs.take(k)) is Err,
    ensures
        csv_values(recs) == csv_values(recs.take(k)),
    decreases recs.len() - k,
{
    if k < recs.len() {
        assert(recs.take(k + 1).drop_last() =~= recs.take(k));
        lemma_csv_values_stops(recs, k + 1);
    } else {
        assert(recs.take(k) =~= recs);
    }
}

/// Whether a pair carries the name.
pub open spec fn pair_has_name(ps: Seq<(Seq<char>, Seq<char>)>, name: Seq<char>) -> bool {
    exists|i: int| 0 <= i < ps.len() && (#[trigger] ps[i]).0 == name
}

/// Whether some pair carries the name.
pub fn pairs_contain(pairs: &Vec<(String, String)>, name: &String) -> (r: bool)
    ensures
        r == pair_has_name(pairs_view(pairs@), name@),
{
    let mut i: usize = 0;
    while i < pairs.len()
        invariant
            i <= pairs@.len(),
            forall|j: int| 0 <= j < i ==> (#[trigger] pairs_view(pairs@)[j]).0 != name@,
        decreases pairs@.len() - i,
    {
        if pairs[i].0 == *name {
            assert(pairs_view(pairs@)[i as int].0 == name@);
            return true;
        }
        i = i + 1;
    }
    false
}


/// The same names in the same order, each value the same number.
pub open spec fn same_values(a: Entries, b: Entries) -> bool {
    &&& a.len() == b.len()
    &&& forall|i: int| 0 <= i < a.len() ==> (#[trigger] a[i]).0 == b[i].0 && a[i].1.value() == b[i].1.value()
}

/// As many entries, and every name has a value in both or in neither, the
/// same number in both.
pub open spec fn same_named_values(a: Entries, b: Entries) -> bool {
    &&& a.len() == b.len()
    &&& forall|name: Seq<char>|
        #![trigger value_of(a, name)]
        #![trigger value_of(b, name)]
        match (value_of(a, name), value_of(b, name)) {
            (Some(x), Some(y)) => x.value() == y.value(),
            (None, None) => true,
            _ => false,
        }
}

/// Pairs whose names do not repeat and whose values are all integers load
/// as those names with those values parsed, in order.
proof fn lemma_strict_parsed(ps: Seq<(Seq<char>, Seq<char>)>)
    requires
        pair_names_distinct(ps),
        forall|i: int| 0 <= i < ps.len() ==> parse_text((#[trigger] ps[i]).1) is Some,
    ensures
        strict_from_pairs(ps) matches Ok(e) && e.len() == ps.len() && forall|i: int|
            0 <= i < ps.len() ==> #[trigger] e[i] == (ps[i].0, parse_text(ps[i].1)->0),
    decreases ps.len(),
{
    if ps.len() > 0 {
        let front = ps.drop_last();
        assert forall|i: int, j: int| 0 <= i < j < front.len() implies (#[trigger] front[i]).0 != (
        #[trigger] front[j]).0 by {
            assert(front[i] == ps[i] && front[j] == ps[j]);
        }
        assert forall|i: int| 0 <= i < front.len() implies parse_text((#[trigger] front[i]).1) is Some by {
            assert(front[i] == ps[i]);
        }
        lemma_strict_parsed(front);
        let e = strict_from_pairs(front)->Ok_0;
        let last = ps.last();
        assert(parse_text(ps[ps.len() - 1].1) is Some);
        if has_name(e, last.0) {
            let k = choose|k: int| 0 <= k < e.len() && (#[trigger] e[k]).0 == last.0;
            assert(e[k] == (front[k].0, parse_text(front[k].1)->0));
            assert(ps[k].0 != ps[ps.len() - 1].0);
            assert(front[k] == ps[k]);
        }
        let full = e.push((last.0, parse_text(last.1)->0));
        assert forall|i: int| 0 <= i < ps.len() implies #[trigger] full[i] == (ps[i].0, parse_text(ps[i].1)->0) by {
            if i < front.len() {
                assert(front[i] == ps[i]);
            }
        }
    }
}

/// Entries with distinct names, written as decimal rows and loaded again,
/// give the same names in the same order with the same numbers.
pub proof fn lemma_decimal_rows_reload(s: Entries)
    requires
        names_distinct(s),
    ensures
        strict_from_pairs(decimal_rows(s)) matches Ok(e) && same_values(e, s),
{
    let ps = decimal_rows(s);
    assert forall|i: int, j: int| 0 <= i < j < ps.len() implies (#[trigger] ps[i]).0 != (#[trigger] ps[j]).0 by {
        assert(ps[i].0 == s[i].0 && ps[j].0 == s[j].0);
    }
    assert forall|i: int| 0 <= i < ps.len() implies parse_text((#[trigger] ps[i]).1) is Some by {
        lemma_decimal_parses(s[i].1);
    }
    lemma_strict_parsed(ps);
    let e = strict_from_pairs(ps)->Ok_0;
    assert forall|i: int| 0 <= i < e.len() implies (#[trigger] e[i]).0 == s[i].0 && e[i].1.value() == s[i].1.value() by {
        lemma_decimal_parses(s[i].1);
        assert(e[i] == (ps[i].0, parse_text(ps[i].1)->0));
    }
}

/// Mapping entries whose values are all present give their pairs.
proof fn lemma_present_all(es: Seq<(Seq<char>, Option<Seq<char>>)>)
    requires
        forall|j: int| 0 <= j < es.len() ==> (#[trigger] es[j]).1 is Some,
    ensures
        present_pairs(es) == Ok::<Seq<(Seq<char>, Seq<char>)>, Error>(
            es.map_values(|e: (Seq<char>, Option<Seq<char>>)| (e.0, e.1->0)),
        ),
    decreases es.len(),
{
    if es.len() > 0 {
        let front = es.drop_last();
        assert forall|j: int| 0 <= j < front.len() implies (#[trigger] front[j]).1 is Some by {
            assert(front[j] == es[j]);
        }
        lemma_present_all(front);
        assert(es[es.len() - 1].1 is Some);
        let ps = front.map_values(|e: (Seq<char>, Option<Seq<char>>)| (e.0, e.1->0));
        assert(present_pairs(es) == Ok::<Seq<(Seq<char>, Seq<char>)>, Error>(
            ps.push((es.last().0, es.last().1->0)),
        ));
        assert(es.map_values(|e: (Seq<char>, Option<Seq<char>>)| (e.0, e.1->0)) =~= ps.push(
            (es.last().0, es.last().1->0),
        ));
    } else {
        assert(es.map_values(|e: (Seq<char>, Option<Seq<char>>)| (e.0, e.1->0)) =~= Seq::<
            (Seq<char>, Seq<char>),
        >::empty());
    }
}

/// A name carried by an entry of a table with distinct names has that
/// entry's value, and a name carried by none has no value.
proof fn lemma_value_of_index(s: Entries, name: Seq<char>)
    requires
        names_distinct(s),
    ensures
        has_name(s, name) ==> exists|i: int| 0 <= i < s.len() && (#[trigger] s[i]).0 == name && value_of(s, name) == Some(s[i].1),
        !has_name(s, name) ==> value_of(s, name) is None,
{
    if has_name(s, name) {
        let i = choose|i: int| 0 <= i < s.len() && (#[trigger] s[i]).0 == name;
        assert forall|j: int| 0 <= j < i implies (#[trigger] s[j]).0 != name by {
            assert(s[j].0 != s[i].0);
        }
        lemma_value_of_first(s, name, i);
    } else {
        lemma_value_of_absent(s, name);
    }
}

/// Entries with distinct names, written as a mapping of names to decimal
/// values and read back in any order, load as the same names with the same
/// numbers.
pub proof fn lemma_mapping_reload(s: Entries, es: Seq<(Seq<char>, Option<Seq<char>>)>)
    requires
        names_distinct(s),
        holds_pairs(es, decimal_rows(s)),
    ensures
        present_pairs(es) matches Ok(ps) && strict_from_pairs(ps) matches Ok(e) && same_named_values(e, s),
{
    let rows = decimal_rows(s);
    assert forall|j: int| 0 <= j < es.len() implies (#[trigger] es[j]).1 is Some by {
        let i = choose|i: int| 0 <= i < rows.len() && es[j] == (#[trigger] rows[i].0, Some(rows[i].1));
    }
    lemma_present_all(es);
    let ps = es.map_values(|e: (Seq<char>, Option<Seq<char>>)| (e.0, e.1->0));
    assert forall|i: int, j: int| 0 <= i < j < ps.len() implies (#[trigger] ps[i]).0 != (#[trigger] ps[j]).0 by {
        assert(ps[i].0 == es[i].0 && ps[j].0 == es[j].0);
    }
    assert forall|j: int| 0 <= j < ps.len() implies parse_text((#[trigger] ps[j]).1) is Some by {
        let i = choose|i: int| 0 <= i < rows.len() && es[j] == (#[trigger] rows[i].0, Some(rows[i].1));
        lemma_decimal_parses(s[i].1);
    }
    lemma_strict_parsed(ps);
    let e = strict_from_pairs(ps)->Ok_0;
    assert(names_distinct(e)) by {
        assert forall|i: int, j: int| 0 <= i < j < e.len() implies (#[trigger] e[i]).0 != (#[trigger] e[j]).0 by {
            assert(e[i] == (ps[i].0, parse_text(ps[i].1)->0));
            assert(e[j] == (ps[j].0, parse_text(ps[j].1)->0));
        }
    }
    assert forall|j: int| 0 <= j < es.len() implies #[trigger] e[j] == (es[j].0, parse_text(es[j].1->0)->0) by {
        assert(e[j] == (ps[j].0, parse_text(ps[j].1)->0));
        assert(parse_text(ps[j].1) is Some);
    }
    lemma_mapping_same(s, es, e);
}

/// Entries read back from a mapping of names to the decimal values of
/// entries with distinct names, each name with its value parsed, hold the
/// same names with the same numbers.
pub proof fn lemma_mapping_same(s: Entries, es: Seq<(Seq<char>, Option<Seq<char>>)>, e: Entries)
    requires
        names_distinct(s),
        holds_pairs(es, decimal_rows(s)),
        e.len() == es.len(),
        forall|j: int| 0 <= j < es.len() ==> #[trigger] e[j] == (es[j].0, parse_text(es[j].1->0)->0),
    ensures
        same_named_values(e, s),
{
    let rows = decimal_rows(s);
    assert(names_distinct(e)) by {
        assert forall|i: int, j: int| 0 <= i < j < e.len() implies (#[trigger] e[i]).0 != (#[trigger] e[j]).0 by {
            assert(e[i].0 == es[i].0 && e[j].0 == es[j].0);
        }
    }
    assert forall|name: Seq<char>| #![trigger value_of(e, name)] #![trigger value_of(s, name)]
        match (value_of(e, name), value_of(s, name)) {
            (Some(x), Some(y)) => x.value() == y.value(),
            (None, None) => true,
            _ => false,
        } by {
        lemma_mapping_name(s, es, e, name);
    }
}

/// One name of the entries read back from a mapping: it has a value there
/// exactly when it has one in the entries written, the same number.
proof fn lemma_mapping_name(s: Entries, es: Seq<(Seq<char>, Option<Seq<char>>)>, e: Entries, name: Seq<char>)
    requires
        names_distinct(s),
        names_distinct(e),
        holds_pairs(es, decimal_rows(s)),
        e.len() == es.len(),
        forall|j: int| 0 <= j < es.len() ==> #[trigger] e[j] == (es[j].0, parse_text(es[j].1->0)->0),
    ensures
        match (value_of(e, name), value_of(s, name)) {
            (Some(x), Some(y)) => x.value() == y.value(),
            (None, None) => true,
            _ => false,
        },
{
    let rows = decimal_rows(s);
    lemma_value_of_index(s, name);
    lemma_value_of_index(e, name);
    if has_name(s, name) {
        let i = choose|i: int| 0 <= i < s.len() && (#[trigger] s[i]).0 == name && value_of(s, name) == Some(s[i].1);
        assert(rows[i] == (s[i].0, decimal_text(s[i].1.value())));
        let j = choose|j: int| 0 <= j < es.len() && #[trigger] es[j] == (rows[i].0, Some(rows[i].1));
        assert(e[j].0 == es[j].0);
        lemma_decimal_parses(s[i].1);
        assert(has_name(e, name));
        let k = choose|k: int| 0 <= k < e.len() && (#[trigger] e[k]).0 == name && value_of(e, name) == Some(e[k].1);
        assert(k == j);
    } else if has_name(e, name) {
        let k = choose|k: int| 0 <= k < e.len() && (#[trigger] e[k]).0 == name && value_of(e, name) == Some(e[k].1);
        assert(e[k].0 == es[k].0);
        let i = choose|i: int| 0 <= i < rows.len() && es[k] == (#[trigger] rows[i].0, Some(rows[i].1));
        assert(s[i].0 == name);
    }
}

/// Mapping entries whose values are all present, all integers and whose
/// names do not repeat load with automatic numbering as those names with
/// those values parsed, in order.
pub proof fn lemma_auto_texts(es: Seq<(Seq<char>, Option<Seq<char>>)>)
    requires
        forall|j: int| 0 <= j < es.len() ==> ((#[trigger] es[j]).1 matches Some(t) && parse_text(t) is Some),
        forall|j: int, k: int| 0 <= j < k < es.len() ==> (#[trigger] es[j]).0 != (#[trigger] es[k]).0,
    ensures
        auto_from_texts(es) matches Ok(e) && e.len() == es.len() && forall|j: int|
            0 <= j < es.len() ==> #[trigger] e[j] == (es[j].0, parse_text(es[j].1->0)->0),
    decreases es.len(),
{
    if es.len() > 0 {
        let front = es.drop_last();
        assert forall|j: int| 0 <= j < front.len() implies ((#[trigger] front[j]).1 matches Some(t) && parse_text(t) is Some) by {
            assert(front[j] == es[j]);
        }
        assert forall|j: int, k: int| 0 <= j < k < front.len() implies (#[trigger] front[j]).0 != (#[trigger] front[k]).0 by {
            assert(front[j] == es[j] && front[k] == es[k]);
        }
        lemma_auto_texts(front);
        let e = auto_from_texts(front)->Ok_0;
        let last = es[es.len() - 1];
        assert(es.last() == last);
        assert(last.1 matches Some(t) && parse_text(t) is Some);
        if has_name(e, last.0) {
            let k = choose|k: int| 0 <= k < e.len() && (#[trigger] e[k]).0 == last.0;
            assert(e[k] == (front[k].0, parse_text(front[k].1->0)->0));
            assert(front[k] == es[k]);
        }
        let full = e.push((last.0, parse_text(last.1->0)->0));
        assert(auto_from_texts(es) == Ok::<Entries, Error>(full));
        assert forall|j: int| 0 <= j < es.len() implies #[trigger] full[j] == (es[j].0, parse_text(es[j].1->0)->0) by {
            if j < front.len() {
                assert(front[j] == es[j]);
            }
        }
    }
}

/// Entries with distinct names, written as decimal rows and loaded with
/// automatic numbering, give the same names in the same order with the
/// same numbers.
pub proof fn lemma_auto_rows(s: Entries)
    requires
        names_distinct(s),
    ensures
        auto_from_records(row_records(decimal_rows(s))) matches Ok(e) && same_values(e, s),
    decreases s.len(),
{
    if s.len() > 0 {
        let front = s.drop_last();
        assert forall|i: int, j: int| 0 <= i < j < front.len() implies (#[trigger] front[i]).0 != (#[trigger] front[j]).0 by {
            assert(front[i] == s[i] && front[j] == s[j]);
        }
        lemma_auto_rows(front);
        let recs = row_records(decimal_rows(s));
        assert(recs.drop_last() =~= row_records(decimal_rows(front)));
        let e = auto_from_records(recs.drop_last())->Ok_0;
        let last = s[s.len() - 1];
        assert(s.last() == last);
        lemma_decimal_parses(last.1);
        let w = parse_text(decimal_text(last.1.value()))->0;
        assert(recs.last() == seq![last.0, decimal_text(last.1.value())]);
        assert(record_entry(recs.last()) == Ok::<(Seq<char>, Option<Integer>), Error>((last.0, Some(w))));
        if has_name(e, last.0) {
            let k = choose|k: int| 0 <= k < e.len() && (#[trigger] e[k]).0 == last.0;
            assert(e[k].0 == front[k].0);
            assert(front[k] == s[k]);
        }
        let full = e.push((last.0, w));
        assert(auto_from_records(recs) == Ok::<Entries, Error>(full));
        assert forall|i: int| 0 <= i < full.len() implies (#[trigger] full[i]).0 == s[i].0 && full[i].1.value() == s[i].1.value() by {
            if i < front.len() {
                assert(full[i] == e[i]);
                assert(front[i] == s[i]);
            }
        }
    }
}

/// Decimal rows, as CSV records, give each name with its value parsed back
/// to the same number.
pub proof fn lemma_csv_values_rows(s: Entries)
    ensures
        csv_values(row_records(decimal_rows(s))) matches Ok(vs) && vs.len() == s.len() && forall|i: int|
            0 <= i < s.len() ==> (#[trigger] vs[i]).0 == s[i].0 && (vs[i].1 matches Some(w) && w.value()
                == s[i].1.value()),
    decreases s.len(),
{
    if s.len() > 0 {
        let front = s.drop_last();
        lemma_csv_values_rows(front);
        let recs = row_records(decimal_rows(s));
        assert(recs.drop_last() =~= row_records(decimal_rows(front)));
        lemma_decimal_parses(s.last().1);
        let vs = csv_values(recs.drop_last())->Ok_0;
        let w = parse_text(decimal_text(s.last().1.value()))->0;
        let all = vs.push((s.last().0, Some(w)));
        assert(csv_values(recs) == Ok::<Seq<(Seq<char>, Option<Integer>)>, Error>(all));
        assert forall|i: int| 0 <= i < s.len() implies (#[trigger] all[i]).0 == s[i].0 && (all[i].1 matches Some(w)
            && w.value() == s[i].1.value()) by {
            if i < front.len() {
                assert(all[i] == vs[i]);
                assert(front[i] == s[i]);
            }
        }
    }
}


/// The decimal rows of entries with distinct names have distinct names.
pub proof fn lemma_decimal_rows_distinct(s: Entries)
    requires
        names_distinct(s),
    ensures
        pair_names_distinct(decimal_rows(s)),
{
    let ps = decimal_rows(s);
    assert forall|i: int, j: int| 0 <= i < j < ps.len() implies (#[trigger] ps[i]).0 != (#[trigger] ps[j]).0 by {
        assert(ps[i].0 == s[i].0 && ps[j].0 == s[j].0);
    }
}


/// Entries with distinct names, written as a mapping of names to decimal
/// values and read back in any order, load with automatic numbering as the
/// same names with the same numbers.
pub proof fn lemma_mapping_reload_auto(s: Entries, es: Seq<(Seq<char>, Option<Seq<char>>)>)
    requires
        names_distinct(s),
        holds_pairs(es, decimal_rows(s)),
    ensures
        auto_from_texts(es) matches Ok(e) && same_named_values(e, s),
{
    let rows = decimal_rows(s);
    assert forall|j: int| 0 <= j < es.len() implies ((#[trigger] es[j]).1 matches Some(t) && parse_text(t) is Some) by {
        let i = choose|i: int| 0 <= i < rows.len() && es[j] == (#[trigger] rows[i].0, Some(rows[i].1));
        lemma_decimal_parses(s[i].1);
    }
    lemma_auto_texts(es);
    lemma_mapping_same(s, es, auto_from_texts(es)->Ok_0);
}

} // verus!
