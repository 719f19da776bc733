use vstd::prelude::*;

use crate::data::formats::{csv_records_of, read_csv_records, records_view};
use crate::data::table::texts;
use crate::error::Error;
use crate::number::integer_text::{decimal_value, parse_unsigned};

verus! {

/// Numbers with names, in the order read.
pub type Numbered = Seq<(nat, Seq<char>)>;

/// Named tables of numbered names, in the order added.
pub type Tables = Seq<(Seq<char>, Numbered)>;

/// A table as the specification gives it.
pub open spec fn numbered_view(v: Seq<(u64, String)>) -> Numbered {
    v.map_values(|e: (u64, String)| (e.0 as nat, e.1@))
}

/// The first table with the name.
pub open spec fn table_of(s: Tables, name: Seq<char>) -> Option<Numbered>
    decreases s.len(),
{
    if s.len() == 0 {
        None
    } else if s[0].0 == name {
        Some(s[0].1)
    } else {
        table_of(s.drop_first(), name)
    }
}

/// The tables with one more, which replaces a table of the same name.
pub open spec fn put_table(s: Tables, name: Seq<char>, t: Numbered) -> Tables
    decreases s.len(),
{
    if s.len() == 0 {
        seq![(name, t)]
    } else if s[0].0 == name {
        s.update(0, (name, t))
    } else {
        seq![s[0]] + put_table(s.drop_first(), name, t)
    }
}

/// The name of the last entry with the number (the one that a later row
/// gave, where a number is given twice).
pub open spec fn name_of(t: Numbered, n: nat) -> Option<Seq<char>>
    decreases t.len(),
{
    if t.len() == 0 {
        None
    } else if t.last().0 == n {
        Some(t.last().1)
    } else {
        name_of(t.drop_last(), n)
    }
}

/// Named tables of numbered names (an enumeration's values, a bitmask's
/// bits), each read from its own CSV text.
#[derive(Debug)]
pub struct LookupTables {
    tables: Vec<(String, Vec<(u64, String)>)>,
}

impl View for LookupTables {
    type V = Tables;

    closed spec fn view(&self) -> Tables {
        self.tables@.map_values(|e: (String, Vec<(u64, String)>)| (e.0@, numbered_view(e.1@)))
    }
}

impl LookupTables {
    /// No tables.
    pub fn new() -> (r: Self)
        ensures
            r@ == Seq::<(Seq<char>, Numbered)>::empty(),
    {
        LookupTables { tables: Vec::new() }
    }

    /// Add a table under a name, replacing a table of that name.
    pub fn insert(&mut self, name: String, table: Vec<(u64, String)>)
        ensures
            final(self)@ == put_table(old(self)@, name@, numbered_view(table@)),
    {
        let ghost s = old(self)@;
        let ghost nm = name@;
        let ghost tv = numbered_view(table@);
        let mut i: usize = 0;
        while i < self.tables.len()
            invariant
                i <= self.tables@.len(),
                self@ == s,
                s == old(self)@,
                nm == name@,
                tv == numbered_view(table@),
                forall|j: int| 0 <= j < i ==> (#[trigger] s[j]).0 != name@,
            decreases self.tables@.len() - i,
        {
            assert(s[i as int] == (self.tables@[i as int].0@, numbered_view(self.tables@[i as int].1@)));
            if self.tables[i].0 == name {
                proof {
                    lemma_put_at(s, name@, numbered_view(table@), i as int);
                }
                let ghost before = self@;
                self.tables.set(i, (name, table));
                assert(self@ =~= before.update(i as int, (self.tables@[i as int].0@, numbered_view(self.tables@[i as int].1@))));
                assert(self.tables@[i as int].0@ == nm && numbered_view(self.tables@[i as int].1@) == tv);
                assert(self@ =~= put_table(s, nm, tv));
                return;
            }
            i = i + 1;
        }
        proof {
            lemma_put_absent(s, name@, numbered_view(table@));
        }
        let ghost before = self@;
        self.tables.push((name, table));
        assert(self@ =~= before.push((self.tables@.last().0@, numbered_view(self.tables@.last().1@))));
        assert(self@ =~= put_table(s, nm, tv));
    }

    /// Whether there is a table with the name.
    pub fn contains(&self, name: &str) -> (r: bool)
        ensures
            r == table_of(self@, name@) is Some,
    {
        self.find(name).is_some()
    }

    /// The index of the first table with the name.
    fn find(&self, name: &str) -> (r: Option<usize>)
        ensures
            match table_of(self@, name@) {
                Some(t) => r is Some && r->0 < self.tables@.len() && numbered_view(
                    self.tables@[r->0 as int].1@,
                ) == t,
                None => r is None,
            },
    {
        let ghost s = self@;
        let key: String = name.to_owned();
        let mut i: usize = 0;
        assert(s.skip(0) =~= s);
        while i < self.tables.len()
            invariant
                i <= self.tables@.len(),
                s == self@,
                key@ == name@,
                table_of(s, name@) == table_of(s.skip(i as int), name@),
            decreases self.tables@.len() - i,
        {
            assert(s.skip(i as int).drop_first() =~= s.skip(i + 1));
            assert(s.skip(i as int)[0] == s[i as int]);
            assert(s[i as int] == (self.tables@[i as int].0@, numbered_view(self.tables@[i as int].1@)));
            if self.tables[i].0 == key {
                return Some(i);
            }
            i = i + 1;
        }
        assert(s.skip(i as int) =~= Seq::<(Seq<char>, Numbered)>::empty());
        None
    }

    /// The name of a number in the named table; [`Error::NotFound`] when
    /// there is no such table.
    pub fn name_of(&self, table: &str, n: u64) -> (r: Result<Option<String>, Error>)
        ensures
            match table_of(self@, table@) {
                None => r == Err::<Option<String>, Error>(Error::NotFound),
                Some(t) => match name_of(t, n as nat) {
                    Some(name) => r is Ok && r->Ok_0 is Some && r->Ok_0->0@ == name,
                    None => r == Ok::<Option<String>, Error>(None),
                },
            },
    {
        let i = match self.find(table) {
            Some(i) => i,
            None => return Err(Error::NotFound),
        };
        let entries = &self.tables[i].1;
        let ghost t = numbered_view(entries@);
        assert(table_of(self@, table@) == Some(t));
        let mut k: usize = entries.len();
        assert(t.take(k as int) =~= t);
        while k > 0
            invariant
                k <= entries@.len(),
                t == numbered_view(entries@),
                table_of(self@, table@) == Some(t),
                name_of(t, n as nat) == name_of(t.take(k as int), n as nat),
            decreases k,
        {
            assert(t.take(k as int).drop_last() =~= t.take(k - 1));
            assert(t.take(k as int).last() == t[k - 1]);
            assert(t[k - 1] == (entries@[k - 1].0 as nat, entries@[k - 1].1@));
            if entries[k - 1].0 == n {
                let found = entries[k - 1].1.clone();
                assert(found@ == t[k - 1].1);
                assert(name_of(t.take(k as int), n as nat) == Some(found@));
                return Ok(Some(found));
            }
            k = k - 1;
        }
        assert(t.take(0) =~= Seq::<(nat, Seq<char>)>::empty());
        Ok(None)
    }
}

/// Putting a table where one of the name already stands replaces it there.
proof fn lemma_put_at(s: Tables, name: Seq<char>, t: Numbered, i: int)
    requires
        0 <= i < s.len(),
        s[i].0 == name,
        forall|j: int| 0 <= j < i ==> (#[trigger] s[j]).0 != name,
    ensures
        put_table(s, name, t) == s.update(i, (name, t)),
    decreases i,
{
    if i > 0 {
        assert(s.drop_first()[i - 1] == s[i]);
        assert forall|j: int| 0 <= j < i - 1 implies (#[trigger] s.drop_first()[j]).0 != name by {
            assert(s.drop_first()[j] == s[j + 1]);
        }
        lemma_put_at(s.drop_first(), name, t, i - 1);
        assert(seq![s[0]] + s.drop_first().update(i - 1, (name, t)) =~= s.update(i, (name, t)));
    }
}

/// Putting a table of a new name adds it at the end.
proof fn lemma_put_absent(s: Tables, name: Seq<char>, t: Numbered)
    requires
        forall|j: int| 0 <= j < s.len() ==> (#[trigger] s[j]).0 != name,
    ensures
        put_table(s, name, t) == s.push((name, t)),
    decreases s.len(),
{
    if s.len() > 0 {
        assert forall|j: int| 0 <= j < s.drop_first().len() implies (#[trigger] s.drop_first()[j]).0
            != name by {
            assert(s.drop_first()[j] == s[j + 1]);
        }
        assert(s[0].0 != name);
        lemma_put_absent(s.drop_first(), name, t);
        assert(seq![s[0]] + s.drop_first().push((name, t)) =~= s.push((name, t)));
    }
}

/// A table put under a name is the one found under it; the tables of the
/// other names stay as they were.
pub proof fn lemma_put_then_find(s: Tables, name: Seq<char>, t: Numbered, other: Seq<char>)
    ensures
        table_of(put_table(s, name, t), name) == Some(t),
        other != name ==> table_of(put_table(s, name, t), other) == table_of(s, other),
    decreases s.len(),
{
    let p = put_table(s, name, t);
    if s.len() == 0 {
        assert(p == seq![(name, t)]);
        assert(p.drop_first() =~= Seq::<(Seq<char>, Numbered)>::empty());
        assert(table_of(p.drop_first(), other) is None);
    } else if s[0].0 != name {
        lemma_put_then_find(s.drop_first(), name, t, other);
        assert(p == seq![s[0]] + put_table(s.drop_first(), name, t));
        assert(p[0] == s[0]);
        assert(p.drop_first() =~= put_table(s.drop_first(), name, t));
    } else {
        assert(p == s.update(0, (name, t)));
        assert(p[0] == (name, t));
        assert(p.drop_first() =~= s.drop_first());
    }
}

/// A row of a CSV table: exactly two fields, a number and its name. The
/// number is an unsigned decimal that its type holds (no larger than
/// `bound`, else [`Error::InvalidInteger`]) and no larger than `max` (else
/// [`Error::OutOfRange`]).
pub open spec fn numbered_row(rec: Seq<Seq<char>>, bound: nat, max: nat) -> Result<(nat, Seq<char>), Error> {
    if rec.len() != 2 {
        Err(Error::BadRecord)
    } else {
        match decimal_value(rec[0]) {
            None => Err(Error::InvalidInteger),
            Some(v) => if v > bound {
                Err(Error::InvalidInteger)
            } else if v <= max {
                Ok((v as nat, rec[1]))
            } else {
                Err(Error::OutOfRange)
            },
        }
    }
}

/// Whether some entry carries the number.
pub open spec fn has_number(t: Numbered, n: nat) -> bool {
    exists|i: int| 0 <= i < t.len() && (#[trigger] t[i]).0 == n
}

/// The rows of CSV records, read in turn; the first failure is the result.
/// With `unique`, a number given twice fails with [`Error::DuplicateValue`].
pub open spec fn numbered_rows(recs: Seq<Seq<Seq<char>>>, bound: nat, max: nat, unique: bool) -> Result<Numbered, Error>
    decreases recs.len(),
{
    if recs.len() == 0 {
        Ok(Seq::empty())
    } else {
        match numbered_rows(recs.drop_last(), bound, max, unique) {
            Err(e) => Err(e),
            Ok(t) => match numbered_row(recs.last(), bound, max) {
                Err(e) => Err(e),
                Ok(row) => if unique && has_number(t, row.0) {
                    Err(Error::DuplicateValue)
                } else {
                    Ok(t.push(row))
                },
            },
        }
    }
}

/// A result of a table as the specification gives it.
pub open spec fn numbered_outcome(r: Result<Vec<(u64, String)>, Error>) -> Result<Numbered, Error> {
    match r {
        Ok(v) => Ok(numbered_view(v@)),
        Err(e) => Err(e),
    }
}

/// What reading a CSV table gives: [`Error::Unparseable`] for a text that
/// the csv crate refuses, else the rows (see [`numbered_rows`]).
pub open spec fn numbered_csv(text: Seq<char>, bound: nat, max: nat, unique: bool) -> Result<Numbered, Error> {
    match csv_records_of(text) {
        None => Err(Error::Unparseable),
        Some(recs) => numbered_rows(recs, bound, max, unique),
    }
}

/// Whether some entry of a table carries the number.
fn contains_number(t: &Vec<(u64, String)>, n: u64) -> (r: bool)
    ensures
        r == has_number(numbered_view(t@), n as nat),
{
    let mut i: usize = 0;
    while i < t.len()
        invariant
            i <= t@.len(),
            forall|j: int| 0 <= j < i ==> (#[trigger] t@[j]).0 != n,
        decreases t@.len() - i,
    {
        if t[i].0 == n {
            assert(numbered_view(t@)[i as int].0 == n as nat);
            return true;
        }
        i = i + 1;
    }
    assert(numbered_view(t@).len() == t@.len());
    assert forall|j: int| 0 <= j < numbered_view(t@).len() implies (#[trigger] numbered_view(t@)[j]).0
        != n as nat by {
        assert(numbered_view(t@)[j].0 == t@[j].0 as nat);
    }
    false
}

/// Read a CSV table of numbers and names (see [`numbered_rows`]).
pub fn read_numbered(data: &str, bound: u64, max: u64, unique: bool) -> (r: Result<Vec<(u64, String)>, Error>)
    ensures
        numbered_outcome(r) == numbered_csv(data@, bound as nat, max as nat, unique),
{
    let records = match read_csv_records(data) {
        Ok(recs) => recs,
        Err(e) => return Err(e),
    };
    let ghost recs = records_view(records@);
    let mut out: Vec<(u64, String)> = Vec::new();
    let mut i: usize = 0;
    assert(recs.take(0) =~= Seq::<Seq<Seq<char>>>::empty());
    assert(numbered_view(out@) =~= Seq::<(nat, Seq<char>)>::empty());
    while i < records.len()
        invariant
            i <= records@.len(),
            recs == records_view(records@),
            csv_records_of(data@) == Some(recs),
            numbered_rows(recs.take(i as int), bound as nat, max as nat, unique) == Ok::<Numbered, Error>(
                numbered_view(out@),
            ),
        decreases records@.len() - i,
    {
        assert(recs.take(i + 1).drop_last() =~= recs.take(i as int));
        let rec = &records[i];
        assert(recs.take(i + 1).last() == texts(rec@));
        assert(texts(rec@).len() == rec@.len());
        if rec.len() != 2 {
            assert(numbered_row(texts(rec@), bound as nat, max as nat) == Err::<(nat, Seq<char>), Error>(Error::BadRecord));
            proof {
                lemma_numbered_stops(recs, bound as nat, max as nat, unique, i as int + 1);
            }
            return Err(Error::BadRecord);
        }
        assert(texts(rec@)[0] == rec@[0]@);
        assert(texts(rec@)[1] == rec@[1]@);
        let n = match parse_unsigned(rec[0].as_str(), bound as u128) {
            Some(v) => v,
            None => {
                assert(numbered_row(texts(rec@), bound as nat, max as nat) == Err::<(nat, Seq<char>), Error>(Error::InvalidInteger));
                proof {
                    lemma_numbered_stops(recs, bound as nat, max as nat, unique, i as int + 1);
                }
                return Err(Error::InvalidInteger);
            },
        };
        if n > max as u128 {
            proof {
                lemma_numbered_stops(recs, bound as nat, max as nat, unique, i as int + 1);
            }
            return Err(Error::OutOfRange);
        }
        let n = n as u64;
        if unique && contains_number(&out, n) {
            proof {
                lemma_numbered_stops(recs, bound as nat, max as nat, unique, i as int + 1);
            }
            return Err(Error::DuplicateValue);
        }
        out.push((n, rec[1].clone()));
        i = i + 1;
        assert(numbered_view(out@) =~= numbered_rows(recs.take(i as int), bound as nat, max as nat, unique)->Ok_0);
    }
    assert(recs.take(records@.len() as int) =~= recs);
    Ok(out)
}

/// Once reading the first `k` records fails, reading all of them fails the
/// same way.
proof fn lemma_numbered_stops(recs: Seq<Seq<Seq<char>>>, bound: nat, max: nat, unique: bool, k: int)
    requires
        0 <= k <= recs.len(),
        numbered_rows(recs.take(k), bound, max, unique) is Err,
    ensures
        numbered_rows(recs, bound, max, unique) == numbered_rows(recs.take(k), bound, max, unique),
    decreases recs.len() - k,
{
    if k < recs.len() {
        assert(recs.take(k + 1).drop_last() =~= recs.take(k));
        lemma_numbered_stops(recs, bound, max, unique, k + 1);
    } else {
        assert(recs.take(k) =~= recs);
    }
}

/// Tables read from (name, CSV text) sources in turn, each put under its
/// name; the first failure is the result.
pub open spec fn tables_from(sources: Seq<(Seq<char>, Seq<char>)>, bound: nat, max: nat, unique: bool) -> Result<Tables, Error>
    decreases sources.len(),
{
    if sources.len() == 0 {
        Ok(Seq::empty())
    } else {
        match tables_from(sources.drop_last(), bound, max, unique) {
            Err(e) => Err(e),
            Ok(s) => match numbered_csv(sources.last().1, bound, max, unique) {
                Err(e) => Err(e),
                Ok(t) => Ok(put_table(s, sources.last().0, t)),
            },
        }
    }
}

/// A result of tables as the specification gives it.
pub open spec fn tables_outcome(r: Result<LookupTables, Error>) -> Result<Tables, Error> {
    match r {
        Ok(t) => Ok(t@),
        Err(e) => Err(e),
    }
}

/// Read named CSV tables (see [`tables_from`]).
pub fn read_tables(sources: &Vec<(String, String)>, bound: u64, max: u64, unique: bool) -> (r: Result<LookupTables, Error>)
    ensures
        tables_outcome(r) == tables_from(
            sources@.map_values(|p: (String, String)| (p.0@, p.1@)),
            bound as nat,
            max as nat,
            unique,
        ),
{
    let ghost src = sources@.map_values(|p: (String, String)| (p.0@, p.1@));
    let mut out = LookupTables::new();
    let mut i: usize = 0;
    assert(src.take(0) =~= Seq::<(Seq<char>, Seq<char>)>::empty());
    while i < sources.len()
        invariant
            i <= sources@.len(),
            src == sources@.map_values(|p: (String, String)| (p.0@, p.1@)),
            tables_from(src.take(i as int), bound as nat, max as nat, unique) == Ok::<Tables, Error>(out@),
        decreases sources@.len() - i,
    {
        assert(src.take(i + 1).drop_last() =~= src.take(i as int));
        assert(src.take(i + 1).last() == (sources@[i as int].0@, sources@[i as int].1@));
        let table = match read_numbered(sources[i].1.as_str(), bound, max, unique) {
            Ok(t) => t,
            Err(e) => {
                proof {
                    lemma_tables_stop(src, bound as nat, max as nat, unique, i as int + 1);
                }
                return Err(e);
            },
        };
        out.insert(sources[i].0.clone(), table);
        i = i + 1;
    }
    assert(src.take(sources@.len() as int) =~= src);
    Ok(out)
}

/// Once reading the first `k` sources fails, reading all of them fails the
/// same way.
proof fn lemma_tables_stop(src: Seq<(Seq<char>, Seq<char>)>, bound: nat, max: nat, unique: bool, k: int)
    requires
        0 <= k <= src.len(),
        tables_from(src.take(k), bound, max, unique) is Err,
    ensures
        tables_from(src, bound, max, unique) == tables_from(src.take(k), bound, max, unique),
    decreases src.len() - k,
{
    if k < src.len() {
        assert(src.take(k + 1).drop_last() =~= src.take(k));
        lemma_tables_stop(src, bound, max, unique, k + 1);
    } else {
        assert(src.take(k) =~= src);
    }
}

} // verus!
