use vstd::prelude::*;

use vstd::string::StringExecFns;

use crate::data::h2bitmasks::{bit_set, lemma_div_step, lemma_two_to_127, lemma_two_to_monotone, two_to};
use crate::data::lookup_tables::{
    name_of, numbered_csv, numbered_outcome, read_numbered, read_tables, table_of, tables_from,
    tables_outcome, LookupTables, Numbered,
};
use crate::data::table::texts;
use crate::error::Error;
use crate::number::digits::{chars_to_string, digits, push_digits};

verus! {

/// Read a bitmask from CSV text: each line a bit (0 to 63) and its name. A
/// line of other than two fields fails with [`Error::BadRecord`], a bit that
/// is no unsigned decimal of 64 bits with [`Error::InvalidInteger`], a bit
/// above 63 with [`Error::OutOfRange`]. Where a bit is given twice, the later
/// line names it.
pub fn load_from_csv(data: &str) -> (r: Result<Vec<(u64, String)>, Error>)
    ensures
        numbered_outcome(r) == numbered_csv(data@, u64::MAX as nat, 63, false),
{
    read_numbered(data, u64::MAX, 63, false)
}

/// Read the bitmasks: each source a name and its CSV text (see
/// [`load_from_csv`]); a later source of the same name replaces an earlier
/// one.
pub fn load_bitmasks(sources: &Vec<(String, String)>) -> (r: Result<LookupTables, Error>)
    ensures
        tables_outcome(r) == tables_from(
            sources@.map_values(|p: (String, String)| (p.0@, p.1@)),
            u64::MAX as nat,
            63,
            false,
        ),
{
    read_tables(sources, u64::MAX, 63, false)
}

/// Is there a bitmask with the name?
pub fn bitmask_exists(bitmasks: &LookupTables, name: &str) -> (r: bool)
    ensures
        r == table_of(bitmasks@, name@) is Some,
{
    bitmasks.contains(name)
}

/// The label of a bit with no name: `Unknown_0x` and the bit's value in
/// lowercase hex.
pub open spec fn unknown_label(bit: nat) -> Seq<char> {
    "Unknown_0x"@ + digits(two_to(bit), 16, false)
}

/// The bits of a 64-bit value from bit `from` on that are set or named,
/// lowest first: whether each is set, its value, and its name (or
/// [`unknown_label`]).
pub open spec fn bit_entries(t: Numbered, value: nat, from: nat) -> Seq<(bool, nat, Seq<char>)>
    decreases 64 - from,
{
    if from >= 64 {
        Seq::empty()
    } else {
        let on = bit_set(value, from);
        let rest = bit_entries(t, value, from + 1);
        match name_of(t, from) {
            Some(n) => seq![(on, two_to(from), n)] + rest,
            None => if on {
                seq![(on, two_to(from), unknown_label(from))] + rest
            } else {
                rest
            },
        }
    }
}

/// Entries as the specification gives them.
pub open spec fn entries_view(v: Seq<(bool, u64, String)>) -> Seq<(bool, nat, Seq<char>)> {
    v.map_values(|e: (bool, u64, String)| (e.0, e.1 as nat, e.2@))
}

/// The bits of a value in the named bitmask that are set or named, lowest
/// first: whether each is set, its value, and its name (`Unknown_0x` and the
/// value in hex for a set bit with no name). Fails with
/// [`Error::NotFound`] when there is no such bitmask.
pub fn from_bitmask(bitmasks: &LookupTables, bitmask: &str, value: u64) -> (r: Result<Vec<(bool, u64, String)>, Error>)
    ensures
        match table_of(bitmasks@, bitmask@) {
            None => r == Err::<Vec<(bool, u64, String)>, Error>(Error::NotFound),
            Some(t) => r is Ok && entries_view(r->Ok_0@) == bit_entries(t, value as nat, 0),
        },
{
    if !bitmasks.contains(bitmask) {
        return Err(Error::NotFound);
    }
    let ghost t = table_of(bitmasks@, bitmask@)->0;
    let ghost vn = value as nat;
    let mut rem: u64 = value;
    let mut weight: u64 = 1;
    let mut bit: u64 = 0;
    let mut out: Vec<(bool, u64, String)> = Vec::new();
    proof {
        lemma_two_to_127();
    }
    assert(entries_view(out@) =~= Seq::<(bool, nat, Seq<char>)>::empty());
    while bit < 64
        invariant
            bit <= 64,
            table_of(bitmasks@, bitmask@) == Some(t),
            vn == value,
            bit < 64 ==> weight == two_to(bit as nat),
            rem == vn / two_to(bit as nat),
            two_to(63) == 0x8000_0000_0000_0000,
            entries_view(out@) + bit_entries(t, vn, bit as nat) == bit_entries(t, vn, 0),
        decreases 64 - bit,
    {
        let on = rem % 2 == 1;
        assert(on == bit_set(vn, bit as nat));
        let named = match bitmasks.name_of(bitmask, bit) {
            Ok(n) => n,
            Err(_) => None,
        };
        let ghost prev = entries_view(out@);
        match named {
            Some(n) => {
                out.push((on, weight, n));
                assert(entries_view(out@) =~= prev + seq![(on, two_to(bit as nat), name_of(t, bit as nat)->0)]);
            },
            None => {
                if on {
                    let mut text: Vec<char> = Vec::new();
                    text.push('U');
                    text.push('n');
                    text.push('k');
                    text.push('n');
                    text.push('o');
                    text.push('w');
                    text.push('n');
                    text.push('_');
                    text.push('0');
                    text.push('x');
                    push_digits(&mut text, weight as u128, 16, false);
                    proof {
                        reveal_strlit("Unknown_0x");
                    }
                    assert(text@ =~= unknown_label(bit as nat));
                    out.push((on, weight, chars_to_string(text)));
                    assert(entries_view(out@) =~= prev + seq![(on, two_to(bit as nat), unknown_label(bit as nat))]);
                }
            },
        }
        proof {
            lemma_div_step(vn, bit as nat);
        }
        rem = rem / 2;
        if bit < 63 {
            proof {
                lemma_two_to_monotone((bit + 1) as nat, 63);
            }
            weight = weight * 2;
        }
        bit = bit + 1;
    }
    Ok(out)
}

/// The texts of entries: the name of each set bit and, when negatives are
/// included, `~` and the name of each unset one.
pub open spec fn entry_texts(es: Seq<(bool, nat, Seq<char>)>, include_negatives: bool) -> Seq<Seq<char>>
    decreases es.len(),
{
    if es.len() == 0 {
        Seq::empty()
    } else {
        let e = es[0];
        let rest = entry_texts(es.drop_first(), include_negatives);
        if e.0 {
            seq![e.2] + rest
        } else if include_negatives {
            seq![seq!['~'] + e.2] + rest
        } else {
            rest
        }
    }
}

/// The texts of a bitmask value: those of [`entry_texts`], or `(n/a)` alone
/// when there are none.
pub open spec fn bitmask_texts(es: Seq<(bool, nat, Seq<char>)>, include_negatives: bool) -> Seq<Seq<char>> {
    if entry_texts(es, include_negatives).len() == 0 {
        seq!["(n/a)"@]
    } else {
        entry_texts(es, include_negatives)
    }
}

/// The names of the bits of a value in the named bitmask: each set bit's
/// name and, with `include_negatives`, `~` and the name of each named bit
/// that is not set; `(n/a)` when there are none. Fails with
/// [`Error::NotFound`] when there is no such bitmask.
pub fn from_bitmask_str(bitmasks: &LookupTables, bitmask: &str, value: u64, include_negatives: bool) -> (r: Result<Vec<String>, Error>)
    ensures
        match table_of(bitmasks@, bitmask@) {
            None => r == Err::<Vec<String>, Error>(Error::NotFound),
            Some(t) => r is Ok && texts(r->Ok_0@) == bitmask_texts(
                bit_entries(t, value as nat, 0),
                include_negatives,
            ),
        },
{
    let entries = match from_bitmask(bitmasks, bitmask, value) {
        Ok(es) => es,
        Err(e) => return Err(e),
    };
    let ghost es = entries_view(entries@);
    let mut out: Vec<String> = Vec::new();
    let mut i: usize = 0;
    assert(es.skip(0) =~= es);
    while i < entries.len()
        invariant
            i <= entries@.len(),
            es == entries_view(entries@),
            texts(out@) + entry_texts(es.skip(i as int), include_negatives) == entry_texts(es, include_negatives),
        decreases entries@.len() - i,
    {
        assert(es.skip(i as int).drop_first() =~= es.skip(i + 1));
        assert(es.skip(i as int)[0] == es[i as int]);
        let ghost prev = texts(out@);
        if entries[i].0 {
            out.push(entries[i].2.clone());
            assert(texts(out@) =~= prev + seq![es[i as int].2]);
        } else if include_negatives {
            let mut s = String::from_str("~");
            s.append(entries[i].2.as_str());
            proof {
                reveal_strlit("~");
                assert("~"@ =~= seq!['~']);
            }
            out.push(s);
            assert(texts(out@) =~= prev + seq![seq!['~'] + es[i as int].2]);
        }
        i = i + 1;
    }
    assert(es.skip(i as int) =~= Seq::<(bool, nat, Seq<char>)>::empty());
    assert(texts(out@) + Seq::<Seq<char>>::empty() =~= texts(out@));
    if out.len() == 0 {
        out.push(String::from_str("(n/a)"));
        proof {
            reveal_strlit("(n/a)");
        }
        assert(texts(out@) =~= seq!["(n/a)"@]);
    }
    Ok(out)
}

} // verus!
