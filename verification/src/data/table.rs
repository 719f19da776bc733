use vstd::prelude::*;

use crate::number::integer::Integer;

verus! {

/// The text of each string.
pub open spec fn texts(v: Seq<String>) -> Seq<Seq<char>> {
    v.map_values(|s: String| s@)
}

/// Whether an entry carries the name.
pub open spec fn has_name(s: Seq<(Seq<char>, Integer)>, name: Seq<char>) -> bool {
    exists|i: int| 0 <= i < s.len() && (#[trigger] s[i]).0 == name
}

/// No name occurs twice.
pub open spec fn names_distinct(s: Seq<(Seq<char>, Integer)>) -> bool {
    forall|i: int, j: int| 0 <= i < j < s.len() ==> (#[trigger] s[i]).0 != (#[trigger] s[j]).0
}

/// The value of the entry with the name, if there is one (the first, should
/// there be several).
pub open spec fn value_of(s: Seq<(Seq<char>, Integer)>, name: Seq<char>) -> Option<Integer>
    decreases s.len(),
{
    if s.len() == 0 {
        None
    } else if s[0].0 == name {
        Some(s[0].1)
    } else {
        value_of(s.drop_first(), name)
    }
}

/// Two integers are equal as `==` compares them: by their 128-bit pattern.
pub open spec fn same_integer(a: Integer, b: Integer) -> bool {
    a.spec_as_u128() == b.spec_as_u128()
}

/// The names of the entries whose value equals `v`, in order.
pub open spec fn names_of_value(s: Seq<(Seq<char>, Integer)>, v: Integer) -> Seq<Seq<char>>
    decreases s.len(),
{
    if s.len() == 0 {
        Seq::empty()
    } else if same_integer(s.last().1, v) {
        names_of_value(s.drop_last(), v).push(s.last().0)
    } else {
        names_of_value(s.drop_last(), v)
    }
}

/// Named integers, in the order they were added; names are unique.
#[derive(Debug)]
pub struct NameTable {
    entries: Vec<(String, Integer)>,
}

impl View for NameTable {
    type V = Seq<(Seq<char>, Integer)>;

    closed spec fn view(&self) -> Seq<(Seq<char>, Integer)> {
        self.entries@.map_values(|e: (String, Integer)| (e.0@, e.1))
    }
}

impl NameTable {
    /// The table's invariant: no name occurs twice.
    pub open spec fn wf(&self) -> bool {
        names_distinct(self@)
    }

    pub fn new() -> (r: Self)
        ensures
            r@ == Seq::<(Seq<char>, Integer)>::empty(),
            r.wf(),
    {
        NameTable { entries: Vec::new() }
    }

    /// The number of entries.
    pub fn len(&self) -> (r: usize)
        ensures
            r == self@.len(),
    {
        self.entries.len()
    }

    /// The position of the entry with the name.
    pub fn find(&self, name: &str) -> (r: Option<usize>)
        ensures
            r is None <==> !has_name(self@, name@),
            r matches Some(i) ==> i < self@.len() && self@[i as int].0 == name@,
            r matches Some(i) ==> forall|j: int| 0 <= j < i ==> (#[trigger] self@[j]).0 != name@,
    {
        let key: String = name.to_owned();
        let mut i: usize = 0;
        while i < self.entries.len()
            invariant
                i <= self.entries@.len(),
                key@ == name@,
                forall|j: int| 0 <= j < i ==> (#[trigger] self@[j]).0 != name@,
            decreases self.entries@.len() - i,
        {
            if self.entries[i].0 == key {
                assert(self@[i as int].0 == name@);
                return Some(i);
            }
            i = i + 1;
        }
        proof {
            assert forall|j: int| 0 <= j < self@.len() implies (#[trigger] self@[j]).0 != name@ by {}
        }
        None
    }

    /// The entry at a position.
    pub fn entry(&self, i: usize) -> (r: &(String, Integer))
        requires
            i < self@.len(),
        ensures
            (r.0@, r.1) == self@[i as int],
    {
        &self.entries[i]
    }

    /// The value with the given name.
    pub fn get_by_name(&self, name: &str) -> (r: Option<&Integer>)
        ensures
            r matches Some(v) ==> value_of(self@, name@) == Some(*v),
            r is None ==> value_of(self@, name@) is None,
    {
        match self.find(name) {
            Some(i) => {
                proof {
                    lemma_value_of_first(self@, name@, i as int);
                }
                Some(&self.entries[i].1)
            },
            None => {
                proof {
                    lemma_value_of_absent(self@, name@);
                }
                None
            },
        }
    }

    /// The names whose value equals `v`, in the order they were added.
    pub fn names_with_value(&self, v: &Integer) -> (r: Vec<String>)
        ensures
            texts(r@) == names_of_value(self@, *v),
    {
        let target = v.as_u128();
        let mut out: Vec<String> = Vec::new();
        let mut i: usize = 0;
        while i < self.entries.len()
            invariant
                i <= self.entries@.len(),
                target == v.spec_as_u128(),
                texts(out@) == names_of_value(self@.take(i as int), *v),
            decreases self.entries@.len() - i,
        {
            assert(self@.take(i + 1).drop_last() =~= self@.take(i as int));
            if self.entries[i].1.as_u128() == target {
                out.push(self.entries[i].0.clone());
            }
            i = i + 1;
            assert(texts(out@) =~= names_of_value(self@.take(i as int), *v));
        }
        assert(self@.take(self@.len() as int) =~= self@);
        out
    }

    /// Add an entry at the end.
    pub fn push(&mut self, name: String, value: Integer)
        requires
            old(self).wf(),
            !has_name(old(self)@, name@),
        ensures
            final(self)@ == old(self)@.push((name@, value)),
            final(self).wf(),
    {
        self.entries.push((name, value));
        assert(self@ =~= old(self)@.push((name@, value)));
    }

    /// Copies of all the entries, in order.
    pub fn list(&self) -> (r: Vec<(String, Integer)>)
        ensures
            r@.map_values(|e: (String, Integer)| (e.0@, e.1)) == self@,
    {
        let mut out: Vec<(String, Integer)> = Vec::new();
        let mut i: usize = 0;
        while i < self.entries.len()
            invariant
                i <= self.entries@.len(),
                out@.len() == i,
                out@.map_values(|e: (String, Integer)| (e.0@, e.1)) == self@.take(i as int),
            decreases self.entries@.len() - i,
        {
            let e = &self.entries[i];
            let ghost before = out@;
            out.push((e.0.clone(), e.1));
            assert(self@[i as int] == (self.entries@[i as int].0@, self.entries@[i as int].1));
            assert(out@[i as int] == (e.0, e.1));
            i = i + 1;
            assert(out@.map_values(|e: (String, Integer)| (e.0@, e.1)) =~= self@.take(i as int));
        }
        assert(self@.take(self@.len() as int) =~= self@);
        out
    }
}

/// In a table with distinct names, the value of a name is that of the entry
/// carrying it.
pub proof fn lemma_value_of_first(s: Seq<(Seq<char>, Integer)>, name: Seq<char>, i: int)
    requires
        0 <= i < s.len(),
        s[i].0 == name,
        forall|j: int| 0 <= j < i ==> (#[trigger] s[j]).0 != name,
    ensures
        value_of(s, name) == Some(s[i].1),
    decreases i,
{
    if i > 0 {
        lemma_value_of_first(s.drop_first(), name, i - 1);
    }
}

/// A name that no entry carries has no value.
pub proof fn lemma_value_of_absent(s: Seq<(Seq<char>, Integer)>, name: Seq<char>)
    requires
        !has_name(s, name),
    ensures
        value_of(s, name) is None,
    decreases s.len(),
{
    if s.len() > 0 {
        assert(s[0].0 != name);
        assert forall|j: int| 0 <= j < s.drop_first().len() implies (#[trigger] s.drop_first()[j]).0
            != name by {
            assert(s.drop_first()[j] == s[j + 1]);
        }
        lemma_value_of_absent(s.drop_first(), name);
    }
}

/// After adding an entry with a new name, that name has the entry's value
/// and every other name keeps its value.
pub proof fn lemma_value_of_push(
    s: Seq<(Seq<char>, Integer)>,
    name: Seq<char>,
    value: Integer,
    other: Seq<char>,
)
    requires
        !has_name(s, name),
    ensures
        value_of(s.push((name, value)), name) == Some(value),
        other != name ==> value_of(s.push((name, value)), other) == value_of(s, other),
    decreases s.len(),
{
    let t = s.push((name, value));
    if s.len() == 0 {
        assert(t.drop_first() =~= Seq::<(Seq<char>, Integer)>::empty());
        assert(t[0] == (name, value));
        assert(value_of(t.drop_first(), other) is None);
    } else {
        assert(s[0].0 != name);
        assert(t[0] == s[0]);
        assert(s.push((name, value)).drop_first() =~= s.drop_first().push((name, value)));
        assert forall|j: int| 0 <= j < s.drop_first().len() implies (#[trigger] s.drop_first()[j]).0
            != name by {
            assert(s.drop_first()[j] == s[j + 1]);
        }
        lemma_value_of_push(s.drop_first(), name, value, other);
        assert(value_of(t, name) == value_of(t.drop_first(), name));
        if s[0].0 != other {
            assert(value_of(t, other) == value_of(t.drop_first(), other));
            assert(value_of(s, other) == value_of(s.drop_first(), other));
        }
    }
}


/// The names that have a value are names of entries; when no name repeats
/// in the entries, none repeats among them either.
pub proof fn lemma_names_of_value_distinct(s: Seq<(Seq<char>, Integer)>, v: Integer)
    requires
        names_distinct(s),
    ensures
        names_of_value(s, v).no_duplicates(),
        forall|k: int| 0 <= k < names_of_value(s, v).len() ==> has_name(s, #[trigger] names_of_value(s, v)[k]),
    decreases s.len(),
{
    if s.len() > 0 {
        let front = s.drop_last();
        assert forall|i: int, j: int| 0 <= i < j < front.len() implies (#[trigger] front[i]).0 != (#[trigger] front[j]).0 by {
            assert(front[i] == s[i] && front[j] == s[j]);
        }
        lemma_names_of_value_distinct(front, v);
        let ns = names_of_value(front, v);
        assert forall|k: int| 0 <= k < ns.len() implies has_name(s, #[trigger] ns[k]) by {
            let i = choose|i: int| 0 <= i < front.len() && (#[trigger] front[i]).0 == ns[k];
            assert(s[i] == front[i]);
        }
        if same_integer(s.last().1, v) {
            let all = ns.push(s.last().0);
            assert forall|k: int| 0 <= k < ns.len() implies #[trigger] ns[k] != s.last().0 by {
                let i = choose|i: int| 0 <= i < front.len() && (#[trigger] front[i]).0 == ns[k];
                assert(s[i] == front[i]);
                assert(s[i].0 != s[s.len() - 1].0);
            }
            assert forall|i: int, j: int| 0 <= i < all.len() && 0 <= j < all.len() && i != j implies all[i] != all[j] by {
                if i < ns.len() && j < ns.len() {
                    assert(all[i] == ns[i] && all[j] == ns[j]);
                } else if i < ns.len() {
                    assert(all[i] == ns[i]);
                } else if j < ns.len() {
                    assert(all[j] == ns[j]);
                }
            }
            assert forall|k: int| 0 <= k < all.len() implies has_name(s, #[trigger] all[k]) by {
                if k < ns.len() {
                    assert(all[k] == ns[k]);
                } else {
                    assert(s[s.len() - 1].0 == all[k]);
                }
            }
        }
    }
}


/// A name is among those with a value exactly when some entry carries the
/// name with that value.
proof fn lemma_names_of_value_index(s: Seq<(Seq<char>, Integer)>, v: Integer, n: Seq<char>)
    ensures
        names_of_value(s, v).contains(n) <==> exists|i: int|
            0 <= i < s.len() && (#[trigger] s[i]).0 == n && same_integer(s[i].1, v),
    decreases s.len(),
{
    if s.len() > 0 {
        let front = s.drop_last();
        lemma_names_of_value_index(front, v, n);
        let ns = names_of_value(front, v);
        if names_of_value(s, v).contains(n) {
            if same_integer(s.last().1, v) && !ns.contains(n) {
                let k = choose|k: int| 0 <= k < ns.push(s.last().0).len() && ns.push(s.last().0)[k] == n;
                assert(k == ns.len());
                assert(s[s.len() - 1].0 == n);
            } else {
                assert(ns.contains(n)) by {
                    if same_integer(s.last().1, v) {
                    } else {
                        assert(names_of_value(s, v) == ns);
                    }
                }
                let i = choose|i: int| 0 <= i < front.len() && (#[trigger] front[i]).0 == n && same_integer(front[i].1, v);
                assert(s[i] == front[i]);
            }
        }
        if exists|i: int| 0 <= i < s.len() && (#[trigger] s[i]).0 == n && same_integer(s[i].1, v) {
            let i = choose|i: int| 0 <= i < s.len() && (#[trigger] s[i]).0 == n && same_integer(s[i].1, v);
            if i < front.len() {
                assert(front[i] == s[i]);
                let k = choose|k: int| 0 <= k < ns.len() && ns[k] == n;
                if same_integer(s.last().1, v) {
                    assert(ns.push(s.last().0)[k] == n);
                }
            } else {
                assert(ns.push(s.last().0)[ns.len() as int] == n);
            }
        }
    }
}

/// When no name repeats, a name is among those with a value exactly when its
/// value is that value (compared as 128-bit patterns): what a lookup by
/// value gives agrees with what a lookup by name gives.
pub proof fn lemma_names_of_value_iff(s: Seq<(Seq<char>, Integer)>, v: Integer, n: Seq<char>)
    requires
        names_distinct(s),
    ensures
        names_of_value(s, v).contains(n) <==> (value_of(s, n) matches Some(w) && same_integer(w, v)),
{
    lemma_names_of_value_index(s, v, n);
    if has_name(s, n) {
        let i = choose|i: int| 0 <= i < s.len() && (#[trigger] s[i]).0 == n;
        assert forall|j: int| 0 <= j < i implies (#[trigger] s[j]).0 != n by {
            assert(s[j].0 != s[i].0);
        }
        lemma_value_of_first(s, n, i);
        if exists|k: int| 0 <= k < s.len() && (#[trigger] s[k]).0 == n && same_integer(s[k].1, v) {
            let k = choose|k: int| 0 <= k < s.len() && (#[trigger] s[k]).0 == n && same_integer(s[k].1, v);
            if k != i {
                assert(s[k].0 != s[i].0);
            }
        }
    } else {
        lemma_value_of_absent(s, n);
    }
}

/// No name has a value that no entry has.
pub proof fn lemma_names_of_value_none(s: Seq<(Seq<char>, Integer)>, v: Integer)
    requires
        forall|k: int| 0 <= k < s.len() ==> !same_integer(#[trigger] s[k].1, v),
    ensures
        names_of_value(s, v).len() == 0,
    decreases s.len(),
{
    if s.len() > 0 {
        let front = s.drop_last();
        assert forall|k: int| 0 <= k < front.len() implies !same_integer(#[trigger] front[k].1, v) by {
            assert(front[k] == s[k]);
        }
        lemma_names_of_value_none(front, v);
        assert(!same_integer(s[s.len() - 1].1, v));
    }
}

/// When exactly one entry has a value, its name is the only one with it.
pub proof fn lemma_names_of_value_one(s: Seq<(Seq<char>, Integer)>, v: Integer, i: int)
    requires
        0 <= i < s.len(),
        same_integer(s[i].1, v),
        forall|k: int| 0 <= k < s.len() && k != i ==> !same_integer(#[trigger] s[k].1, v),
    ensures
        names_of_value(s, v) == seq![s[i].0],
    decreases s.len(),
{
    let front = s.drop_last();
    if i == s.len() - 1 {
        assert forall|k: int| 0 <= k < front.len() implies !same_integer(#[trigger] front[k].1, v) by {
            assert(front[k] == s[k]);
        }
        lemma_names_of_value_none(front, v);
        assert(names_of_value(s, v) =~= seq![s[i].0]);
    } else {
        assert(front[i] == s[i]);
        assert forall|k: int| 0 <= k < front.len() && k != i implies !same_integer(#[trigger] front[k].1, v) by {
            assert(front[k] == s[k]);
        }
        lemma_names_of_value_one(front, v, i);
        assert(!same_integer(s[s.len() - 1].1, v));
    }
}

/// When two entries have a value, at least two names have it.
pub proof fn lemma_names_of_value_two(s: Seq<(Seq<char>, Integer)>, v: Integer, i: int, j: int)
    requires
        0 <= i < j < s.len(),
        same_integer(s[i].1, v),
        same_integer(s[j].1, v),
    ensures
        names_of_value(s, v).len() >= 2,
    decreases s.len(),
{
    let front = s.drop_last();
    assert(front[i] == s[i]);
    if j == s.len() - 1 {
        lemma_names_of_value_index(front, v, s[i].0);
        assert(names_of_value(front, v).contains(s[i].0));
    } else {
        assert(front[j] == s[j]);
        lemma_names_of_value_two(front, v, i, j);
    }
}

} // verus!
