use vstd::prelude::*;

use crate::data::load_options::{LoadName, LoadNamespace, LoadOptions};
use crate::error::Error;

verus! {

/// Named values, in the order added.
pub type Items<T> = Seq<(Seq<char>, T)>;

/// Namespaces (the unnamed one is `None`) with their named values.
pub type Spaces<T> = Seq<(Option<Seq<char>>, Items<T>)>;

/// The text of an optional name.
pub open spec fn opt_text(o: Option<&str>) -> Option<Seq<char>> {
    match o {
        Some(s) => Some(s@),
        None => None,
    }
}

/// The text of an optional owned name.
pub open spec fn opt_string_text(o: Option<String>) -> Option<Seq<char>> {
    match o {
        Some(s) => Some(s@),
        None => None,
    }
}

/// The values of a namespace, if it exists.
pub open spec fn space_of<T>(s: Spaces<T>, ns: Option<Seq<char>>) -> Option<Items<T>>
    decreases s.len(),
{
    if s.len() == 0 {
        None
    } else if s[0].0 == ns {
        Some(s[0].1)
    } else {
        space_of(s.drop_first(), ns)
    }
}

/// The position of a namespace (meaningful when it exists).
pub open spec fn space_pos<T>(s: Spaces<T>, ns: Option<Seq<char>>) -> int
    decreases s.len(),
{
    if s.len() == 0 || s[0].0 == ns {
        0
    } else {
        1 + space_pos(s.drop_first(), ns)
    }
}

/// Whether a name is among the values.
pub open spec fn has_item<T>(items: Items<T>, name: Seq<char>) -> bool {
    exists|i: int| 0 <= i < items.len() && (#[trigger] items[i]).0 == name
}

/// The value with a name, if there is one.
pub open spec fn item_of<T>(items: Items<T>, name: Seq<char>) -> Option<T>
    decreases items.len(),
{
    if items.len() == 0 {
        None
    } else if items[0].0 == name {
        Some(items[0].1)
    } else {
        item_of(items.drop_first(), name)
    }
}

/// The position of a name among the values (meaningful when it is there).
pub open spec fn item_pos<T>(items: Items<T>, name: Seq<char>) -> int
    decreases items.len(),
{
    if items.len() == 0 || items[0].0 == name {
        0
    } else {
        1 + item_pos(items.drop_first(), name)
    }
}

/// No name occurs twice among the values.
pub open spec fn items_distinct<T>(items: Items<T>) -> bool {
    forall|i: int, j: int| 0 <= i < j < items.len() ==> (#[trigger] items[i]).0 != (#[trigger] items[j]).0
}

/// The namespaces' invariant: the unnamed namespace comes first, no
/// namespace occurs twice, and names are unique within each.
pub open spec fn spaces_wf<T>(s: Spaces<T>) -> bool {
    &&& s.len() >= 1
    &&& s[0].0 is None
    &&& forall|i: int, j: int| 0 <= i < j < s.len() ==> (#[trigger] s[i]).0 != (#[trigger] s[j]).0
    &&& forall|i: int| 0 <= i < s.len() ==> items_distinct(#[trigger] s[i].1)
}

/// Whether a name occurs twice among the values.
pub open spec fn repeats<T>(data: Items<T>) -> bool {
    exists|i: int, j: int| 0 <= i < j < data.len() && (#[trigger] data[i]).0 == (#[trigger] data[j]).0
}

/// Whether one of the new values carries a name already there.
pub open spec fn conflicts<T>(items: Items<T>, data: Items<T>) -> bool {
    exists|i: int| 0 <= i < data.len() && has_item(items, (#[trigger] data[i]).0)
}

/// The namespaces, with the given one created (empty, at the end) when it
/// does not exist.
pub open spec fn with_space<T>(s: Spaces<T>, ns: Option<Seq<char>>) -> Spaces<T> {
    if space_of(s, ns) is Some {
        s
    } else {
        s.push((ns, Seq::empty()))
    }
}

/// What loading a batch of values into a namespace does: a name that the
/// batch holds twice, or that the namespace already holds, fails with
/// [`Error::DuplicateName`] and changes nothing; otherwise the namespace is
/// created if needed and the values are added after those already there.
pub open spec fn loaded_into<T>(s: Spaces<T>, ns: Option<Seq<char>>, data: Items<T>) -> (Spaces<T>, Result<(), Error>) {
    let s1 = with_space(s, ns);
    let items = space_of(s1, ns)->0;
    if repeats(data) || conflicts(items, data) {
        (s, Err(Error::DuplicateName))
    } else {
        (s1.update(space_pos(s1, ns), (ns, items + data)), Ok(()))
    }
}

/// A collection of one kind of data, grouped by namespace and then by name.
///
/// The unnamed (`None`) namespace always exists.
#[derive(Debug)]
pub struct DataEntry<T> {
    namespaces: Vec<(Option<String>, Vec<(String, T)>)>,
}

impl<T> View for DataEntry<T> {
    type V = Spaces<T>;

    closed spec fn view(&self) -> Spaces<T> {
        spaces_view(self.namespaces@)
    }
}

/// Namespaces as the specification gives them.
pub open spec fn spaces_view<T>(v: Seq<(Option<String>, Vec<(String, T)>)>) -> Spaces<T> {
    v.map_values(
        |e: (Option<String>, Vec<(String, T)>)|
            (opt_string_text(e.0), e.1@.map_values(|i: (String, T)| (i.0@, i.1))),
    )
}

/// The names of values, in order.
pub open spec fn item_names<T>(items: Items<T>) -> Seq<Seq<char>> {
    items.map_values(|e: (Seq<char>, T)| e.0)
}

/// The named namespaces, in order.
pub open spec fn named_spaces<T>(s: Spaces<T>) -> Seq<Seq<char>>
    decreases s.len(),
{
    if s.len() == 0 {
        Seq::empty()
    } else {
        match s.last().0 {
            Some(n) => named_spaces(s.drop_last()).push(n),
            None => named_spaces(s.drop_last()),
        }
    }
}

impl<T> Default for DataEntry<T> {
    /// An empty collection: just the unnamed namespace.
    fn default() -> (r: Self)
        ensures
            r@ == seq![(None::<Seq<char>>, Seq::<(Seq<char>, T)>::empty())],
            r.wf(),
    {
        Self::new()
    }
}

impl<T> DataEntry<T> {
    /// The invariant of the namespaces: no namespace twice, and no name twice
    /// within one.
    #[verifier::type_invariant]
    pub open spec fn wf(&self) -> bool {
        spaces_wf(self@)
    }

    /// An empty collection: just the unnamed namespace.
    pub fn new() -> (r: Self)
        ensures
            r@ == seq![(None::<Seq<char>>, Seq::<(Seq<char>, T)>::empty())],
            r.wf(),
    {
        let mut namespaces: Vec<(Option<String>, Vec<(String, T)>)> = Vec::new();
        namespaces.push((None, Vec::new()));
        let r = DataEntry { namespaces };
        assert(r@[0].1 =~= Seq::<(Seq<char>, T)>::empty());
        assert(r@ =~= seq![(None::<Seq<char>>, Seq::<(Seq<char>, T)>::empty())]);
        r
    }

    /// The position of a namespace.
    fn find_space(&self, namespace: Option<&str>) -> (r: Option<usize>)
        requires
            self.wf(),
        ensures
            r is None <==> space_of(self@, opt_text(namespace)) is None,
            r matches Some(i) ==> i < self@.len() && i == space_pos(self@, opt_text(namespace))
                && self@[i as int].0 == opt_text(namespace),
    {
        let ghost ns = opt_text(namespace);
        let key: Option<String> = match namespace {
            Some(n) => Some(n.to_owned()),
            None => None,
        };
        let mut i: usize = 0;
        assert(self@.skip(0) =~= self@);
        while i < self.namespaces.len()
            invariant
                i <= self.namespaces@.len(),
                ns == opt_text(namespace),
                opt_string_text(key) == ns,
                space_of(self@, ns) == space_of(self@.skip(i as int), ns),
                space_pos(self@, ns) == i + space_pos(self@.skip(i as int), ns),
            decreases self.namespaces@.len() - i,
        {
            assert(self@.skip(i as int).drop_first() =~= self@.skip(i + 1));
            let same = match (&self.namespaces[i].0, &key) {
                (Some(a), Some(b)) => *a == *b,
                (None, None) => true,
                _ => false,
            };
            assert(self@[i as int].0 == opt_string_text(self.namespaces@[i as int].0));
            assert(self@.skip(i as int)[0] == self@[i as int]);
            if same {
                assert(self@[i as int].0 == ns);
                assert(space_of(self@.skip(i as int), ns) == Some(self@[i as int].1));
                assert(space_pos(self@.skip(i as int), ns) == 0);
                return Some(i);
            }
            i = i + 1;
        }
        None
    }

    /// The values of a namespace.
    fn namespace(&self, namespace: Option<&str>) -> (r: Result<&Vec<(String, T)>, Error>)
        requires
            self.wf(),
        ensures
            match space_of(self@, opt_text(namespace)) {
                Some(items) => r is Ok && r->Ok_0@.map_values(|i: (String, T)| (i.0@, i.1)) == items,
                None => r == Err::<&Vec<(String, T)>, Error>(Error::NoSuchNamespace),
            },
    {
        match self.find_space(namespace) {
            Some(i) => {
                proof {
                    lemma_space_at(self@, opt_text(namespace));
                }
                Ok(&self.namespaces[i].1)
            },
            None => Err(Error::NoSuchNamespace),
        }
    }

    /// Does the namespace exist?
    pub fn contains_namespace(&self, namespace: Option<&str>) -> (r: bool)
        ensures
            r == (space_of(self@, opt_text(namespace)) is Some),
    {
        proof {
            use_type_invariant(&*self);
        }
        self.find_space(namespace).is_some()
    }

    /// Does the namespace hold the name? Fails with
    /// [`Error::NoSuchNamespace`] when the namespace does not exist.
    pub fn contains(&self, namespace: Option<&str>, name: &str) -> (r: Result<bool, Error>)
        ensures
            match space_of(self@, opt_text(namespace)) {
                Some(items) => r == Ok::<bool, Error>(has_item(items, name@)),
                None => r == Err::<bool, Error>(Error::NoSuchNamespace),
            },
    {
        proof {
            use_type_invariant(&*self);
        }
        match self.namespace(namespace) {
            Ok(items) => Ok(find_item(items, name).is_some()),
            Err(e) => Err(e),
        }
    }

    /// How many names the namespace holds (0 when it does not exist).
    pub fn len(&self, namespace: Option<&str>) -> (r: usize)
        ensures
            r == match space_of(self@, opt_text(namespace)) {
                Some(items) => items.len(),
                None => 0,
            },
    {
        proof {
            use_type_invariant(&*self);
        }
        match self.namespace(namespace) {
            Ok(items) => items.len(),
            Err(_) => 0,
        }
    }

    /// The value with the name in the namespace. Fails with
    /// [`Error::NoSuchNamespace`] or [`Error::NotFound`].
    pub fn get(&self, namespace: Option<&str>, name: &str) -> (r: Result<&T, Error>)
        ensures
            match space_of(self@, opt_text(namespace)) {
                None => r == Err::<&T, Error>(Error::NoSuchNamespace),
                Some(items) => match item_of(items, name@) {
                    Some(t) => r is Ok && *r->Ok_0 == t,
                    None => r == Err::<&T, Error>(Error::NotFound),
                },
            },
    {
        proof {
            use_type_invariant(&*self);
        }
        match self.namespace(namespace) {
            Ok(items) => match find_item(items, name) {
                Some(i) => {
                    proof {
                        lemma_item_at(items@.map_values(|i: (String, T)| (i.0@, i.1)), name@);
                    }
                    Ok(&items[i].1)
                },
                None => {
                    proof {
                        lemma_item_absent(items@.map_values(|i: (String, T)| (i.0@, i.1)), name@);
                    }
                    Err(Error::NotFound)
                },
            },
            Err(e) => Err(e),
        }
    }

    /// The names in the namespace, in the order added. Fails with
    /// [`Error::NoSuchNamespace`].
    pub fn list(&self, namespace: Option<&str>) -> (r: Result<Vec<String>, Error>)
        ensures
            match space_of(self@, opt_text(namespace)) {
                Some(items) => r is Ok && r->Ok_0@.map_values(|s: String| s@) == item_names(items),
                None => r == Err::<Vec<String>, Error>(Error::NoSuchNamespace),
            },
    {
        proof {
            use_type_invariant(&*self);
        }
        match self.namespace(namespace) {
            Ok(items) => {
                let ghost iv = items@.map_values(|i: (String, T)| (i.0@, i.1));
                let mut out: Vec<String> = Vec::new();
                let mut i: usize = 0;
                while i < items.len()
                    invariant
                        i <= items@.len(),
                        out@.len() == i,
                        iv == items@.map_values(|i: (String, T)| (i.0@, i.1)),
                        out@.map_values(|s: String| s@) == item_names(iv).take(i as int),
                    decreases items@.len() - i,
                {
                    out.push(items[i].0.clone());
                    i = i + 1;
                    assert(out@.map_values(|s: String| s@) =~= item_names(iv).take(i as int));
                }
                assert(item_names(iv).take(items@.len() as int) =~= item_names(iv));
                Ok(out)
            },
            Err(e) => Err(e),
        }
    }

    /// The named namespaces (not the unnamed one), in the order created.
    pub fn list_namespaces(&self) -> (r: Vec<String>)
        ensures
            r@.map_values(|s: String| s@) == named_spaces(self@),
    {
        let mut out: Vec<String> = Vec::new();
        let mut i: usize = 0;
        while i < self.namespaces.len()
            invariant
                i <= self.namespaces@.len(),
                out@.map_values(|s: String| s@) == named_spaces(self@.take(i as int)),
            decreases self.namespaces@.len() - i,
        {
            assert(self@.take(i + 1).drop_last() =~= self@.take(i as int));
            assert(self@[i as int].0 == opt_string_text(self.namespaces@[i as int].0));
            match &self.namespaces[i].0 {
                Some(n) => {
                    out.push(n.clone());
                },
                None => {},
            }
            i = i + 1;
            assert(out@.map_values(|s: String| s@) =~= named_spaces(self@.take(i as int)));
        }
        assert(self@.take(self@.len() as int) =~= self@);
        out
    }
}

/// The (name, value) of each element.
pub open spec fn items_view<T>(v: Seq<(String, T)>) -> Items<T> {
    v.map_values(|i: (String, T)| (i.0@, i.1))
}

impl<T> DataEntry<T> {
    /// Load a batch of values into a namespace.
    ///
    /// When the batch holds a name twice, or a name that the namespace
    /// already holds, nothing changes and [`Error::DuplicateName`] is
    /// returned. Otherwise the namespace is created if it does not exist and
    /// the values are added after those already there.
    pub fn load_data(&mut self, namespace: Option<String>, data: Vec<(String, T)>) -> (r: Result<(), Error>)
        ensures
            final(self).wf(),
            (final(self)@, r) == loaded_into(old(self)@, opt_string_text(namespace), items_view(data@)),
    {
        proof {
            use_type_invariant(&*self);
        }
        let ghost ns = opt_string_text(namespace);
        let ghost d0 = items_view(data@);
        // Refuse a batch that names something twice.
        let mut k: usize = 0;
        while k < data.len()
            invariant
                k <= data@.len(),
                d0 == items_view(data@),
                self@ == old(self)@,
                self.wf(),
                forall|i: int, j: int| 0 <= i < j < k ==> (#[trigger] d0[i]).0 != (#[trigger] d0[j]).0,
            decreases data@.len() - k,
        {
            let mut j: usize = 0;
            while j < k
                invariant
                    j <= k < data@.len(),
                    d0 == items_view(data@),
                    self@ == old(self)@,
                    self.wf(),
                    forall|i: int| 0 <= i < j ==> (#[trigger] d0[i]).0 != d0[k as int].0,
                decreases k - j,
            {
                assert(d0[j as int].0 == data@[j as int].0@ && d0[k as int].0 == data@[k as int].0@);
                if data[j].0 == data[k].0 {
                    assert(repeats(d0));
                    return Err(Error::DuplicateName);
                }
                j = j + 1;
            }
            k = k + 1;
        }
        assert(!repeats(d0));
        let ns_ref: Option<&str> = match &namespace {
            Some(n) => Some(n.as_str()),
            None => None,
        };
        match self.find_space(ns_ref) {
            None => {
                proof {
                    lemma_space_absent(self@, ns);
                    lemma_space_pushed(old(self)@, ns);
                    lemma_items_concat_distinct(Seq::empty(), d0);
                    let s1 = old(self)@.push((ns, Seq::<(Seq<char>, T)>::empty()));
                    assert(Seq::<(Seq<char>, T)>::empty() + d0 =~= d0);
                    assert(s1.update(old(self)@.len() as int, (ns, d0)) =~= old(self)@.push((ns, d0)));
                    lemma_set_space_wf(s1, old(self)@.len() as int, d0);
                }
                let mut taken = DataEntry::new();
                std::mem::swap(&mut taken, self);
                let DataEntry { namespaces: mut spaces } = taken;
                spaces.push((namespace, data));
                proof {
                    assert(spaces_view(spaces@) =~= old(self)@.push((ns, d0)));
                }
                let grown = DataEntry { namespaces: spaces };
                *self = grown;
                Ok(())
            },
            Some(idx) => {
                proof {
                    lemma_space_at(self@, ns);
                }
                let ghost s1 = self@;
                assert(s1 == with_space(old(self)@, ns));
                assert(space_pos(s1, ns) == idx && s1[idx as int] == (ns, space_of(s1, ns)->0));
                let ghost items0 = s1[idx as int].1;
                // Refuse the whole batch if any name is already there.
                let mut k: usize = 0;
                while k < data.len()
                    invariant
                        k <= data@.len(),
                        idx < self.namespaces@.len(),
                        self@ == s1,
                        s1 == old(self)@,
                        s1 == with_space(old(self)@, ns),
                        ns == opt_string_text(namespace),
                        self.wf(),
                        space_of(s1, ns) == Some(items0),
                        d0 == items_view(data@),
                        items0 == s1[idx as int].1,
                        forall|j: int| 0 <= j < k ==> !has_item(items0, (#[trigger] d0[j]).0),
                    decreases data@.len() - k,
                {
                    assert(d0[k as int].0 == data@[k as int].0@);
                    assert(items_view(self.namespaces@[idx as int].1@) == items0);
                    if find_item(&self.namespaces[idx].1, data[k].0.as_str()).is_some() {
                        assert(has_item(items0, d0[k as int].0));
                        assert(conflicts(items0, d0));
                        return Err(Error::DuplicateName);
                    }
                    k = k + 1;
                }
                assert(!conflicts(items0, d0));
                let mut taken = DataEntry::new();
                std::mem::swap(&mut taken, self);
                let DataEntry { namespaces: mut spaces } = taken;
                let (key, mut items) = spaces.remove(idx);
                assert(items_view(items@) == items0);
                assert(items_distinct(items0));
                let mut data = data;
                items.append(&mut data);
                proof {
                    assert(items_view(items@) =~= items0 + d0);
                    lemma_items_concat_distinct(items0, d0);
                }
                spaces.insert(idx, (key, items));
                proof {
                    let s2 = s1.update(idx as int, (ns, items0 + d0));
                    assert(spaces_view(spaces@) =~= s2);
                    lemma_set_space_wf(s1, idx as int, items0 + d0);
                }
                let grown = DataEntry { namespaces: spaces };
                *self = grown;
                Ok(())
            },
        }
    }

    /// Load one value into a namespace (see [`Self::load_data`]).
    pub fn load_datum(&mut self, namespace: Option<String>, name: String, data: T) -> (r: Result<(), Error>)
        ensures
            final(self).wf(),
            (final(self)@, r) == loaded_into(old(self)@, opt_string_text(namespace), seq![(name@, data)]),
    {
        proof {
            use_type_invariant(&*self);
        }
        let mut v: Vec<(String, T)> = Vec::new();
        v.push((name, data));
        assert(items_view(v@) =~= seq![(name@, data)]);
        self.load_data(namespace, v)
    }
}

/// A file's data, with the names that its path gives: the file's name
/// without extension, and the name of the folder it is in.
pub struct LoadedFile<T> {
    pub stem: Option<String>,
    pub parent_stem: Option<String>,
    pub data: T,
}

/// The names of each file's path, and its data.
pub open spec fn files_view<T>(files: Seq<LoadedFile<T>>) -> Seq<(Option<Seq<char>>, Option<Seq<char>>, T)> {
    files.map_values(|f: LoadedFile<T>| (opt_string_text(f.stem), opt_string_text(f.parent_stem), f.data))
}

/// Where a file's data goes: the namespace and the name that the options
/// choose; [`Error::NoFileName`] when a name the options ask for is missing
/// from the path.
pub open spec fn target_of(stem: Option<Seq<char>>, parent: Option<Seq<char>>, options: LoadOptions) -> Result<(Option<Seq<char>>, Seq<char>), Error> {
    let name = match options.name {
        LoadName::Auto => stem,
        LoadName::Specific(s) => Some(s@),
    };
    match name {
        None => Err(Error::NoFileName),
        Some(n) => match options.namespace {
            LoadNamespace::Root => Ok((None, n)),
            LoadNamespace::Auto => match parent {
                Some(p) => Ok((Some(p), n)),
                None => Err(Error::NoFileName),
            },
            LoadNamespace::Specific(ns) => Ok((Some(ns@), n)),
        },
    }
}

/// Where each file's data goes, refusing ([`Error::DuplicateName`]) a
/// target chosen twice or a name already in its namespace.
pub open spec fn load_plan<T>(s: Spaces<T>, files: Seq<(Option<Seq<char>>, Option<Seq<char>>, T)>, options: LoadOptions) -> Result<Seq<(Option<Seq<char>>, Seq<char>)>, Error>
    decreases files.len(),
{
    if files.len() == 0 {
        Ok(Seq::empty())
    } else {
        match load_plan(s, files.drop_last(), options) {
            Err(e) => Err(e),
            Ok(targets) => match target_of(files.last().0, files.last().1, options) {
                Err(e) => Err(e),
                Ok(t) => if targets.contains(t) {
                    Err(Error::DuplicateName)
                } else if space_of(s, t.0) is Some && has_item(space_of(s, t.0)->0, t.1) {
                    Err(Error::DuplicateName)
                } else {
                    Ok(targets.push(t))
                },
            },
        }
    }
}

/// Loading each file's data into its target in turn, stopping at the first
/// failure.
pub open spec fn load_all<T>(s: Spaces<T>, targets: Seq<(Option<Seq<char>>, Seq<char>)>, datas: Seq<T>) -> (Spaces<T>, Result<(), Error>)
    decreases targets.len(),
{
    if targets.len() == 0 || datas.len() == 0 {
        (s, Ok(()))
    } else {
        let (s1, r1) = load_all(s, targets.drop_last(), datas.drop_last());
        if r1 is Err {
            (s1, r1)
        } else {
            loaded_into(s1, targets.last().0, seq![(targets.last().1, datas.last())])
        }
    }
}

/// The data of each file.
pub open spec fn file_datas<T>(files: Seq<(Option<Seq<char>>, Option<Seq<char>>, T)>) -> Seq<T> {
    files.map_values(|f: (Option<Seq<char>>, Option<Seq<char>>, T)| f.2)
}

impl<T> DataEntry<T> {
    /// Load the data of files (already read and parsed), each under the
    /// namespace and name that its path and the options give.
    ///
    /// Every target is checked before anything is loaded: a file whose path
    /// lacks a needed name fails with [`Error::NoFileName`], a target chosen
    /// twice or already holding a name with [`Error::DuplicateName`].
    pub fn load_files(&mut self, files: Vec<LoadedFile<T>>, options: &LoadOptions) -> (r: Result<(), Error>)
        ensures
            final(self).wf(),
            match load_plan(old(self)@, files_view(files@), *options) {
                Err(e) => r == Err::<(), Error>(e) && final(self)@ == old(self)@,
                Ok(targets) => (final(self)@, r) == load_all(old(self)@, targets, file_datas(files_view(files@))),
            },
            r is Err ==> final(self)@ == old(self)@,
    {
        proof {
            use_type_invariant(&*self);
        }
        proof {
            lemma_load_files_atomic(self@, files_view(files@), *options);
        }
        let ghost fv = files_view(files@);
        let mut targets: Vec<(Option<String>, String)> = Vec::new();
        let mut i: usize = 0;
        assert(fv.take(0) =~= Seq::<(Option<Seq<char>>, Option<Seq<char>>, T)>::empty());
        assert(targets_view(targets@) =~= Seq::<(Option<Seq<char>>, Seq<char>)>::empty());
        while i < files.len()
            invariant
                i <= files@.len(),
                fv == files_view(files@),
                self.wf(),
                self@ == old(self)@,
                load_plan(self@, fv.take(i as int), *options) == Ok::<Seq<(Option<Seq<char>>, Seq<char>)>, Error>(
                    targets_view(targets@),
                ),
            decreases files@.len() - i,
        {
            assert(fv.take(i + 1).drop_last() =~= fv.take(i as int));
            assert(fv.take(i + 1).last() == fv[i as int]);
            let f = &files[i];
            let name: String = match &options.name {
                LoadName::Auto => match &f.stem {
                    Some(s) => s.clone(),
                    None => {
                        proof {
                            lemma_plan_stops(self@, fv, *options, i as int + 1);
                        }
                        return Err(Error::NoFileName);
                    },
                },
                LoadName::Specific(s) => s.clone(),
            };
            let namespace: Option<String> = match &options.namespace {
                LoadNamespace::Root => None,
                LoadNamespace::Auto => match &f.parent_stem {
                    Some(p) => Some(p.clone()),
                    None => {
                        proof {
                            lemma_plan_stops(self@, fv, *options, i as int + 1);
                        }
                        return Err(Error::NoFileName);
                    },
                },
                LoadNamespace::Specific(n) => Some(n.clone()),
            };
            let ghost t = (opt_string_text(namespace), name@);
            assert(target_of(fv[i as int].0, fv[i as int].1, *options) == Ok::<(Option<Seq<char>>, Seq<char>), Error>(t));
            if targets_contain(&targets, &namespace, &name) {
                proof {
                    lemma_plan_stops(self@, fv, *options, i as int + 1);
                }
                return Err(Error::DuplicateName);
            }
            let ns_ref: Option<&str> = match &namespace {
                Some(n) => Some(n.as_str()),
                None => None,
            };
            let taken = match self.contains(ns_ref, name.as_str()) {
                Ok(b) => b,
                Err(_) => false,
            };
            if taken {
                proof {
                    lemma_plan_stops(self@, fv, *options, i as int + 1);
                }
                return Err(Error::DuplicateName);
            }
            targets.push((namespace, name));
            i = i + 1;
            assert(targets_view(targets@) =~= load_plan(self@, fv.take(i as int), *options)->Ok_0);
        }
        assert(fv.take(files@.len() as int) =~= fv);
        let ghost s0 = self@;
        let ghost ts = targets_view(targets@);
        let ghost ds = file_datas(fv);
        proof {
            lemma_plan_len(s0, fv, *options);
        }
        let mut remaining = files;
        let mut done: usize = 0;
        assert(ts.take(0) =~= Seq::<(Option<Seq<char>>, Seq<char>)>::empty());
        while remaining.len() > 0
            invariant
                done + remaining@.len() == fv.len(),
                fv.len() <= usize::MAX,
                ts.len() == fv.len(),
                targets@.len() == remaining@.len(),
                fv == files_view(files@),
                s0 == old(self)@,
                load_plan(old(self)@, fv, *options) == Ok::<Seq<(Option<Seq<char>>, Seq<char>)>, Error>(ts),
                ds == file_datas(fv),
                files_view(remaining@) == fv.skip(done as int),
                targets_view(targets@) == ts.skip(done as int),
                self.wf(),
                spaces_wf(s0),
                load_all(s0, ts.take(done as int), ds.take(done as int)) == (self@, Ok::<(), Error>(())),
            decreases remaining@.len(),
        {
            let ghost fbefore = remaining@;
            let ghost tbefore = targets@;
            let f = remaining.remove(0);
            let (namespace, name) = targets.remove(0);
            assert(files_view(fbefore)[0] == fv[done as int]);
            assert(targets_view(tbefore)[0] == ts[done as int]);
            assert(ts.take(done + 1).drop_last() =~= ts.take(done as int));
            assert(ds.take(done + 1).drop_last() =~= ds.take(done as int));
            assert(ds.take(done + 1).last() == ds[done as int]);
            assert(ts.take(done + 1).last() == ts[done as int]);
            assert(remaining@ =~= fbefore.skip(1));
            assert(targets@ =~= tbefore.skip(1));
            assert(files_view(remaining@) =~= files_view(fbefore).skip(1));
            assert(targets_view(targets@) =~= targets_view(tbefore).skip(1));
            let result = self.load_datum(namespace, name, f.data);
            done = done + 1;
            assert(load_all(s0, ts.take(done as int), ds.take(done as int)) == (self@, result));
            if let Err(e) = result {
                proof {
                    lemma_load_all_stops(s0, ts, ds, done as int);
                    lemma_load_files_atomic(s0, fv, *options);
                }
                return Err(e);
            }
            assert(files_view(remaining@) =~= fv.skip(done as int));
            assert(targets_view(targets@) =~= ts.skip(done as int));
        }
        assert(targets_view(targets@).len() == targets@.len());
        assert(ts.take(ts.len() as int) =~= ts);
        assert(ds.take(ds.len() as int) =~= ds);
        Ok(())
    }
}

/// The (namespace, name) text of each target.
pub open spec fn targets_view(v: Seq<(Option<String>, String)>) -> Seq<(Option<Seq<char>>, Seq<char>)> {
    v.map_values(|t: (Option<String>, String)| (opt_string_text(t.0), t.1@))
}

/// Whether a target is among the targets.
fn targets_contain(targets: &Vec<(Option<String>, String)>, namespace: &Option<String>, name: &String) -> (r: bool)
    ensures
        r == targets_view(targets@).contains((opt_string_text(*namespace), name@)),
{
    let ghost t = (opt_string_text(*namespace), name@);
    let mut i: usize = 0;
    while i < targets.len()
        invariant
            i <= targets@.len(),
            t == (opt_string_text(*namespace), name@),
            forall|j: int| 0 <= j < i ==> (#[trigger] targets_view(targets@)[j]) != t,
        decreases targets@.len() - i,
    {
        let same_ns = match (&targets[i].0, namespace) {
            (Some(a), Some(b)) => *a == *b,
            (None, None) => true,
            _ => false,
        };
        assert(targets_view(targets@)[i as int] == (opt_string_text(targets@[i as int].0), targets@[i as int].1@));
        if same_ns && targets[i].1 == *name {
            return true;
        }
        i = i + 1;
    }
    false
}

/// A plan has one target per file.
pub proof fn lemma_plan_len<T>(s: Spaces<T>, files: Seq<(Option<Seq<char>>, Option<Seq<char>>, T)>, options: LoadOptions)
    ensures
        load_plan(s, files, options) matches Ok(ts) ==> ts.len() == files.len(),
    decreases files.len(),
{
    if files.len() > 0 {
        lemma_plan_len(s, files.drop_last(), options);
    }
}

/// A failure among the first files' targets is the failure of all of them.
pub proof fn lemma_plan_stops<T>(s: Spaces<T>, files: Seq<(Option<Seq<char>>, Option<Seq<char>>, T)>, options: LoadOptions, k: int)
    requires
        0 <= k <= files.len(),
        load_plan(s, files.take(k), options) is Err,
    ensures
        load_plan(s, files, options) == load_plan(s, files.take(k), options),
    decreases files.len() - k,
{
    if k < files.len() {
        assert(files.take(k + 1).drop_last() =~= files.take(k));
        lemma_plan_stops(s, files, options, k + 1);
    } else {
        assert(files.take(k) =~= files);
    }
}

/// A failure loading the first files is the failure of loading all of them.
pub proof fn lemma_load_all_stops<T>(s: Spaces<T>, ts: Seq<(Option<Seq<char>>, Seq<char>)>, ds: Seq<T>, k: int)
    requires
        0 <= k <= ts.len(),
        ts.len() == ds.len(),
        load_all(s, ts.take(k), ds.take(k)).1 is Err,
    ensures
        load_all(s, ts, ds) == load_all(s, ts.take(k), ds.take(k)),
    decreases ts.len() - k,
{
    if k < ts.len() {
        assert(ts.take(k + 1).drop_last() =~= ts.take(k));
        assert(ds.take(k + 1).drop_last() =~= ds.take(k));
        lemma_load_all_stops(s, ts, ds, k + 1);
    } else {
        assert(ts.take(k) =~= ts);
        assert(ds.take(k) =~= ds);
    }
}

/// A namespace that is not there has no values.
pub proof fn lemma_space_absent<T>(s: Spaces<T>, ns: Option<Seq<char>>)
    requires
        space_of(s, ns) is None,
    ensures
        forall|i: int| 0 <= i < s.len() ==> (#[trigger] s[i]).0 != ns,
    decreases s.len(),
{
    if s.len() > 0 {
        lemma_space_absent(s.drop_first(), ns);
        assert forall|i: int| 0 <= i < s.len() implies (#[trigger] s[i]).0 != ns by {
            if i > 0 {
                assert(s.drop_first()[i - 1] == s[i]);
            }
        }
    }
}

/// A namespace created at the end is found there, empty, and keeps the
/// invariant.
pub proof fn lemma_space_pushed<T>(s: Spaces<T>, ns: Option<Seq<char>>)
    requires
        spaces_wf(s),
        forall|i: int| 0 <= i < s.len() ==> (#[trigger] s[i]).0 != ns,
    ensures
        spaces_wf(s.push((ns, Seq::empty()))),
        space_of(s.push((ns, Seq::empty())), ns) == Some(Seq::<(Seq<char>, T)>::empty()),
        space_pos(s.push((ns, Seq::empty())), ns) == s.len(),
    decreases s.len(),
{
    let t = s.push((ns, Seq::<(Seq<char>, T)>::empty()));
    assert forall|i: int| 0 <= i < t.len() implies items_distinct(#[trigger] t[i].1) by {
        if i < s.len() {
            assert(t[i] == s[i]);
        }
    }
    lemma_push_found(s, ns, Seq::empty());
}

/// Searching past namespaces that differ finds one pushed at the end.
pub proof fn lemma_push_found<T>(s: Spaces<T>, ns: Option<Seq<char>>, items: Items<T>)
    requires
        forall|i: int| 0 <= i < s.len() ==> (#[trigger] s[i]).0 != ns,
    ensures
        space_of(s.push((ns, items)), ns) == Some(items),
        space_pos(s.push((ns, items)), ns) == s.len(),
    decreases s.len(),
{
    let t = s.push((ns, items));
    if s.len() == 0 {
        assert(t[0] == (ns, items));
    } else {
        assert(t[0] == s[0]);
        assert(t.drop_first() =~= s.drop_first().push((ns, items)));
        assert forall|i: int| 0 <= i < s.drop_first().len() implies (#[trigger] s.drop_first()[i]).0
            != ns by {
            assert(s.drop_first()[i] == s[i + 1]);
        }
        lemma_push_found(s.drop_first(), ns, items);
    }
}

/// Values with unique names, followed by new values whose names neither
/// repeat nor are already there, still have unique names.
pub proof fn lemma_items_concat_distinct<T>(items: Items<T>, data: Items<T>)
    requires
        items_distinct(items),
        !repeats(data),
        !conflicts(items, data),
    ensures
        items_distinct(items + data),
{
    let u = items + data;
    assert forall|i: int, j: int| 0 <= i < j < u.len() implies (#[trigger] u[i]).0 != (#[trigger] u[j]).0 by {
        if j < items.len() {
            assert(items[i].0 != items[j].0);
        } else if i < items.len() {
            assert(u[j] == data[j - items.len()]);
            if u[i].0 == u[j].0 {
                assert(has_item(items, data[j - items.len()].0));
            }
        } else {
            assert(u[i] == data[i - items.len()] && u[j] == data[j - items.len()]);
        }
    }
}

/// Replacing a namespace's values with values whose names are unique keeps
/// the invariant.
pub proof fn lemma_set_space_wf<T>(s: Spaces<T>, i: int, items: Items<T>)
    requires
        spaces_wf(s),
        0 <= i < s.len(),
        items_distinct(items),
    ensures
        spaces_wf(s.update(i, (s[i].0, items))),
{
    let u = s.update(i, (s[i].0, items));
    assert forall|a: int, b: int| 0 <= a < b < u.len() implies (#[trigger] u[a]).0 != (#[trigger] u[b]).0 by {
        assert(s[a].0 != s[b].0);
    }
    assert forall|a: int| 0 <= a < u.len() implies items_distinct(#[trigger] u[a].1) by {
        if a != i {
            assert(u[a] == s[a]);
        }
    }
}

/// The position of a name among values.
fn find_item<T>(items: &Vec<(String, T)>, name: &str) -> (r: Option<usize>)
    ensures
        r is None <==> !has_item(items@.map_values(|i: (String, T)| (i.0@, i.1)), name@),
        r matches Some(i) ==> i < items@.len() && i == item_pos(
            items@.map_values(|i: (String, T)| (i.0@, i.1)),
            name@,
        ),
{
    let ghost iv = items@.map_values(|i: (String, T)| (i.0@, i.1));
    let key: String = name.to_owned();
    let mut i: usize = 0;
    assert(iv.skip(0) =~= iv);
    while i < items.len()
        invariant
            i <= items@.len(),
            key@ == name@,
            iv == items@.map_values(|i: (String, T)| (i.0@, i.1)),
            forall|j: int| 0 <= j < i ==> (#[trigger] iv[j]).0 != name@,
            item_pos(iv, name@) == i + item_pos(iv.skip(i as int), name@),
        decreases items@.len() - i,
    {
        assert(iv.skip(i as int).drop_first() =~= iv.skip(i + 1));
        assert(iv[i as int].0 == items@[i as int].0@);
        assert(iv.skip(i as int)[0] == iv[i as int]);
        if items[i].0 == key {
            assert(item_pos(iv.skip(i as int), name@) == 0);
            return Some(i);
        }
        i = i + 1;
    }
    None
}

/// The namespace found by position is the namespace's values.
pub proof fn lemma_space_at<T>(s: Spaces<T>, ns: Option<Seq<char>>)
    requires
        space_of(s, ns) is Some,
    ensures
        0 <= space_pos(s, ns) < s.len(),
        s[space_pos(s, ns)] == (ns, space_of(s, ns)->0),
    decreases s.len(),
{
    if s[0].0 != ns {
        lemma_space_at(s.drop_first(), ns);
    }
}

/// The value found by position is the name's value.
pub proof fn lemma_item_at<T>(items: Items<T>, name: Seq<char>)
    requires
        has_item(items, name),
    ensures
        0 <= item_pos(items, name) < items.len(),
        items[item_pos(items, name)] == (name, item_of(items, name)->0),
        item_of(items, name) is Some,
    decreases items.len(),
{
    if items[0].0 != name {
        let i = choose|i: int| 0 <= i < items.len() && (#[trigger] items[i]).0 == name;
        assert(items.drop_first()[i - 1] == items[i]);
        lemma_item_at(items.drop_first(), name);
    }
}

/// A name that is not there has no value.
pub proof fn lemma_item_absent<T>(items: Items<T>, name: Seq<char>)
    requires
        !has_item(items, name),
    ensures
        item_of(items, name) is None,
    decreases items.len(),
{
    if items.len() > 0 {
        assert(items[0].0 != name);
        assert forall|j: int| 0 <= j < items.drop_first().len() implies (#[trigger] items.drop_first()[j]).0
            != name by {
            assert(items.drop_first()[j] == items[j + 1]);
        }
        lemma_item_absent(items.drop_first(), name);
    }
}

/// The value with a name in a namespace, if both are there.
pub open spec fn lookup_in<T>(s: Spaces<T>, ns: Option<Seq<char>>, name: Seq<char>) -> Option<T> {
    match space_of(s, ns) {
        Some(items) => item_of(items, name),
        None => None,
    }
}

/// A value is found by a name exactly when the name is there.
pub proof fn lemma_item_found<T>(items: Items<T>, name: Seq<char>)
    ensures
        item_of(items, name) is Some <==> has_item(items, name),
{
    if has_item(items, name) {
        lemma_item_at(items, name);
    } else {
        lemma_item_absent(items, name);
    }
}

/// A value pushed under a new name is found by that name; other names find
/// what they found before.
pub proof fn lemma_item_push<T>(items: Items<T>, name: Seq<char>, v: T, other: Seq<char>)
    requires
        !has_item(items, name),
    ensures
        item_of(items.push((name, v)), other) == if other == name {
            Some(v)
        } else {
            item_of(items, other)
        },
    decreases items.len(),
{
    let t = items.push((name, v));
    if items.len() == 0 {
        assert(t[0] == (name, v));
        assert(t.drop_first() =~= Seq::<(Seq<char>, T)>::empty());
    } else {
        assert(t[0] == items[0]);
        assert(t.drop_first() =~= items.drop_first().push((name, v)));
        assert(items[0].0 != name);
        assert forall|j: int| 0 <= j < items.drop_first().len() implies (#[trigger] items.drop_first()[j]).0
            != name by {
            assert(items.drop_first()[j] == items[j + 1]);
        }
        lemma_item_push(items.drop_first(), name, v, other);
    }
}

/// A namespace pushed at the end changes what no other namespace finds.
pub proof fn lemma_space_push_other<T>(s: Spaces<T>, ns: Option<Seq<char>>, items: Items<T>, other: Option<Seq<char>>)
    requires
        other != ns,
    ensures
        space_of(s.push((ns, items)), other) == space_of(s, other),
    decreases s.len(),
{
    let t = s.push((ns, items));
    if s.len() == 0 {
        assert(t[0] == (ns, items));
        assert(t.drop_first() =~= Seq::<(Option<Seq<char>>, Items<T>)>::empty());
        assert(space_of(t.drop_first(), other) is None);
        assert(space_of(t, other) == space_of(t.drop_first(), other));
    } else {
        assert(t[0] == s[0]);
        assert(t.drop_first() =~= s.drop_first().push((ns, items)));
        lemma_space_push_other(s.drop_first(), ns, items, other);
        if s[0].0 != other {
            assert(space_of(t, other) == space_of(t.drop_first(), other));
            assert(space_of(s, other) == space_of(s.drop_first(), other));
        }
    }
}

/// Replacing a namespace's values where it stands changes what that
/// namespace finds, and nothing else.
pub proof fn lemma_space_update<T>(s: Spaces<T>, ns: Option<Seq<char>>, items: Items<T>, other: Option<Seq<char>>)
    requires
        space_of(s, ns) is Some,
    ensures
        space_of(s.update(space_pos(s, ns), (ns, items)), other) == if other == ns {
            Some(items)
        } else {
            space_of(s, other)
        },
    decreases s.len(),
{
    let p = space_pos(s, ns);
    let u = s.update(p, (ns, items));
    if s[0].0 == ns {
        assert(p == 0);
        assert(u[0] == (ns, items));
        assert(u.drop_first() =~= s.drop_first());
    } else {
        lemma_space_at(s.drop_first(), ns);
        let q = space_pos(s.drop_first(), ns);
        assert(p == 1 + q);
        lemma_space_update(s.drop_first(), ns, items, other);
        assert(u[0] == s[0]);
        assert(u.drop_first() =~= s.drop_first().update(q, (ns, items)));
        if s[0].0 != other {
            assert(space_of(u, other) == space_of(u.drop_first(), other));
            assert(space_of(s, other) == space_of(s.drop_first(), other));
        }
    }
}

/// Loading a value under a name and then looking it up gives it back, and
/// nothing else changes; loading a name that the namespace already holds is
/// refused with [`Error::DuplicateName`] and changes nothing. The namespace
/// is created when it does not exist.
pub proof fn lemma_load_then_get<T>(s: Spaces<T>, ns: Option<Seq<char>>, name: Seq<char>, v: T, other_ns: Option<Seq<char>>, other: Seq<char>)
    requires
        spaces_wf(s),
    ensures
        ({
            let (s2, r) = loaded_into(s, ns, seq![(name, v)]);
            &&& r is Err <==> lookup_in(s, ns, name) is Some
            &&& r is Err ==> r == Err::<(), Error>(Error::DuplicateName) && s2 == s
            &&& r is Ok ==> lookup_in(s2, ns, name) == Some(v)
            &&& (other_ns != ns || other != name) ==> lookup_in(s2, other_ns, other) == lookup_in(
                s,
                other_ns,
                other,
            )
            &&& space_of(s2, ns) is Some
            &&& spaces_wf(s2)
        }),
{
    let s1 = with_space(s, ns);
    let data = seq![(name, v)];
    if space_of(s, ns) is None {
        lemma_space_absent(s, ns);
        lemma_space_pushed::<T>(s, ns);
        lemma_push_found(s, ns, Seq::empty());
        if other_ns != ns {
            lemma_space_push_other(s, ns, Seq::empty(), other_ns);
        }
    }
    assert(space_of(s1, ns) is Some);
    let items = space_of(s1, ns)->0;
    lemma_item_found(items, name);
    if space_of(s, ns) is Some {
        assert(s1 == s);
        lemma_item_found(space_of(s, ns)->0, name);
    } else {
        assert(items =~= Seq::<(Seq<char>, T)>::empty());
        assert(!has_item(items, name));
    }
    assert(conflicts(items, data) <==> has_item(items, name)) by {
        if has_item(items, name) {
            assert(data[0].0 == name);
        }
    }
    assert(!repeats(data));
    if !has_item(items, name) {
        let pushed = items.push((name, v));
        assert(items + data =~= pushed);
        lemma_space_at(s1, ns);
        assert(spaces_wf(s1));
        assert(items_distinct(s1[space_pos(s1, ns)].1));
        lemma_items_concat_distinct(items, data);
        lemma_set_space_wf(s1, space_pos(s1, ns), pushed);
        lemma_space_update(s1, ns, pushed, ns);
        lemma_space_update(s1, ns, pushed, other_ns);
        lemma_item_push(items, name, v, name);
        lemma_item_push(items, name, v, other);
        if other_ns != ns && space_of(s, ns) is None {
            assert(space_of(s1, other_ns) == space_of(s, other_ns));
        }
    }
}

/// The targets of a plan: none is chosen twice, and none already holds a
/// value.
pub proof fn lemma_plan_targets<T>(s: Spaces<T>, files: Seq<(Option<Seq<char>>, Option<Seq<char>>, T)>, options: LoadOptions)
    ensures
        load_plan(s, files, options) matches Ok(ts) ==> (forall|i: int|
            0 <= i < ts.len() ==> lookup_in(s, (#[trigger] ts[i]).0, ts[i].1) is None) && (forall|i: int, j: int|
            0 <= i < j < ts.len() ==> #[trigger] ts[i] != #[trigger] ts[j]),
    decreases files.len(),
{
    if files.len() > 0 {
        lemma_plan_targets(s, files.drop_last(), options);
        match load_plan(s, files.drop_last(), options) {
            Err(_) => {},
            Ok(targets) => match target_of(files.last().0, files.last().1, options) {
                Err(_) => {},
                Ok(t) => {
                    if !targets.contains(t) && !(space_of(s, t.0) is Some && has_item(space_of(s, t.0)->0, t.1)) {
                        let ts = targets.push(t);
                        if space_of(s, t.0) is Some {
                            lemma_item_found(space_of(s, t.0)->0, t.1);
                        }
                        assert forall|i: int| 0 <= i < ts.len() implies lookup_in(s, (#[trigger] ts[i]).0, ts[i].1) is None by {
                            if i < targets.len() {
                                assert(ts[i] == targets[i]);
                            }
                        }
                        assert forall|i: int, j: int| 0 <= i < j < ts.len() implies #[trigger] ts[i] != #[trigger] ts[j] by {
                            assert(ts[i] == targets[i]);
                            if j == targets.len() {
                                assert(targets[i] != t);
                            } else {
                                assert(ts[j] == targets[j]);
                            }
                        }
                    }
                },
            },
        }
    }
}

/// Loading values into targets that are all new and all different succeeds,
/// keeps the invariant, and changes what no other name finds.
pub proof fn lemma_load_all_fresh<T>(s: Spaces<T>, ts: Seq<(Option<Seq<char>>, Seq<char>)>, ds: Seq<T>, other_ns: Option<Seq<char>>, other: Seq<char>)
    requires
        spaces_wf(s),
        ts.len() == ds.len(),
        forall|i: int| 0 <= i < ts.len() ==> lookup_in(s, (#[trigger] ts[i]).0, ts[i].1) is None,
        forall|i: int, j: int| 0 <= i < j < ts.len() ==> #[trigger] ts[i] != #[trigger] ts[j],
    ensures
        load_all(s, ts, ds).1 is Ok,
        spaces_wf(load_all(s, ts, ds).0),
        (forall|i: int| 0 <= i < ts.len() ==> #[trigger] ts[i] != (other_ns, other)) ==> lookup_in(
            load_all(s, ts, ds).0,
            other_ns,
            other,
        ) == lookup_in(s, other_ns, other),
    decreases ts.len(),
{
    if ts.len() > 0 {
        let tl = ts.drop_last();
        let dl = ds.drop_last();
        let last = ts.last();
        assert forall|i: int| 0 <= i < tl.len() implies lookup_in(s, (#[trigger] tl[i]).0, tl[i].1) is None by {
            assert(tl[i] == ts[i]);
        }
        assert forall|i: int, j: int| 0 <= i < j < tl.len() implies #[trigger] tl[i] != #[trigger] tl[j] by {
            assert(tl[i] == ts[i] && tl[j] == ts[j]);
        }
        lemma_load_all_fresh(s, tl, dl, other_ns, other);
        lemma_load_all_fresh(s, tl, dl, last.0, last.1);
        assert forall|i: int| 0 <= i < tl.len() implies #[trigger] tl[i] != (last.0, last.1) by {
            assert(tl[i] == ts[i]);
            assert(ts[i] != ts[ts.len() - 1]);
        }
        assert(lookup_in(s, ts[ts.len() - 1].0, ts[ts.len() - 1].1) is None);
        let s1 = load_all(s, tl, dl).0;
        lemma_load_then_get(s1, last.0, last.1, ds.last(), other_ns, other);
        if forall|i: int| 0 <= i < ts.len() ==> #[trigger] ts[i] != (other_ns, other) {
            assert forall|i: int| 0 <= i < tl.len() implies #[trigger] tl[i] != (other_ns, other) by {
                assert(tl[i] == ts[i]);
            }
            assert(ts[ts.len() - 1] != (other_ns, other));
        }
    }
}

/// Loading files is all or nothing: when every file's target passes the
/// checks, loading them all succeeds, so a failure of
/// [`DataEntry::load_files`] leaves the data as it was.
pub proof fn lemma_load_files_atomic<T>(s: Spaces<T>, files: Seq<(Option<Seq<char>>, Option<Seq<char>>, T)>, options: LoadOptions)
    requires
        spaces_wf(s),
    ensures
        load_plan(s, files, options) matches Ok(ts) ==> load_all(s, ts, file_datas(files)).1 is Ok,
{
    if load_plan(s, files, options) is Ok {
        let ts = load_plan(s, files, options)->Ok_0;
        lemma_plan_targets(s, files, options);
        lemma_plan_len(s, files, options);
        lemma_load_all_fresh(s, ts, file_datas(files), None, Seq::empty());
    }
}

/// Each target of a plan is the one that the options choose for its file.
pub proof fn lemma_plan_follows_targets<T>(s: Spaces<T>, files: Seq<(Option<Seq<char>>, Option<Seq<char>>, T)>, options: LoadOptions)
    ensures
        load_plan(s, files, options) matches Ok(ts) ==> ts.len() == files.len() && forall|i: int|
            0 <= i < files.len() ==> target_of(#[trigger] files[i].0, files[i].1, options) == Ok::<(Option<Seq<char>>, Seq<char>), Error>(ts[i]),
    decreases files.len(),
{
    lemma_plan_len(s, files, options);
    if files.len() > 0 {
        let front = files.drop_last();
        lemma_plan_follows_targets(s, front, options);
        if let Ok(ts) = load_plan(s, files, options) {
            let tf = load_plan(s, front, options)->Ok_0;
            assert(ts == tf.push(target_of(files.last().0, files.last().1, options)->Ok_0));
            assert forall|i: int| 0 <= i < files.len() implies target_of(#[trigger] files[i].0, files[i].1, options)
                == Ok::<(Option<Seq<char>>, Seq<char>), Error>(ts[i]) by {
                if i < front.len() {
                    assert(front[i] == files[i]);
                    assert(ts[i] == tf[i]);
                }
            }
        }
    }
}

/// Loading values into targets that are all new and all different puts
/// each value under its target.
pub proof fn lemma_load_all_found<T>(s: Spaces<T>, ts: Seq<(Option<Seq<char>>, Seq<char>)>, ds: Seq<T>)
    requires
        spaces_wf(s),
        ts.len() == ds.len(),
        forall|i: int| 0 <= i < ts.len() ==> lookup_in(s, (#[trigger] ts[i]).0, ts[i].1) is None,
        forall|i: int, j: int| 0 <= i < j < ts.len() ==> #[trigger] ts[i] != #[trigger] ts[j],
    ensures
        forall|i: int| 0 <= i < ts.len() ==> lookup_in(load_all(s, ts, ds).0, (#[trigger] ts[i]).0, ts[i].1) == Some(ds[i]),
    decreases ts.len(),
{
    if ts.len() > 0 {
        let tl = ts.drop_last();
        let dl = ds.drop_last();
        let last = ts.last();
        assert forall|i: int| 0 <= i < tl.len() implies lookup_in(s, (#[trigger] tl[i]).0, tl[i].1) is None by {
            assert(tl[i] == ts[i]);
        }
        assert forall|i: int, j: int| 0 <= i < j < tl.len() implies #[trigger] tl[i] != #[trigger] tl[j] by {
            assert(tl[i] == ts[i] && tl[j] == ts[j]);
        }
        lemma_load_all_found(s, tl, dl);
        lemma_load_all_fresh(s, tl, dl, last.0, last.1);
        assert forall|i: int| 0 <= i < tl.len() implies #[trigger] tl[i] != (last.0, last.1) by {
            assert(tl[i] == ts[i]);
            assert(ts[i] != ts[ts.len() - 1]);
        }
        assert(lookup_in(s, ts[ts.len() - 1].0, ts[ts.len() - 1].1) is None);
        let s1 = load_all(s, tl, dl).0;
        assert forall|i: int| 0 <= i < ts.len() implies lookup_in(load_all(s, ts, ds).0, (#[trigger] ts[i]).0, ts[i].1) == Some(ds[i]) by {
            lemma_load_then_get(s1, last.0, last.1, ds.last(), ts[i].0, ts[i].1);
            if i < tl.len() {
                assert(tl[i] == ts[i]);
                assert(dl[i] == ds[i]);
                assert(ts[i] != ts[ts.len() - 1]);
            }
        }
    }
}

/// The namespace that the options put a file into: the unnamed one for
/// [`LoadNamespace::Root`], the file's folder for [`LoadNamespace::Auto`],
/// the given one for [`LoadNamespace::Specific`].
pub open spec fn chosen_namespace(parent: Option<Seq<char>>, options: LoadOptions) -> Option<Seq<char>> {
    match options.namespace {
        LoadNamespace::Root => None,
        LoadNamespace::Auto => parent,
        LoadNamespace::Specific(ns) => Some(ns@),
    }
}

/// The name that the options give a file: its own name for
/// [`LoadName::Auto`], the given one for [`LoadName::Specific`].
pub open spec fn chosen_name(stem: Option<Seq<char>>, options: LoadOptions) -> Seq<char> {
    match options.name {
        LoadName::Auto => stem->0,
        LoadName::Specific(n) => n@,
    }
}

/// When files are loaded, each file's data is found afterwards in the
/// namespace and under the name that the options choose: in the given
/// namespace for [`LoadNamespace::Specific`], in the unnamed one for
/// [`LoadNamespace::Root`], in its folder's for [`LoadNamespace::Auto`]; under
/// the file's own name, or the given one.
pub proof fn lemma_loaded_files_found<T>(s: Spaces<T>, files: Seq<(Option<Seq<char>>, Option<Seq<char>>, T)>, options: LoadOptions)
    requires
        spaces_wf(s),
        load_plan(s, files, options) is Ok,
    ensures
        forall|i: int| 0 <= i < files.len() ==> lookup_in(
            load_all(s, load_plan(s, files, options)->Ok_0, file_datas(files)).0,
            chosen_namespace(#[trigger] files[i].1, options),
            chosen_name(files[i].0, options),
        ) == Some(files[i].2),
        options.namespace matches LoadNamespace::Specific(ns) ==> forall|i: int| 0 <= i < files.len() ==> lookup_in(
            load_all(s, load_plan(s, files, options)->Ok_0, file_datas(files)).0,
            Some(ns@),
            chosen_name(#[trigger] files[i].0, options),
        ) == Some(files[i].2),
{
    let ts = load_plan(s, files, options)->Ok_0;
    lemma_plan_follows_targets(s, files, options);
    lemma_plan_targets(s, files, options);
    lemma_load_all_found(s, ts, file_datas(files));
    assert forall|i: int| 0 <= i < files.len() implies lookup_in(
        load_all(s, ts, file_datas(files)).0,
        chosen_namespace(#[trigger] files[i].1, options),
        chosen_name(files[i].0, options),
    ) == Some(files[i].2) by {
        assert(target_of(files[i].0, files[i].1, options) == Ok::<(Option<Seq<char>>, Seq<char>), Error>(ts[i]));
        assert(file_datas(files)[i] == files[i].2);
    }
    if let LoadNamespace::Specific(ns) = options.namespace {
        assert forall|i: int| 0 <= i < files.len() implies lookup_in(
            load_all(s, ts, file_datas(files)).0,
            Some(ns@),
            chosen_name(#[trigger] files[i].0, options),
        ) == Some(files[i].2) by {
            assert(chosen_namespace(files[i].1, options) == Some(ns@));
        }
    }
}

} // verus!
