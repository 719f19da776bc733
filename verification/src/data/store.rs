use vstd::prelude::*;

use crate::data::constants::Constants;
use crate::data::data_entry::{loaded_into, DataEntry};
use crate::error::Error;
use crate::types::layout::named_type;
use crate::data::enums::Enums;
use crate::data::h2bitmasks::H2Bitmasks;
use crate::types::h2type::H2Type;

verus! {

/// A named type, as kept in the data: just an [`H2Type`].
pub type Types = H2Type;

/// All the data that types can refer to: constants, enumerations, bitmasks
/// and named types, each grouped by namespace and name.
#[derive(Debug)]
pub struct Data {
    pub constants: DataEntry<Constants>,
    pub enums: DataEntry<Enums>,
    pub bitmasks: DataEntry<H2Bitmasks>,
    pub types: DataEntry<Types>,
}

impl Default for Data {
    /// Empty collections.
    fn default() -> (r: Self)
        ensures
            r.wf(),
            r.constants@.len() == 1 && r.enums@.len() == 1 && r.bitmasks@.len() == 1
                && r.types@.len() == 1,
            r.constants@[0].1.len() == 0 && r.enums@[0].1.len() == 0 && r.bitmasks@[0].1.len() == 0
                && r.types@[0].1.len() == 0,
    {
        Self::new()
    }
}

impl Data {
    /// The invariant of each collection.
    pub open spec fn wf(&self) -> bool {
        &&& self.constants.wf()
        &&& self.enums.wf()
        &&& self.bitmasks.wf()
        &&& self.types.wf()
    }

    /// Empty collections: each holds just the unnamed namespace, empty.
    pub fn new() -> (r: Self)
        ensures
            r.wf(),
            r.constants@ == seq![(None::<Seq<char>>, Seq::<(Seq<char>, Constants)>::empty())],
            r.enums@ == seq![(None::<Seq<char>>, Seq::<(Seq<char>, Enums)>::empty())],
            r.bitmasks@ == seq![(None::<Seq<char>>, Seq::<(Seq<char>, H2Bitmasks)>::empty())],
            r.types@ == seq![(None::<Seq<char>>, Seq::<(Seq<char>, Types)>::empty())],
            r.constants@.len() == 1 && r.enums@.len() == 1 && r.bitmasks@.len() == 1
                && r.types@.len() == 1,
            r.constants@[0].1.len() == 0 && r.enums@[0].1.len() == 0 && r.bitmasks@[0].1.len() == 0
                && r.types@[0].1.len() == 0,
    {
        Data {
            constants: DataEntry::new(),
            enums: DataEntry::new(),
            bitmasks: DataEntry::new(),
            types: DataEntry::new(),
        }
    }

    /// Keep a type under a name in the unnamed namespace of the types, where
    /// references find it. Fails with [`Error::DuplicateName`] when the name
    /// is taken.
    pub fn insert_type(&mut self, name: &str, t: H2Type) -> (r: Result<(), Error>)
        ensures
            final(self).wf(),
            (final(self).types@, r) == loaded_into(old(self).types@, None, seq![(name@, t)]),
            final(self).constants@ == old(self).constants@,
            final(self).enums@ == old(self).enums@,
            final(self).bitmasks@ == old(self).bitmasks@,
    {
        proof {
            use_type_invariant(&self.constants);
            use_type_invariant(&self.enums);
            use_type_invariant(&self.bitmasks);
            use_type_invariant(&self.types);
        }
        self.types.load_datum(None, name.to_owned(), t)
    }

    /// The type with a name in the unnamed namespace of the types.
    pub fn lookup_type(&self, name: &str) -> (r: Result<&H2Type, Error>)
        ensures
            match named_type(*self, name@) {
                Ok(u) => r is Ok && *r->Ok_0 == u,
                Err(e) => r == Err::<&H2Type, Error>(e),
            },
    {
        proof {
            use_type_invariant(&self.constants);
            use_type_invariant(&self.enums);
            use_type_invariant(&self.bitmasks);
            use_type_invariant(&self.types);
        }
        self.types.get(None, name)
    }
}

} // verus!
