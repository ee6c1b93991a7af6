//! The table of block kinds: numeric IDs in order from 0, a resource name for each, and the
//! layout of its state.
use vstd::prelude::*;
use vstd::string::StrSliceExecFns;

use crate::block::{assigned, field_at, high_clear, name_index_from, pairs_valid, Block, BlockId, Definition, PropertyDefinition, StateError};
use crate::location::{location_error, parts_of, Location, ParseLocationError};
use crate::state::{fails_with, parse_value, PropertyError};

verus! {

/// The block kinds, by numeric ID.
#[derive(Debug)]
pub struct BlockTable {
    names: Vec<String>,
    definitions: Vec<Definition>,
}

/// Why a block kind could not be added.
#[derive(Clone, Debug, PartialEq, Eq)]
pub enum TableError {
    /// Every numeric ID is taken.
    Full,
    /// A kind of this name is already in the table.
    Duplicate(String),
}

/// Why a block could not be built from its name and textual properties.
#[derive(Clone, Debug, PartialEq, Eq)]
pub enum BlockStateError {
    Location(ParseLocationError),
    /// No block kind has this name.
    UnknownBlock(String),
    /// The kind has no property of this name.
    UnknownProperty(String),
    /// The value given for the named property is not one of its values.
    InvalidValue(String, PropertyError),
}

/// The name of the kind with numeric ID 0.
pub open spec fn air_name() -> Seq<char> {
    seq!['a', 'i', 'r']
}

/// The index of the first name from `k` on that spells `s`.
pub open spec fn kind_index_from(names: Seq<String>, s: Seq<char>, k: int) -> Option<int>
    decreases names.len() - k,
{
    if k < 0 || k >= names.len() {
        None
    } else if names[k]@ == s {
        Some(k)
    } else {
        kind_index_from(names, s, k + 1)
    }
}

proof fn lemma_own_index(names: Seq<String>, k: int, j: int)
    requires
        0 <= j <= k < names.len(),
        forall|a: int, b: int| 0 <= a < b < names.len() ==> (#[trigger] names[a])@ != (#[trigger] names[b])@,
    ensures
        kind_index_from(names, names[k]@, j) == Some(k),
    decreases k - j,
{
    if j < k {
        assert(names[j]@ != names[k]@);
        lemma_own_index(names, k, j + 1);
    }
}

proof fn lemma_kind_index(names: Seq<String>, s: Seq<char>, k: int)
    requires
        0 <= k,
    ensures
        kind_index_from(names, s, k) matches Some(i) ==> k <= i < names.len() && names[i]@ == s,
        kind_index_from(names, s, k) is None ==> forall|j: int| k <= j < names.len() ==> (#[trigger] names[j])@ != s,
    decreases names.len() - k,
{
    if k < names.len() && names[k]@ != s {
        lemma_kind_index(names, s, k + 1);
    }
}

impl BlockTable {
    /// The names of the kinds, by numeric ID.
    pub closed spec fn kind_names(&self) -> Seq<String> {
        self.names@
    }

    /// The state layouts of the kinds, by numeric ID.
    pub closed spec fn layouts(&self) -> Seq<Definition> {
        self.definitions@
    }

    /// One name and one consistent layout per kind, at most 65536 kinds, no name twice, and
    /// kind 0 is air, without properties.
    pub closed spec fn wf(&self) -> bool {
        &&& self.names@.len() >= 1
        &&& self.names@[0]@ == air_name()
        &&& self.definitions@[0].properties@.len() == 0
        &&& self.names@.len() == self.definitions@.len()
        &&& self.names@.len() <= 0x10000
        &&& forall|i: int| 0 <= i < self.definitions@.len() ==> (#[trigger] self.definitions@[i]).wf()
        &&& forall|i: int, j: int|
            0 <= i < j < self.names@.len() ==> (#[trigger] self.names@[i])@ != (#[trigger] self.names@[j])@
    }

    /// No two kinds share a name, every layout is consistent, and kind 0 is air.
    pub proof fn lemma_names_distinct(&self)
        requires
            self.wf(),
        ensures
            self.kind_names().len() >= 1,
            self.kind_names()[0]@ == air_name(),
            self.layouts()[0].properties@.len() == 0,
            self.kind_names().len() == self.layouts().len(),
            self.kind_names().len() <= 0x10000,
            forall|i: int| 0 <= i < self.layouts().len() ==> (#[trigger] self.layouts()[i]).wf(),
            forall|i: int, j: int|
                0 <= i < j < self.kind_names().len() ==> (#[trigger] self.kind_names()[i])@ != (
                #[trigger] self.kind_names()[j])@,
    {
    }

    /// Looking a kind up by its own name finds that kind.
    pub proof fn lemma_lookup_own_name(&self, k: int)
        requires
            self.wf(),
            0 <= k < self.kind_names().len(),
        ensures
            kind_index_from(self.kind_names(), self.kind_names()[k]@, 0) == Some(k),
    {
        lemma_own_index(self.names@, k, 0);
    }

    /// A table holding air alone, with numeric ID 0, so that an all-zero state word is air.
    pub fn new() -> (r: BlockTable)
        ensures
            r.wf(),
            r.kind_names().len() == 1,
    {
        proof {
            reveal_strlit("air");
        }
        let mut names: Vec<String> = Vec::new();
        let air = <String as vstd::string::StringExecFns>::from_str("air");
        assert(air@ =~= air_name());
        names.push(air);
        let mut definitions: Vec<Definition> = Vec::new();
        definitions.push(Definition { properties: Vec::new() });
        let r = BlockTable { names, definitions };
        assert(r.definitions@[0].properties@.len() == 0);
        r
    }

    /// Converts the given numeric ID to a block ID, if a kind has it.
    pub fn from_numeric(&self, id: u16) -> (r: Option<BlockId>)
        requires
            self.wf(),
        ensures
            r is Some <==> id < self.kind_names().len(),
            r matches Some(b) ==> b.0 == id,
    {
        if (id as usize) < self.names.len() {
            Some(BlockId(id))
        } else {
            None
        }
    }

    /// The kind that a resource location names, by the path of the location.
    pub open spec fn kind_of(&self, name: Seq<char>) -> Option<int> {
        if location_error(name) is None {
            kind_index_from(self.kind_names(), parts_of(name).1, 0)
        } else {
            None
        }
    }

    /// The number of kinds.
    pub fn len(&self) -> (r: usize)
        requires
            self.wf(),
        ensures
            r == self.kind_names().len(),
    {
        self.names.len()
    }

    /// Converts the given name to a block ID.
    pub fn from_location(&self, name: &str) -> (r: Option<BlockId>)
        requires
            self.wf(),
        ensures
            r is Some <==> kind_index_from(self.kind_names(), name@, 0) is Some,
            r matches Some(id) ==> id.0 == kind_index_from(self.kind_names(), name@, 0)->Some_0
                && self.kind_names()[id.0 as int]@ == name@,
    {
        proof {
            lemma_kind_index(self.names@, name@, 0);
        }
        let mut i: usize = 0;
        while i < self.names.len()
            invariant
                self.names@.len() <= 0x10000,
                i <= self.names@.len(),
                kind_index_from(self.names@, name@, i as int) == kind_index_from(self.names@, name@, 0),
            decreases self.names@.len() - i,
        {
            let own = self.names[i].as_str();
            let n = own.unicode_len();
            if crate::text::piece_is(own, 0, n, name) {
                assert(own@.subrange(0, n as int) =~= own@);
                return Some(BlockId(i as u16));
            }
            assert(own@.subrange(0, n as int) =~= own@);
            i = i + 1;
        }
        None
    }

    /// Adds a block kind under the next numeric ID.
    pub fn push(&mut self, name: String, def: Definition) -> (r: Result<BlockId, TableError>)
        requires
            old(self).wf(),
            def.wf(),
        ensures
            final(self).wf(),
            r matches Ok(id) ==> id.0 == old(self).kind_names().len() && final(self).kind_names()
                == old(self).kind_names().push(name) && final(self).layouts() == old(self).layouts().push(def),
            r is Err ==> final(self).kind_names() == old(self).kind_names() && final(self).layouts() == old(self).layouts(),
            r is Ok <==> old(self).kind_names().len() < 0x10000 && kind_index_from(old(self).kind_names(), name@, 0) is None,
    {
        if self.names.len() >= 0x10000 {
            return Err(TableError::Full);
        }
        if self.from_location(name.as_str()).is_some() {
            return Err(TableError::Duplicate(name));
        }
        proof {
            lemma_kind_index(self.names@, name@, 0);
        }
        let id = BlockId(self.names.len() as u16);
        let ghost before = self.names@;
        let ghost defs = self.definitions@;
        self.names.push(name);
        self.definitions.push(def);
        proof {
            assert forall|i: int| 0 <= i < self.definitions@.len() implies (#[trigger] self.definitions@[i]).wf() by {
                if i < defs.len() {
                    assert(self.definitions@[i] == defs[i]);
                }
            }
            assert forall|i: int, j: int| 0 <= i < j < self.names@.len() implies (#[trigger] self.names@[i])@
                != (#[trigger] self.names@[j])@ by {
                assert(self.names@[i] == before[i]);
                if j < before.len() {
                    assert(self.names@[j] == before[j]);
                }
            }
        }
        Ok(id)
    }

    /// Returns the name of the kind with the given ID.
    pub fn to_location(&self, id: BlockId) -> (r: &String)
        requires
            self.wf(),
            id.0 < self.kind_names().len(),
        ensures
            *r == self.kind_names()[id.0 as int],
    {
        &self.names[id.0 as usize]
    }

    /// Returns the state layout of the kind with the given ID.
    pub fn state_definition(&self, id: BlockId) -> (r: &Definition)
        requires
            self.wf(),
            id.0 < self.kind_names().len(),
        ensures
            *r == self.layouts()[id.0 as int],
            r.wf(),
    {
        &self.definitions[id.0 as usize]
    }

    /// Builds a block from a resource location naming its kind and `(name, value)` pairs in
    /// textual form, as saved worlds store blocks. Pairs are applied in order; properties that
    /// no pair names keep their minimum; a pair naming no property of the kind is an error.
    pub fn block_from_state(&self, name: &str, pairs: &Vec<(String, String)>) -> (r: Result<
        Block,
        BlockStateError,
    >)
        requires
            self.wf(),
        ensures
            location_error(name@) matches Some(e) ==> r == Err::<Block, BlockStateError>(
                BlockStateError::Location(e),
            ),
            location_error(name@) is None && self.kind_of(name@) is None ==> r matches Err(
                BlockStateError::UnknownBlock(_),
            ),
            r is Ok <==> self.kind_of(name@) is Some && pairs_valid(
                self.layouts()[self.kind_of(name@)->Some_0].properties@,
                pairs@,
            ),
            r is Ok ==> r->Ok_0@ & 0xFFFF == self.kind_of(name@)->Some_0,
            r is Ok ==> high_clear(self.layouts()[self.kind_of(name@)->Some_0].properties@, r->Ok_0@),
            r is Ok ==> forall|j: int|
                0 <= j < self.layouts()[self.kind_of(name@)->Some_0].properties@.len() ==> #[trigger] field_at(
                    self.layouts()[self.kind_of(name@)->Some_0].properties@,
                    r->Ok_0@,
                    j,
                ) == assigned(
                    self.layouts()[self.kind_of(name@)->Some_0].properties@,
                    pairs@,
                    pairs@.len() as int,
                    j,
                ),
            r matches Err(BlockStateError::UnknownProperty(n)) ==> self.kind_of(name@) is Some
                && exists|k: int|
                0 <= k < pairs@.len() && (#[trigger] pairs@[k]).0@ == n@ && name_index_from(
                    self.layouts()[self.kind_of(name@)->Some_0].properties@,
                    n@,
                    0,
                ) is None,
            r matches Err(BlockStateError::InvalidValue(n, e)) ==> self.kind_of(name@) is Some
                && exists|k: int|
                0 <= k < pairs@.len() && (#[trigger] pairs@[k]).0@ == n@ && match name_index_from(
                    self.layouts()[self.kind_of(name@)->Some_0].properties@,
                    n@,
                    0,
                ) {
                    Some(i) => fails_with(
                        parse_value(self.layouts()[self.kind_of(name@)->Some_0].properties@[i].id, pairs@[k].1@),
                        e,
                    ),
                    None => false,
                },
    {
        let location = match Location::new(name) {
            Ok(l) => l,
            Err(e) => {
                return Err(BlockStateError::Location(e));
            },
        };
        let path = location.path();
        let id = match self.from_location(path.as_str()) {
            Some(id) => id,
            None => {
                return Err(BlockStateError::UnknownBlock(path));
            },
        };
        proof {
            lemma_kind_index(self.names@, path@, 0);
        }
        let def = self.state_definition(id);
        match def.encode_text(id, pairs) {
            Ok(b) => Ok(b),
            Err(StateError::UnknownProperty(n)) => Err(BlockStateError::UnknownProperty(n)),
            Err(StateError::InvalidValue(n, e)) => Err(BlockStateError::InvalidValue(n, e)),
            Err(_) => {
                assert(false);
                Err(BlockStateError::UnknownBlock(path))
            },
        }
    }
}

} // verus!
