//! The initial contents of heap and globals, as the program image gives them.

use crate::encode::{pack, spec_pack, U256};
use crate::mtable::LocationType;
use std::collections::HashMap;
use vstd::prelude::*;

verus! {

broadcast use vstd::std_specs::hash::group_hash_axioms;

#[derive(Clone, Copy, Debug, PartialEq, Eq, Structural)]
pub struct InitMemoryTableEntry {
    pub ltype: LocationType,
    pub is_mutable: bool,
    pub offset: u32,
    pub value: u64,
}

impl InitMemoryTableEntry {
    pub open spec fn is_at(self, ltype: LocationType, offset: u32) -> bool {
        self.ltype == ltype && self.offset == offset
    }

    /// The row of the entry: location in the third limb, mutability in the
    /// second, value in the first.
    pub open spec fn spec_encode(self) -> U256 {
        U256 {
            l0: self.value,
            l1: if self.is_mutable {
                1
            } else {
                0
            },
            l2: spec_pack(self.ltype.rank() as u32, self.offset),
            l3: 0,
        }
    }

    pub fn encode(&self) -> (r: U256)
        ensures
            r == self.spec_encode(),
            r.l3 == 0,
    {
        U256 {
            l0: self.value,
            l1: if self.is_mutable {
                1
            } else {
                0
            },
            l2: pack(self.ltype.index() as u32, self.offset),
            l3: 0,
        }
    }
}

/// The value that `entries` gives for a location: that of the first entry at
/// that location, if there is one.
pub open spec fn lookup(entries: Seq<InitMemoryTableEntry>, ltype: LocationType, offset: u32)
    -> Option<u64>
    decreases entries.len(),
{
    if entries.len() == 0 {
        None
    } else if entries.first().is_at(ltype, offset) {
        Some(entries.first().value)
    } else {
        lookup(entries.drop_first(), ltype, offset)
    }
}

/// `lookup` finds a value exactly for the locations that some entry names.
pub proof fn lemma_lookup_some(
    entries: Seq<InitMemoryTableEntry>,
    ltype: LocationType,
    offset: u32,
)
    ensures
        lookup(entries, ltype, offset) is Some <==> exists|i: int|
            0 <= i < entries.len() && (#[trigger] entries[i]).is_at(ltype, offset),
    decreases entries.len(),
{
    if entries.len() == 0 {
    } else if entries.first().is_at(ltype, offset) {
        assert(entries[0].is_at(ltype, offset));
    } else {
        let rest = entries.drop_first();
        lemma_lookup_some(rest, ltype, offset);
        if lookup(rest, ltype, offset) is Some {
            let i = choose|i: int| 0 <= i < rest.len() && (#[trigger] rest[i]).is_at(ltype, offset);
            assert(entries[i + 1].is_at(ltype, offset));
        }
        if exists|i: int| 0 <= i < entries.len() && (#[trigger] entries[i]).is_at(ltype, offset) {
            let i = choose|i: int|
                0 <= i < entries.len() && (#[trigger] entries[i]).is_at(ltype, offset);
            assert(rest[i - 1].is_at(ltype, offset));
        }
    }
}

/// What an entry adds to the lookup of the entries before it: its value, if
/// it is at the location and none of them is.
pub proof fn lemma_lookup_push(
    entries: Seq<InitMemoryTableEntry>,
    e: InitMemoryTableEntry,
    ltype: LocationType,
    offset: u32,
)
    ensures
        lookup(entries.push(e), ltype, offset) == match lookup(entries, ltype, offset) {
            Some(value) => Some(value),
            None => if e.is_at(ltype, offset) {
                Some(e.value)
            } else {
                None
            },
        },
    decreases entries.len(),
{
    if entries.len() == 0 {
        assert(entries.push(e).drop_first() =~= entries);
    } else {
        assert(entries.push(e).first() == entries.first());
        assert(entries.push(e).drop_first() =~= entries.drop_first().push(e));
        lemma_lookup_push(entries.drop_first(), e, ltype, offset);
    }
}

/// One number for each location: the address space above the offset.
pub open spec fn spec_location_key(ltype: LocationType, offset: u32) -> u64 {
    (ltype.rank() * 0x1_0000_0000 + offset) as u64
}

#[verifier::when_used_as_spec(spec_location_key)]
pub fn location_key(ltype: LocationType, offset: u32) -> (key: u64)
    ensures
        key == spec_location_key(ltype, offset),
{
    ltype.index() * 0x1_0000_0000 + offset as u64
}

/// Different locations have different keys.
pub proof fn lemma_location_key_injective(a: LocationType, x: u32, b: LocationType, y: u32)
    requires
        spec_location_key(a, x) == spec_location_key(b, y),
    ensures
        a == b,
        x == y,
{
}

/// Whether `index` answers every lookup in `entries`.
pub open spec fn indexes(index: Map<u64, u64>, entries: Seq<InitMemoryTableEntry>) -> bool {
    forall|ltype: LocationType, offset: u32|
        lookup(entries, ltype, offset) == (if index.contains_key(
            #[trigger] spec_location_key(ltype, offset),
        ) {
            Some(index[spec_location_key(ltype, offset)])
        } else {
            None
        })
}

/// The initial memory of an image, with an index from locations to values.
#[derive(Debug)]
pub struct InitMemoryTable {
    entries: Vec<InitMemoryTableEntry>,
    index: HashMap<u64, u64>,
}

impl View for InitMemoryTable {
    type V = Seq<InitMemoryTableEntry>;

    closed spec fn view(&self) -> Seq<InitMemoryTableEntry> {
        self.entries@
    }
}

impl InitMemoryTable {
    #[verifier::type_invariant]
    spec fn inv(self) -> bool {
        indexes(self.index@, self.entries@)
    }

    pub fn new(entries: Vec<InitMemoryTableEntry>) -> (table: InitMemoryTable)
        ensures
            table@ == entries@,
    {
        let mut index: HashMap<u64, u64> = HashMap::new();
        let mut i: usize = 0;
        proof {
            assert(entries@.take(0) =~= Seq::<InitMemoryTableEntry>::empty());
        }
        while i < entries.len()
            invariant
                i <= entries.len(),
                indexes(index@, entries@.take(i as int)),
            decreases entries.len() - i,
        {
            let e = entries[i];
            let key = location_key(e.ltype, e.offset);
            let ghost before = index@;
            if !index.contains_key(&key) {
                index.insert(key, e.value);
            }
            proof {
                assert(entries@.take(i + 1) =~= entries@.take(i as int).push(e));
                assert forall|ltype: LocationType, offset: u32|
                    lookup(entries@.take(i + 1), ltype, offset) == (if index@.contains_key(
                        #[trigger] spec_location_key(ltype, offset),
                    ) {
                        Some(index@[spec_location_key(ltype, offset)])
                    } else {
                        None
                    }) by {
                    lemma_lookup_push(entries@.take(i as int), e, ltype, offset);
                    if spec_location_key(ltype, offset) == key {
                        lemma_location_key_injective(ltype, offset, e.ltype, e.offset);
                    }
                }
            }
            i += 1;
        }
        proof {
            assert(entries@.take(entries@.len() as int) =~= entries@);
        }
        InitMemoryTable { entries, index }
    }

    pub fn entries(&self) -> (entries: &Vec<InitMemoryTableEntry>)
        ensures
            entries@ == self@,
    {
        &self.entries
    }

    /// Point lookup of the initial value of a location.
    pub fn try_find(&self, ltype: LocationType, offset: u32) -> (found: Option<u64>)
        ensures
            found == lookup(self@, ltype, offset),
    {
        proof {
            use_type_invariant(self);
        }
        let key = location_key(ltype, offset);
        match self.index.get(&key) {
            Some(value) => Some(*value),
            None => None,
        }
    }

    /// The entries of one address space, in table order.
    pub fn filter(&self, ltype: LocationType) -> (found: Vec<InitMemoryTableEntry>)
        ensures
            found@ == self@.filter(|e: InitMemoryTableEntry| e.ltype == ltype),
    {
        let ghost pred = |e: InitMemoryTableEntry| e.ltype == ltype;
        let mut found: Vec<InitMemoryTableEntry> = Vec::new();
        let mut i: usize = 0;
        proof {
            reveal(Seq::filter);
            assert(self@.take(0) =~= Seq::<InitMemoryTableEntry>::empty());
        }
        while i < self.entries.len()
            invariant
                i <= self.entries.len(),
                pred == (|e: InitMemoryTableEntry| e.ltype == ltype),
                found@ == self@.take(i as int).filter(pred),
            decreases self.entries.len() - i,
        {
            let e = self.entries[i];
            proof {
                reveal(Seq::filter);
                assert(self@.take(i + 1).drop_last() =~= self@.take(i as int));
                assert(self@.take(i + 1).last() == e);
            }
            if e.ltype == ltype {
                found.push(e);
            }
            i += 1;
        }
        proof {
            assert(self@.take(self@.len() as int) =~= self@);
        }
        found
    }
}

} // verus!
