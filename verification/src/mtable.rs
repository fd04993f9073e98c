//! Memory access events and the location-ordered memory table.

use crate::error::TraceError;
use crate::imtable::{
    lemma_location_key_injective, location_key, lookup, spec_location_key, InitMemoryTable,
    InitMemoryTableEntry,
};
use std::collections::{HashMap, HashSet};
use vstd::prelude::*;

verus! {

broadcast use vstd::std_specs::hash::group_hash_axioms;

/// The three address spaces a step can touch.
#[derive(Clone, Copy, Debug, PartialEq, Eq, Structural, Hash)]
pub enum LocationType {
    Stack,
    Heap,
    Global,
}

impl LocationType {
    /// Position of the address space in the table order.
    pub open spec fn rank(self) -> int {
        match self {
            LocationType::Stack => 1,
            LocationType::Heap => 2,
            LocationType::Global => 3,
        }
    }

    pub fn index(self) -> (r: u64)
        ensures
            r == self.rank(),
    {
        match self {
            LocationType::Stack => 1,
            LocationType::Heap => 2,
            LocationType::Global => 3,
        }
    }

    /// Heap cells and globals start from the program image, so every one of
    /// them that a trace touches gets an initialization row.
    pub open spec fn is_initialized_from_image(self) -> bool {
        self == LocationType::Heap || self == LocationType::Global
    }
}

#[derive(Clone, Copy, Debug, PartialEq, Eq, Structural, Hash)]
pub enum AccessType {
    Read,
    Write,
    Init,
}

impl AccessType {
    pub open spec fn spec_is_init(self) -> bool {
        self == AccessType::Init
    }

    #[verifier::when_used_as_spec(spec_is_init)]
    pub fn is_init(self) -> (r: bool)
        ensures
            r == self.spec_is_init(),
    {
        self == AccessType::Init
    }
}

#[derive(Clone, Copy, Debug, PartialEq, Eq, Structural, Hash)]
pub enum VarType {
    I64,
    I32,
}

/// One access of one step to one location. `emid` numbers the accesses of a
/// step, starting at 1; synthesized initialization rows carry `eid` 0 and
/// `emid` 0.
#[derive(Clone, Copy, Debug, PartialEq, Eq, Structural, Hash)]
pub struct MemoryTableEntry {
    pub eid: u32,
    pub emid: u32,
    pub offset: u32,
    pub ltype: LocationType,
    pub atype: AccessType,
    pub vtype: VarType,
    pub is_mutable: bool,
    pub value: u64,
}

impl MemoryTableEntry {
    pub open spec fn same_location(self, other: MemoryTableEntry) -> bool {
        self.ltype == other.ltype && self.offset == other.offset
    }

    /// The table order: by address space, then offset, then execution id, then
    /// access number within the step.
    pub open spec fn key_le(self, other: MemoryTableEntry) -> bool {
        let (a, b) = (self, other);
        a.ltype.rank() < b.ltype.rank() || (a.ltype.rank() == b.ltype.rank() && (a.offset
            < b.offset || (a.offset == b.offset && (a.eid < b.eid || (a.eid == b.eid && a.emid
            <= b.emid)))))
    }

    /// When the access happens: its step, and its number among the accesses
    /// of the step.
    pub open spec fn moment(self) -> (u32, u32) {
        (self.eid, self.emid)
    }

    /// Whether `self` happens strictly before `other`: earlier step, or
    /// earlier access of the same step.
    pub open spec fn precedes(self, other: MemoryTableEntry) -> bool {
        earlier(self.moment(), other.moment())
    }

    pub fn is_same_location(&self, other: &MemoryTableEntry) -> (r: bool)
        ensures
            r == self.same_location(*other),
    {
        self.ltype == other.ltype && self.offset == other.offset
    }

    pub fn sorts_before_or_with(&self, other: &MemoryTableEntry) -> (r: bool)
        ensures
            r == self.key_le(*other),
    {
        let a = self.ltype.index();
        let b = other.ltype.index();
        a < b || (a == b && (self.offset < other.offset || (self.offset == other.offset && (
        self.eid < other.eid || (self.eid == other.eid && self.emid <= other.emid)))))
    }
}

/// Whether the moment `a` lies before the moment `b`.
pub open spec fn earlier(a: (u32, u32), b: (u32, u32)) -> bool {
    a.0 < b.0 || (a.0 == b.0 && a.1 < b.1)
}

/// `s` is in table order.
pub open spec fn sorted_by_key(s: Seq<MemoryTableEntry>) -> bool {
    forall|i: int, j: int| 0 <= i < j < s.len() ==> (#[trigger] s[i]).key_le(#[trigger] s[j])
}

/// Whether place `a` of `m` comes before place `b` in the table: its entry
/// has the lesser key, or the same key and the earlier place.
pub open spec fn comes_first(m: Seq<MemoryTableEntry>, a: int, b: int) -> bool {
    m[a].key_le(m[b]) && (!m[b].key_le(m[a]) || a < b)
}

/// Whether `t` holds the entries of `m` from place `lo` up to place `hi`,
/// each once, in table order, and those of the same key in the order in
/// which they stand in `m`; `places` tells for each entry of `t` where in `m`
/// it stands.
pub open spec fn arranged(
    t: Seq<MemoryTableEntry>,
    m: Seq<MemoryTableEntry>,
    lo: int,
    hi: int,
    places: Seq<int>,
) -> bool {
    &&& t.len() == hi - lo
    &&& places.len() == hi - lo
    &&& forall|i: int|
        0 <= i < places.len() ==> lo <= #[trigger] places[i] < hi && t[i] == m[places[i]]
    &&& forall|i: int, j: int|
        0 <= i < j < places.len() ==> comes_first(m, #[trigger] places[i], #[trigger] places[j])
    &&& forall|k: int| lo <= k < hi ==> #[trigger] places.contains(k)
}

/// Whether `t` is `m` sorted into table order, with the entries of the same
/// key left in the order in which they stand in `m`.
pub open spec fn is_stable_sort(t: Seq<MemoryTableEntry>, m: Seq<MemoryTableEntry>) -> bool {
    exists|places: Seq<int>| #[trigger] arranged(t, m, 0, m.len() as int, places)
}

/// What comes before something that comes before a third comes before the
/// third.
proof fn lemma_comes_first_transitive(m: Seq<MemoryTableEntry>, a: int, b: int, c: int)
    requires
        comes_first(m, a, b),
        comes_first(m, b, c),
    ensures
        comes_first(m, a, c),
{
}

/// Merges two runs in table order into one, taking from `left` where both
/// offer entries of the same key. The runs hold the entries of `m` from `lo`
/// up to `mid` and from `mid` up to `hi`.
fn merge(
    left: &Vec<MemoryTableEntry>,
    right: &Vec<MemoryTableEntry>,
    Ghost(m): Ghost<Seq<MemoryTableEntry>>,
    Ghost(lo): Ghost<int>,
    Ghost(mid): Ghost<int>,
    Ghost(hi): Ghost<int>,
    Ghost(lp): Ghost<Seq<int>>,
    Ghost(rp): Ghost<Seq<int>>,
) -> (r: (Vec<MemoryTableEntry>, Ghost<Seq<int>>))
    requires
        sorted_by_key(left@),
        sorted_by_key(right@),
        0 <= lo <= mid <= hi <= m.len(),
        arranged(left@, m, lo, mid, lp),
        arranged(right@, m, mid, hi, rp),
    ensures
        sorted_by_key(r.0@),
        r.0@.to_multiset() == left@.to_multiset().add(right@.to_multiset()),
        arranged(r.0@, m, lo, hi, r.1@),
{
    let mut merged: Vec<MemoryTableEntry> = Vec::new();
    let ghost mut mp: Seq<int> = Seq::empty();
    let mut i: usize = 0;
    let mut j: usize = 0;
    proof {
        assert(merged@ =~= left@.take(0) + right@.take(0));
    }
    while i < left.len() || j < right.len()
        invariant
            i <= left.len(),
            j <= right.len(),
            sorted_by_key(left@),
            sorted_by_key(right@),
            sorted_by_key(merged@),
            merged@.to_multiset() == (left@.take(i as int) + right@.take(j as int)).to_multiset(),
            merged@.len() > 0 && i < left.len() ==> merged@.last().key_le(left@[i as int]),
            merged@.len() > 0 && j < right.len() ==> merged@.last().key_le(right@[j as int]),
            0 <= lo <= mid <= hi <= m.len(),
            arranged(left@, m, lo, mid, lp),
            arranged(right@, m, mid, hi, rp),
            mp.len() == merged@.len() == i + j,
            forall|c: int|
                0 <= c < mp.len() ==> lo <= #[trigger] mp[c] < hi && merged@[c] == m[mp[c]],
            forall|c: int, d: int|
                0 <= c < d < mp.len() ==> comes_first(m, #[trigger] mp[c], #[trigger] mp[d]),
            mp.len() > 0 && i < left.len() ==> comes_first(m, mp.last(), lp[i as int]),
            mp.len() > 0 && j < right.len() ==> comes_first(m, mp.last(), rp[j as int]),
            forall|a: int| 0 <= a < i ==> mp.contains(#[trigger] lp[a]),
            forall|b: int| 0 <= b < j ==> mp.contains(#[trigger] rp[b]),
        decreases left.len() - i + (right.len() - j),
    {
        let ghost before = merged@;
        let ghost placed = mp;
        let from_left = j >= right.len() || (i < left.len() && left[i].sorts_before_or_with(
            &right[j],
        ));
        let x = if from_left {
            left[i]
        } else {
            right[j]
        };
        let ghost place = if from_left {
            lp[i as int]
        } else {
            rp[j as int]
        };
        merged.push(x);
        proof {
            mp = mp.push(place);
            assert forall|a: int, b: int| 0 <= a < b < merged@.len() implies (
            #[trigger] merged@[a]).key_le(#[trigger] merged@[b]) by {
                if b < before.len() {
                    assert(before[a].key_le(before[b]));
                } else if a < before.len() - 1 {
                    assert(before[a].key_le(before[before.len() - 1]));
                }
            }
            let (taken_left, taken_right) = (left@.take(i as int), right@.take(j as int));
            vstd::seq_lib::to_multiset_build(before, x);
            vstd::seq_lib::lemma_multiset_commutative(taken_left, taken_right);
            if from_left {
                assert(left@.take(i + 1) =~= taken_left.push(x));
                vstd::seq_lib::to_multiset_build(taken_left, x);
                vstd::seq_lib::lemma_multiset_commutative(taken_left.push(x), taken_right);
                assert(merged@.to_multiset() =~= (left@.take(i + 1) + taken_right).to_multiset());
                if i + 1 < left.len() {
                    assert(left@[i as int].key_le(left@[i + 1]));
                    assert(comes_first(m, lp[i as int], lp[i + 1]));
                }
                if j < right.len() {
                    assert(left@[i as int] == m[lp[i as int]]);
                    assert(right@[j as int] == m[rp[j as int]]);
                    assert(comes_first(m, place, rp[j as int]));
                }
            } else {
                assert(right@.take(j + 1) =~= taken_right.push(x));
                vstd::seq_lib::to_multiset_build(taken_right, x);
                vstd::seq_lib::lemma_multiset_commutative(taken_left, taken_right.push(x));
                assert(merged@.to_multiset() =~= (taken_left + right@.take(j + 1)).to_multiset());
                if j + 1 < right.len() {
                    assert(right@[j as int].key_le(right@[j + 1]));
                    assert(comes_first(m, rp[j as int], rp[j + 1]));
                }
                if i < left.len() {
                    assert(left@[i as int] == m[lp[i as int]]);
                    assert(right@[j as int] == m[rp[j as int]]);
                    assert(comes_first(m, place, lp[i as int]));
                }
            }
            assert forall|c: int, d: int| 0 <= c < d < mp.len() implies comes_first(
                m,
                #[trigger] mp[c],
                #[trigger] mp[d],
            ) by {
                if d < placed.len() {
                    assert(comes_first(m, placed[c], placed[d]));
                } else if c < placed.len() - 1 {
                    assert(comes_first(m, placed[c], placed[placed.len() - 1]));
                    lemma_comes_first_transitive(m, placed[c], placed.last(), place);
                }
            }
            assert forall|a: int| 0 <= a < (if from_left {
                i + 1
            } else {
                i as int
            }) implies mp.contains(#[trigger] lp[a]) by {
                if a < i {
                    let c = choose|c: int| 0 <= c < placed.len() && placed[c] == lp[a];
                    assert(mp[c] == lp[a]);
                } else {
                    assert(mp[placed.len() as int] == lp[a]);
                }
            }
            assert forall|b: int| 0 <= b < (if from_left {
                j as int
            } else {
                j + 1
            }) implies mp.contains(#[trigger] rp[b]) by {
                if b < j {
                    let c = choose|c: int| 0 <= c < placed.len() && placed[c] == rp[b];
                    assert(mp[c] == rp[b]);
                } else {
                    assert(mp[placed.len() as int] == rp[b]);
                }
            }
        }
        if from_left {
            i += 1;
        } else {
            j += 1;
        }
    }
    proof {
        assert(left@.take(left@.len() as int) =~= left@);
        assert(right@.take(right@.len() as int) =~= right@);
        vstd::seq_lib::lemma_multiset_commutative(left@, right@);
        assert forall|k: int| lo <= k < hi implies #[trigger] mp.contains(k) by {
            if k < mid {
                assert(lp.contains(k));
                let a = choose|a: int| 0 <= a < lp.len() && lp[a] == k;
                assert(mp.contains(lp[a]));
            } else {
                assert(rp.contains(k));
                let b = choose|b: int| 0 <= b < rp.len() && rp[b] == k;
                assert(mp.contains(rp[b]));
            }
        }
    }
    (merged, Ghost(mp))
}

/// Sorts the entries from `lo` up to `hi` into table order.
fn sort_range(entries: &Vec<MemoryTableEntry>, lo: usize, hi: usize) -> (r: (
    Vec<MemoryTableEntry>,
    Ghost<Seq<int>>,
))
    requires
        lo <= hi <= entries.len(),
    ensures
        sorted_by_key(r.0@),
        r.0@.to_multiset() == entries@.subrange(lo as int, hi as int).to_multiset(),
        arranged(r.0@, entries@, lo as int, hi as int, r.1@),
    decreases hi - lo,
{
    if hi - lo <= 1 {
        let mut sorted: Vec<MemoryTableEntry> = Vec::new();
        let ghost mut places: Seq<int> = Seq::empty();
        if lo < hi {
            sorted.push(entries[lo]);
            proof {
                places = places.push(lo as int);
                assert(places[0] == lo);
            }
        }
        proof {
            assert(sorted@ =~= entries@.subrange(lo as int, hi as int));
        }
        (sorted, Ghost(places))
    } else {
        let mid = lo + (hi - lo) / 2;
        let (left, Ghost(lp)) = sort_range(entries, lo, mid);
        let (right, Ghost(rp)) = sort_range(entries, mid, hi);
        proof {
            assert(entries@.subrange(lo as int, hi as int) =~= entries@.subrange(
                lo as int,
                mid as int,
            ) + entries@.subrange(mid as int, hi as int));
            vstd::seq_lib::lemma_multiset_commutative(
                entries@.subrange(lo as int, mid as int),
                entries@.subrange(mid as int, hi as int),
            );
        }
        merge(
            &left,
            &right,
            Ghost(entries@),
            Ghost(lo as int),
            Ghost(mid as int),
            Ghost(hi as int),
            Ghost(lp),
            Ghost(rp),
        )
    }
}

/// Sorts `entries` into table order, keeping every entry, each as often as it
/// occurs in `entries`, and those of the same key in the order in which they
/// stand in `entries`.
pub fn sort_entries(entries: &Vec<MemoryTableEntry>) -> (sorted: Vec<MemoryTableEntry>)
    ensures
        sorted_by_key(sorted@),
        sorted@.to_multiset() == entries@.to_multiset(),
        is_stable_sort(sorted@, entries@),
{
    proof {
        assert(entries@.subrange(0, entries@.len() as int) =~= entries@);
    }
    let (sorted, Ghost(places)) = sort_range(entries, 0, entries.len());
    proof {
        assert(arranged(sorted@, entries@, 0, entries@.len() as int, places));
    }
    sorted
}

/// The `end_eid` of an access that no later access to its location follows.
pub const END_EID_NEVER: u32 = 0xffff_ffff;

/// A memory access together with the execution id of the next access to the
/// same location.
#[derive(Clone, Copy, Debug, PartialEq, Eq, Structural)]
pub struct MemoryWritingEntry {
    pub entry: MemoryTableEntry,
    pub end_eid: u32,
}

/// The accesses of a table, without their `end_eid`.
pub open spec fn accesses(rows: Seq<MemoryWritingEntry>) -> Seq<MemoryTableEntry> {
    rows.map_values(|row: MemoryWritingEntry| row.entry)
}

/// Every row ends where the next row of its location starts; the last row of
/// a location never ends.
pub open spec fn chained(rows: Seq<MemoryWritingEntry>) -> bool {
    forall|i: int| 0 <= i < rows.len() ==> rows[i].end_eid == #[trigger] next_eid(rows, i)
}

/// Where row `i` of `rows` ends: at the execution id of the row after it, if
/// that is of the same location.
pub open spec fn next_eid(rows: Seq<MemoryWritingEntry>, i: int) -> u32 {
    if i + 1 < rows.len() && rows[i].entry.same_location(rows[i + 1].entry) {
        rows[i + 1].entry.eid
    } else {
        END_EID_NEVER
    }
}

pub open spec fn well_formed(rows: Seq<MemoryWritingEntry>) -> bool {
    sorted_by_key(accesses(rows)) && chained(rows)
}

/// The initialization row that the access `e` calls for: the value that the
/// image gives for the location, or zero where it gives none.
pub open spec fn init_row(image: Seq<InitMemoryTableEntry>, e: MemoryTableEntry)
    -> MemoryTableEntry {
    MemoryTableEntry {
        eid: 0,
        emid: 0,
        offset: e.offset,
        ltype: e.ltype,
        atype: AccessType::Init,
        vtype: e.vtype,
        is_mutable: e.is_mutable,
        value: match lookup(image, e.ltype, e.offset) {
            Some(value) => value,
            None => 0,
        },
    }
}

/// Some write to the location of `events[i]` happens before `events[i]`.
pub open spec fn written_before(events: Seq<MemoryTableEntry>, i: int) -> bool {
    exists|j: int|
        0 <= j < events.len() && is_earlier_write(#[trigger] events[j], events[i])
}

pub open spec fn is_earlier_write(w: MemoryTableEntry, e: MemoryTableEntry) -> bool {
    w.atype == AccessType::Write && w.same_location(e) && w.precedes(e)
}

/// `events[i]` reads a heap cell or a global that the image does not
/// initialize and that nothing has written yet.
pub open spec fn lacks_init_value(
    image: Seq<InitMemoryTableEntry>,
    events: Seq<MemoryTableEntry>,
    i: int,
) -> bool {
    &&& events[i].ltype.is_initialized_from_image()
    &&& events[i].atype == AccessType::Read
    &&& lookup(image, events[i].ltype, events[i].offset) is None
    &&& !written_before(events, i)
}

/// `events[i]` is the first event that lacks an initial value.
pub open spec fn is_first_lacking(
    image: Seq<InitMemoryTableEntry>,
    events: Seq<MemoryTableEntry>,
    i: int,
) -> bool {
    &&& 0 <= i < events.len()
    &&& lacks_init_value(image, events, i)
    &&& forall|j: int| 0 <= j < i ==> !#[trigger] lacks_init_value(image, events, j)
}

/// Why no memory table can be built from `events`, if none can: the first of
/// them that lacks an initial value.
pub open spec fn missing_init_error(
    image: Seq<InitMemoryTableEntry>,
    events: Seq<MemoryTableEntry>,
) -> Option<TraceError> {
    if exists|i: int| is_first_lacking(image, events, i) {
        let i = choose|i: int| is_first_lacking(image, events, i);
        Some(TraceError::MissingInitValue { ltype: events[i].ltype, offset: events[i].offset })
    } else {
        None
    }
}

/// `x` is the initialization row of one of the first `n` events.
pub open spec fn synthesized_among(
    image: Seq<InitMemoryTableEntry>,
    events: Seq<MemoryTableEntry>,
    n: int,
    x: MemoryTableEntry,
) -> bool {
    exists|j: int|
        0 <= j < n && j < events.len() && calls_for(image, #[trigger] events[j], x)
}

pub open spec fn calls_for(
    image: Seq<InitMemoryTableEntry>,
    e: MemoryTableEntry,
    x: MemoryTableEntry,
) -> bool {
    e.ltype.is_initialized_from_image() && x == init_row(image, e)
}

/// `x` is the initialization row of some event.
pub open spec fn synthesized(
    image: Seq<InitMemoryTableEntry>,
    events: Seq<MemoryTableEntry>,
    x: MemoryTableEntry,
) -> bool {
    synthesized_among(image, events, events.len() as int, x)
}

/// How often `x` occurs in the table built from `events`: as often as among
/// the events, and once more if it is the initialization row of one of them.
pub open spec fn expected_count(
    image: Seq<InitMemoryTableEntry>,
    events: Seq<MemoryTableEntry>,
    x: MemoryTableEntry,
) -> nat {
    events.to_multiset().count(x) + if synthesized(image, events, x) {
        1nat
    } else {
        0nat
    }
}

/// The initialization rows that the first `n` events call for, each once,
/// in the order in which the events first call for them.
pub open spec fn inits_of(
    image: Seq<InitMemoryTableEntry>,
    events: Seq<MemoryTableEntry>,
    n: int,
) -> Seq<MemoryTableEntry>
    decreases n,
{
    if n <= 0 || n > events.len() {
        Seq::empty()
    } else {
        let before = inits_of(image, events, n - 1);
        let init = init_row(image, events[n - 1]);
        if events[n - 1].ltype.is_initialized_from_image() && !before.contains(init) {
            before.push(init)
        } else {
            before
        }
    }
}

/// The rows that the table of `events` is made of, before they are sorted:
/// the events, then the initialization rows that they call for.
pub open spec fn unsorted(image: Seq<InitMemoryTableEntry>, events: Seq<MemoryTableEntry>)
    -> Seq<MemoryTableEntry> {
    events + inits_of(image, events, events.len() as int)
}

/// `rows` is the memory table of `events` over `image`: the events and the
/// initialization rows they call for, sorted into table order, rows of the
/// same key in the order of `unsorted`, and chained.
pub open spec fn is_table_of(
    rows: Seq<MemoryWritingEntry>,
    image: Seq<InitMemoryTableEntry>,
    events: Seq<MemoryTableEntry>,
) -> bool {
    &&& well_formed(rows)
    &&& forall|x: MemoryTableEntry|
        #[trigger] accesses(rows).to_multiset().count(x) == expected_count(image, events, x)
    &&& is_stable_sort(accesses(rows), unsorted(image, events))
}

/// Whether `w` is a write at the moment `at` to the location of key `key`.
pub open spec fn is_write_at(w: MemoryTableEntry, key: u64, at: (u32, u32)) -> bool {
    w.atype == AccessType::Write && spec_location_key(w.ltype, w.offset) == key && w.moment()
        == at
}

/// Whether `earliest` holds, for every location that the first `n` of
/// `events` write to, the moment of the earliest of these writes.
pub open spec fn holds_earliest_writes(
    earliest: Map<u64, (u32, u32)>,
    events: Seq<MemoryTableEntry>,
    n: int,
) -> bool {
    &&& forall|key: u64| #[trigger]
        earliest.contains_key(key) ==> exists|j: int|
            0 <= j < n && is_write_at(#[trigger] events[j], key, earliest[key])
    &&& forall|j: int|
        0 <= j < n && (#[trigger] events[j]).atype == AccessType::Write ==> {
            let key = spec_location_key(events[j].ltype, events[j].offset);
            earliest.contains_key(key) && !earlier(events[j].moment(), earliest[key])
        }
}

/// The moment of the earliest write to each location.
fn earliest_writes(events: &Vec<MemoryTableEntry>) -> (earliest: HashMap<u64, (u32, u32)>)
    ensures
        holds_earliest_writes(earliest@, events@, events@.len() as int),
{
    let mut earliest: HashMap<u64, (u32, u32)> = HashMap::new();
    let mut i: usize = 0;
    while i < events.len()
        invariant
            i <= events.len(),
            holds_earliest_writes(earliest@, events@, i as int),
        decreases events.len() - i,
    {
        let e = events[i];
        let ghost before = earliest@;
        if e.atype == AccessType::Write {
            let key = location_key(e.ltype, e.offset);
            let known = match earliest.get(&key) {
                Some(at) => !(e.eid < at.0 || (e.eid == at.0 && e.emid < at.1)),
                None => false,
            };
            if !known {
                earliest.insert(key, (e.eid, e.emid));
            }
        }
        proof {
            assert forall|key: u64| #[trigger] earliest@.contains_key(key) implies exists|j: int|
                0 <= j < i + 1 && is_write_at(#[trigger] events@[j], key, earliest@[key]) by {
                if before.contains_key(key) && before[key] == earliest@[key] {
                    let j = choose|j: int|
                        0 <= j < i && is_write_at(#[trigger] events@[j], key, before[key]);
                    assert(is_write_at(events@[j], key, earliest@[key]));
                } else {
                    assert(is_write_at(events@[i as int], key, earliest@[key]));
                }
            }
        }
        i += 1;
    }
    earliest
}

/// The earliest writes tell which accesses have a write before them.
proof fn lemma_written_before(
    earliest: Map<u64, (u32, u32)>,
    events: Seq<MemoryTableEntry>,
    i: int,
)
    requires
        holds_earliest_writes(earliest, events, events.len() as int),
        0 <= i < events.len(),
    ensures
        written_before(events, i) == {
            let key = spec_location_key(events[i].ltype, events[i].offset);
            earliest.contains_key(key) && earlier(earliest[key], events[i].moment())
        },
{
    let e = events[i];
    let key = spec_location_key(e.ltype, e.offset);
    if written_before(events, i) {
        let j = choose|j: int| 0 <= j < events.len() && is_earlier_write(#[trigger] events[j], e);
        assert(events[j].atype == AccessType::Write);
    }
    if earliest.contains_key(key) && earlier(earliest[key], e.moment()) {
        let j = choose|j: int|
            0 <= j < events.len() && is_write_at(#[trigger] events[j], key, earliest[key]);
        lemma_location_key_injective(events[j].ltype, events[j].offset, e.ltype, e.offset);
        assert(is_earlier_write(events[j], e));
    }
}

/// One number for each initialization row of one image: location, type and
/// mutability. The value needs no place, the image gives it for the location.
pub open spec fn spec_init_key(x: MemoryTableEntry) -> u64 {
    (spec_location_key(x.ltype, x.offset) * 4 + (if x.vtype == VarType::I32 {
        2int
    } else {
        0int
    }) + (if x.is_mutable {
        1int
    } else {
        0int
    })) as u64
}

#[verifier::when_used_as_spec(spec_init_key)]
fn init_key(x: MemoryTableEntry) -> (key: u64)
    ensures
        key == spec_init_key(x),
{
    let vtype: u64 = match x.vtype {
        VarType::I32 => 2,
        VarType::I64 => 0,
    };
    let mutable: u64 = if x.is_mutable {
        1
    } else {
        0
    };
    location_key(x.ltype, x.offset) * 4 + vtype + mutable
}

/// Initialization rows over one image with the same key are the same row.
proof fn lemma_init_key_injective(
    image: Seq<InitMemoryTableEntry>,
    a: MemoryTableEntry,
    b: MemoryTableEntry,
)
    requires
        spec_init_key(init_row(image, a)) == spec_init_key(init_row(image, b)),
    ensures
        init_row(image, a) == init_row(image, b),
{
    let (x, y) = (init_row(image, a), init_row(image, b));
    assert(spec_location_key(x.ltype, x.offset) == spec_location_key(y.ltype, y.offset));
    lemma_location_key_injective(x.ltype, x.offset, y.ltype, y.offset);
}

/// Whether `inits` holds the initialization rows of the first `n` events,
/// each once.
pub open spec fn holds_inits(
    inits: Seq<MemoryTableEntry>,
    image: Seq<InitMemoryTableEntry>,
    events: Seq<MemoryTableEntry>,
    n: int,
) -> bool {
    &&& inits.no_duplicates()
    &&& forall|x: MemoryTableEntry| inits.contains(x) <==> synthesized_among(image, events, n, x)
}

/// Whether `seen` holds the keys of the rows `inits`.
pub open spec fn holds_keys(seen: Set<u64>, inits: Seq<MemoryTableEntry>) -> bool {
    &&& forall|a: int| 0 <= a < inits.len() ==> seen.contains(spec_init_key(#[trigger] inits[a]))
    &&& forall|key: u64| #[trigger]
        seen.contains(key) ==> exists|a: int|
            0 <= a < inits.len() && spec_init_key(#[trigger] inits[a]) == key
}

/// A key that was seen belongs to the row it was made for.
proof fn lemma_seen_is_held(
    seen: Set<u64>,
    inits: Seq<MemoryTableEntry>,
    image: Seq<InitMemoryTableEntry>,
    events: Seq<MemoryTableEntry>,
    i: int,
)
    requires
        0 <= i < events.len(),
        holds_inits(inits, image, events, i),
        holds_keys(seen, inits),
    ensures
        seen.contains(spec_init_key(init_row(image, events[i]))) == inits.contains(
            init_row(image, events[i]),
        ),
{
    let init = init_row(image, events[i]);
    if seen.contains(spec_init_key(init)) {
        let a = choose|a: int|
            0 <= a < inits.len() && spec_init_key(#[trigger] inits[a]) == spec_init_key(init);
        assert(inits.contains(inits[a]));
        let j = choose|j: int|
            0 <= j < i && j < events.len() && calls_for(image, #[trigger] events[j], inits[a]);
        lemma_init_key_injective(image, events[j], events[i]);
    }
    if inits.contains(init) {
        let a = choose|a: int| 0 <= a < inits.len() && inits[a] == init;
        assert(seen.contains(spec_init_key(inits[a])));
    }
}

/// What event `i` does to the initialization rows of the events before it:
/// it adds its own, if it calls for one that is not among them.
proof fn lemma_inits_grow(
    inits: Seq<MemoryTableEntry>,
    image: Seq<InitMemoryTableEntry>,
    events: Seq<MemoryTableEntry>,
    i: int,
)
    requires
        0 <= i < events.len(),
        holds_inits(inits, image, events, i),
    ensures
        ({
            let init = init_row(image, events[i]);
            holds_inits(
                if events[i].ltype.is_initialized_from_image() && !inits.contains(init) {
                    inits.push(init)
                } else {
                    inits
                },
                image,
                events,
                i + 1,
            )
        }),
{
    let init = init_row(image, events[i]);
    let grows = events[i].ltype.is_initialized_from_image() && !inits.contains(init);
    let next = if grows {
        inits.push(init)
    } else {
        inits
    };
    assert forall|x: MemoryTableEntry|
        next.contains(x) <==> synthesized_among(image, events, i + 1, x) by {
        if synthesized_among(image, events, i + 1, x) {
            let j = choose|j: int|
                0 <= j < i + 1 && j < events.len() && calls_for(image, #[trigger] events[j], x);
            if j < i {
                assert(synthesized_among(image, events, i, x));
            }
            if inits.contains(x) {
                let k = choose|k: int| 0 <= k < inits.len() && inits[k] == x;
                assert(next[k] == x);
            } else {
                assert(next[inits.len() as int] == x);
            }
        }
        if next.contains(x) {
            let k = choose|k: int| 0 <= k < next.len() && next[k] == x;
            if k < inits.len() {
                assert(inits.contains(x));
                let j = choose|j: int|
                    0 <= j < i && j < events.len() && calls_for(image, #[trigger] events[j], x);
                assert(calls_for(image, events[j], x));
            } else {
                assert(calls_for(image, events[i], x));
            }
        }
    }
}

/// The initialization rows that `events` call for, each once, in the order
/// in which the events first call for them.
fn synthesize_inits(events: &Vec<MemoryTableEntry>, image: &InitMemoryTable) -> (r: Result<
    Vec<MemoryTableEntry>,
    TraceError,
>)
    ensures
        match r {
            Ok(inits) => {
                &&& forall|i: int|
                    0 <= i < events.len() ==> !#[trigger] lacks_init_value(image@, events@, i)
                &&& holds_inits(inits@, image@, events@, events@.len() as int)
                &&& inits@ == inits_of(image@, events@, events@.len() as int)
            },
            Err(e) => Some(e) == missing_init_error(image@, events@),
        },
{
    let earliest = earliest_writes(events);
    let mut inits: Vec<MemoryTableEntry> = Vec::new();
    let mut seen: HashSet<u64> = HashSet::new();
    let mut i: usize = 0;
    while i < events.len()
        invariant
            i <= events.len(),
            holds_earliest_writes(earliest@, events@, events@.len() as int),
            holds_inits(inits@, image@, events@, i as int),
            inits@ == inits_of(image@, events@, i as int),
            holds_keys(seen@, inits@),
            forall|j: int| 0 <= j < i ==> !#[trigger] lacks_init_value(image@, events@, j),
        decreases events.len() - i,
    {
        let e = events[i];
        proof {
            lemma_written_before(earliest@, events@, i as int);
            lemma_seen_is_held(seen@, inits@, image@, events@, i as int);
            lemma_inits_grow(inits@, image@, events@, i as int);
        }
        if e.ltype == LocationType::Heap || e.ltype == LocationType::Global {
            let value = match image.try_find(e.ltype, e.offset) {
                Some(value) => value,
                None => {
                    let written = match earliest.get(&location_key(e.ltype, e.offset)) {
                        Some(at) => at.0 < e.eid || (at.0 == e.eid && at.1 < e.emid),
                        None => false,
                    };
                    if e.atype == AccessType::Read && !written {
                        proof {
                            lemma_first_lacking(image@, events@, i as int);
                        }
                        return Err(
                            TraceError::MissingInitValue { ltype: e.ltype, offset: e.offset },
                        );
                    }
                    0
                },
            };
            let init = MemoryTableEntry {
                eid: 0,
                emid: 0,
                offset: e.offset,
                ltype: e.ltype,
                atype: AccessType::Init,
                vtype: e.vtype,
                is_mutable: e.is_mutable,
                value,
            };
            assert(init == init_row(image@, e));
            let ghost held = inits@;
            let ghost keys = seen@;
            if seen.insert(init_key(init)) {
                inits.push(init);
                proof {
                    assert(inits@[held.len() as int] == init);
                    assert forall|key: u64| #[trigger] seen@.contains(key) implies exists|a: int|
                        0 <= a < inits@.len() && spec_init_key(#[trigger] inits@[a]) == key by {
                        if keys.contains(key) {
                            let a = choose|a: int|
                                0 <= a < held.len() && spec_init_key(#[trigger] held[a]) == key;
                            assert(spec_init_key(inits@[a]) == key);
                        } else {
                            assert(spec_init_key(inits@[held.len() as int]) == key);
                        }
                    }
                }
            }
        }
        i += 1;
    }
    Ok(inits)
}

/// The first event that lacks an initial value is the one that the error
/// names.
proof fn lemma_first_lacking(
    image: Seq<InitMemoryTableEntry>,
    events: Seq<MemoryTableEntry>,
    i: int,
)
    requires
        is_first_lacking(image, events, i),
    ensures
        missing_init_error(image, events) == Some(
            TraceError::MissingInitValue { ltype: events[i].ltype, offset: events[i].offset },
        ),
{
    let c = choose|c: int| is_first_lacking(image, events, c);
    if c < i {
        assert(!lacks_init_value(image, events, c));
    }
    if i < c {
        assert(!lacks_init_value(image, events, i));
    }
}

/// Gives each access the execution id of the access after it, if that is to
/// the same location.
fn chain(sorted: &Vec<MemoryTableEntry>) -> (rows: Vec<MemoryWritingEntry>)
    ensures
        accesses(rows@) == sorted@,
        chained(rows@),
{
    let mut rows: Vec<MemoryWritingEntry> = Vec::new();
    let mut k: usize = 0;
    while k < sorted.len()
        invariant
            k <= sorted.len(),
            rows@.len() == k,
            forall|a: int| 0 <= a < k ==> (#[trigger] rows@[a]).entry == sorted@[a],
            forall|a: int|
                0 <= a < k ==> (#[trigger] rows@[a]).end_eid == (if a + 1 < sorted.len()
                    && sorted@[a].same_location(sorted@[a + 1]) {
                    sorted@[a + 1].eid
                } else {
                    END_EID_NEVER
                }),
        decreases sorted.len() - k,
    {
        let entry = sorted[k];
        let end_eid = if k + 1 < sorted.len() && entry.is_same_location(&sorted[k + 1]) {
            sorted[k + 1].eid
        } else {
            END_EID_NEVER
        };
        rows.push(MemoryWritingEntry { entry, end_eid });
        k += 1;
    }
    proof {
        assert(accesses(rows@) =~= sorted@);
        assert forall|a: int| 0 <= a < rows@.len() implies rows@[a].end_eid == #[trigger] next_eid(
            rows@,
            a,
        ) by {
            assert(rows@[a].entry == sorted@[a]);
            if a + 1 < rows@.len() {
                assert(rows@[a + 1].entry == sorted@[a + 1]);
            }
        }
    }
    rows
}

/// The memory table: every access of a trace and one initialization row for
/// each heap cell and global that the trace touches, in table order.
pub struct MTable {
    entries: Vec<MemoryWritingEntry>,
}

impl View for MTable {
    type V = Seq<MemoryWritingEntry>;

    closed spec fn view(&self) -> Seq<MemoryWritingEntry> {
        self.entries@
    }
}

impl MTable {
    #[verifier::type_invariant]
    spec fn inv(self) -> bool {
        well_formed(self.entries@)
    }

    pub fn entries(&self) -> (entries: &Vec<MemoryWritingEntry>)
        ensures
            entries@ == self@,
            well_formed(entries@),
    {
        proof {
            use_type_invariant(self);
        }
        &self.entries
    }

    /// Builds the table of `events` over the initial memory `image`.
    ///
    /// Fails on the first event, in the order given, that reads a heap cell or
    /// a global which has no initial value and no earlier write.
    pub fn new(events: Vec<MemoryTableEntry>, image: &InitMemoryTable) -> (r: Result<
        MTable,
        TraceError,
    >)
        ensures
            match r {
                Ok(table) => {
                    &&& forall|i: int|
                        0 <= i < events.len() ==> !lacks_init_value(image@, events@, i)
                    &&& is_table_of(table@, image@, events@)
                },
                Err(e) => Some(e) == missing_init_error(image@, events@),
            },
    {
        let mut inits = match synthesize_inits(&events, image) {
            Ok(inits) => inits,
            Err(e) => {
                return Err(e);
            },
        };
        let ghost init_rows = inits@;
        let mut merged = events;
        merged.append(&mut inits);
        let rows = chain(&sort_entries(&merged));
        proof {
            assert(merged@ == unsorted(image@, events@));
            vstd::seq_lib::lemma_multiset_commutative(events@, init_rows);
            init_rows.lemma_multiset_has_no_duplicates();
            assert forall|x: MemoryTableEntry|
                #[trigger] accesses(rows@).to_multiset().count(x) == expected_count(
                    image@,
                    events@,
                    x,
                ) by {
                vstd::seq_lib::to_multiset_contains(init_rows, x);
            }
        }
        Ok(MTable { entries: rows })
    }
}

/// Chain totality. In a well-formed table the rows of one location stand
/// together and ascend in execution id. A row that a later row of its
/// location follows ends at the execution id of the row right after it, which
/// is of the same location; a row that none follows never ends.
pub proof fn lemma_chain_totality(rows: Seq<MemoryWritingEntry>, i: int)
    requires
        well_formed(rows),
        0 <= i < rows.len(),
    ensures
        forall|j: int, k: int|
            i <= k <= j < rows.len() && rows[i].entry.same_location(rows[j].entry) ==> {
                &&& rows[i].entry.same_location(#[trigger] rows[k].entry)
                &&& rows[k].entry.eid <= (#[trigger] rows[j]).entry.eid
            },
        (exists|j: int| i < j < rows.len() && rows[i].entry.same_location(rows[j].entry)) ==> {
            &&& rows[i].entry.same_location(rows[i + 1].entry)
            &&& rows[i].end_eid == rows[i + 1].entry.eid
        },
        (forall|j: int| i < j < rows.len() ==> !rows[i].entry.same_location(rows[j].entry))
            ==> rows[i].end_eid == END_EID_NEVER,
{
    let s = accesses(rows);
    assert forall|j: int, k: int|
        i <= k <= j < rows.len() && rows[i].entry.same_location(rows[j].entry) implies {
        &&& rows[i].entry.same_location(#[trigger] rows[k].entry)
        &&& rows[k].entry.eid <= (#[trigger] rows[j]).entry.eid
    } by {
        assert(s[i] == rows[i].entry && s[k] == rows[k].entry && s[j] == rows[j].entry);
        if i < k {
            assert(s[i].key_le(s[k]));
        }
        if k < j {
            assert(s[k].key_le(s[j]));
        }
    }
    assert(rows[i].end_eid == next_eid(rows, i));
    if exists|j: int| i < j < rows.len() && rows[i].entry.same_location(rows[j].entry) {
        let j = choose|j: int| i < j < rows.len() && rows[i].entry.same_location(rows[j].entry);
        assert(rows[i].entry.same_location(rows[i + 1].entry) && rows[i + 1].entry.eid
            <= rows[j].entry.eid);
    }
}

/// Only the last row of a location never ends. In a well-formed table whose
/// execution ids all lie below the one that stands for never, a row never
/// ends if and only if no later row is of its location.
pub proof fn lemma_only_last_row_never_ends(rows: Seq<MemoryWritingEntry>, i: int)
    requires
        well_formed(rows),
        0 <= i < rows.len(),
        forall|j: int| 0 <= j < rows.len() ==> (#[trigger] rows[j]).entry.eid < END_EID_NEVER,
    ensures
        rows[i].end_eid == END_EID_NEVER <==> forall|j: int|
            i < j < rows.len() ==> !rows[i].entry.same_location(#[trigger] rows[j].entry),
{
    lemma_chain_totality(rows, i);
    if exists|j: int| i < j < rows.len() && rows[i].entry.same_location(rows[j].entry) {
        assert(rows[i + 1].entry.eid < END_EID_NEVER);
    }
}

/// No two entries of `s` have the same key.
pub open spec fn strictly_sorted(s: Seq<MemoryTableEntry>) -> bool {
    forall|i: int, j: int| 0 <= i < j < s.len() ==> !(#[trigger] s[j]).key_le(#[trigger] s[i])
}

/// Table order leaves no choice where no two entries have the same key: two
/// sequences in table order with the same entries are the same sequence.
pub proof fn lemma_sorted_is_unique(a: Seq<MemoryTableEntry>, b: Seq<MemoryTableEntry>)
    requires
        sorted_by_key(a),
        sorted_by_key(b),
        strictly_sorted(a),
        a.to_multiset() == b.to_multiset(),
    ensures
        a == b,
    decreases a.len(),
{
    vstd::seq_lib::to_multiset_len(a);
    vstd::seq_lib::to_multiset_len(b);
    if a.len() > 0 {
        // The first entry of `b` is an entry of `a`, and no entry of `a` but
        // its first comes before all others.
        vstd::seq_lib::to_multiset_contains(a, b[0]);
        vstd::seq_lib::to_multiset_contains(b, b[0]);
        assert(b.contains(b[0]));
        let j = choose|j: int| 0 <= j < a.len() && a[j] == b[0];
        vstd::seq_lib::to_multiset_contains(a, a[0]);
        vstd::seq_lib::to_multiset_contains(b, a[0]);
        assert(a.contains(a[0]));
        let k = choose|k: int| 0 <= k < b.len() && b[k] == a[0];
        if k > 0 {
            assert(b[0].key_le(b[k]));
        }
        if j > 0 {
            assert(!a[j].key_le(a[0]));
        }
        assert(a[0] == b[0]);
        vstd::seq_lib::to_multiset_remove(a, 0);
        vstd::seq_lib::to_multiset_remove(b, 0);
        let (ra, rb) = (a.remove(0), b.remove(0));
        assert forall|x: int, y: int| 0 <= x < y < ra.len() implies (#[trigger] ra[x]).key_le(
            #[trigger] ra[y],
        ) && !ra[y].key_le(ra[x]) by {
            assert(ra[x] == a[x + 1] && ra[y] == a[y + 1]);
        }
        assert forall|x: int, y: int| 0 <= x < y < rb.len() implies (#[trigger] rb[x]).key_le(
            #[trigger] rb[y],
        ) by {
            assert(rb[x] == b[x + 1] && rb[y] == b[y + 1]);
        }
        lemma_sorted_is_unique(ra, rb);
        assert(a =~= seq![a[0]] + ra);
        assert(b =~= seq![b[0]] + rb);
    } else {
        assert(a =~= b);
    }
}

/// No place comes before itself, and of two places at most one comes before
/// the other.
proof fn lemma_comes_first_is_strict(m: Seq<MemoryTableEntry>, a: int, b: int)
    ensures
        !comes_first(m, a, a),
        !(comes_first(m, a, b) && comes_first(m, b, a)),
{
}

/// There is one way only to put places into table order.
proof fn lemma_places_are_determined(m: Seq<MemoryTableEntry>, p: Seq<int>, q: Seq<int>)
    requires
        forall|i: int, j: int|
            0 <= i < j < p.len() ==> comes_first(m, #[trigger] p[i], #[trigger] p[j]),
        forall|i: int, j: int|
            0 <= i < j < q.len() ==> comes_first(m, #[trigger] q[i], #[trigger] q[j]),
        forall|k: int| p.contains(k) <==> q.contains(k),
    ensures
        p == q,
    decreases p.len(),
{
    if p.len() == 0 {
        if q.len() > 0 {
            assert(q.contains(q[0]));
        }
        assert(p =~= q);
    } else {
        assert(p.contains(p[0]));
        assert(q.contains(p[0]));
        let b = choose|b: int| 0 <= b < q.len() && q[b] == p[0];
        assert(q.contains(q[0]));
        assert(p.contains(q[0]));
        let a = choose|a: int| 0 <= a < p.len() && p[a] == q[0];
        lemma_comes_first_is_strict(m, p[0], q[0]);
        if a > 0 {
            assert(comes_first(m, p[0], p[a]));
        }
        if b > 0 {
            assert(comes_first(m, q[0], q[b]));
        }
        assert(p[0] == q[0]);
        let (pt, qt) = (p.drop_first(), q.drop_first());
        assert forall|i: int, j: int| 0 <= i < j < pt.len() implies comes_first(
            m,
            #[trigger] pt[i],
            #[trigger] pt[j],
        ) by {
            assert(pt[i] == p[i + 1] && pt[j] == p[j + 1]);
        }
        assert forall|i: int, j: int| 0 <= i < j < qt.len() implies comes_first(
            m,
            #[trigger] qt[i],
            #[trigger] qt[j],
        ) by {
            assert(qt[i] == q[i + 1] && qt[j] == q[j + 1]);
        }
        assert forall|k: int| pt.contains(k) <==> qt.contains(k) by {
            lemma_comes_first_is_strict(m, k, k);
            if pt.contains(k) {
                let i = choose|i: int| 0 <= i < pt.len() && pt[i] == k;
                assert(p[i + 1] == k);
                assert(comes_first(m, p[0], p[i + 1]));
                assert(p.contains(k));
                let j = choose|j: int| 0 <= j < q.len() && q[j] == k;
                assert(j > 0);
                assert(qt[j - 1] == k);
            }
            if qt.contains(k) {
                let j = choose|j: int| 0 <= j < qt.len() && qt[j] == k;
                assert(q[j + 1] == k);
                assert(comes_first(m, q[0], q[j + 1]));
                assert(q.contains(k));
                let i = choose|i: int| 0 <= i < p.len() && p[i] == k;
                assert(i > 0);
                assert(pt[i - 1] == k);
            }
        }
        lemma_places_are_determined(m, pt, qt);
        assert(p =~= seq![p[0]] + pt);
        assert(q =~= seq![q[0]] + qt);
    }
}

/// A sequence has one stable sort only.
pub proof fn lemma_stable_sort_is_determined(
    a: Seq<MemoryTableEntry>,
    b: Seq<MemoryTableEntry>,
    m: Seq<MemoryTableEntry>,
)
    requires
        is_stable_sort(a, m),
        is_stable_sort(b, m),
    ensures
        a == b,
{
    let n = m.len() as int;
    let p = choose|p: Seq<int>| #[trigger] arranged(a, m, 0, n, p);
    let q = choose|q: Seq<int>| #[trigger] arranged(b, m, 0, n, q);
    assert forall|k: int| p.contains(k) <==> q.contains(k) by {
        if p.contains(k) {
            let i = choose|i: int| 0 <= i < p.len() && p[i] == k;
            assert(0 <= p[i] < n);
            assert(q.contains(k));
        }
        if q.contains(k) {
            let i = choose|i: int| 0 <= i < q.len() && q[i] == k;
            assert(0 <= q[i] < n);
            assert(p.contains(k));
        }
    }
    lemma_places_are_determined(m, p, q);
    assert forall|i: int| 0 <= i < a.len() implies a[i] == b[i] by {
        assert(a[i] == m[p[i]]);
        assert(b[i] == m[q[i]]);
    }
    assert(a =~= b);
}

/// The contract of the memory table determines the table: two memory tables
/// of the same events over the same image are the same table, row for row.
pub proof fn lemma_table_is_determined(
    a: Seq<MemoryWritingEntry>,
    b: Seq<MemoryWritingEntry>,
    image: Seq<InitMemoryTableEntry>,
    events: Seq<MemoryTableEntry>,
)
    requires
        is_table_of(a, image, events),
        is_table_of(b, image, events),
    ensures
        a == b,
{
    let (x, y) = (accesses(a), accesses(b));
    lemma_stable_sort_is_determined(x, y, unsorted(image, events));
    assert(a.len() == x.len() && b.len() == y.len());
    assert forall|i: int| 0 <= i < a.len() implies a[i] == b[i] by {
        assert(x[i] == a[i].entry && y[i] == b[i].entry);
        assert(a[i].end_eid == next_eid(a, i));
        assert(b[i].end_eid == next_eid(b, i));
        if i + 1 < a.len() {
            assert(x[i + 1] == a[i + 1].entry && y[i + 1] == b[i + 1].entry);
        }
    }
    assert(a =~= b);
}

/// In the memory table of events whose execution ids all lie below the one
/// that stands for never, the last row of each location never ends, and no
/// other row does.
pub proof fn lemma_last_rows_never_end(
    rows: Seq<MemoryWritingEntry>,
    image: Seq<InitMemoryTableEntry>,
    events: Seq<MemoryTableEntry>,
    i: int,
)
    requires
        is_table_of(rows, image, events),
        forall|j: int| 0 <= j < events.len() ==> (#[trigger] events[j]).eid < END_EID_NEVER,
        0 <= i < rows.len(),
    ensures
        rows[i].end_eid == END_EID_NEVER <==> forall|j: int|
            i < j < rows.len() ==> !rows[i].entry.same_location(#[trigger] rows[j].entry),
{
    let s = accesses(rows);
    assert forall|j: int| 0 <= j < rows.len() implies (#[trigger] rows[j]).entry.eid
        < END_EID_NEVER by {
        let x = rows[j].entry;
        assert(s[j] == x);
        assert(s.contains(x));
        vstd::seq_lib::to_multiset_contains(s, x);
        vstd::seq_lib::to_multiset_contains(events, x);
        assert(s.to_multiset().count(x) == expected_count(image, events, x));
        if events.contains(x) {
            let k = choose|k: int| 0 <= k < events.len() && events[k] == x;
            assert(events[k].eid < END_EID_NEVER);
        } else {
            assert(synthesized(image, events, x));
        }
    }
    lemma_only_last_row_never_ends(rows, i);
}

/// The accesses of a trace in the order in which they happen: each after the
/// one before it, and none before the first step.
pub open spec fn chronological(events: Seq<MemoryTableEntry>) -> bool {
    &&& forall|i: int| 0 <= i < events.len() ==> (#[trigger] events[i]).eid >= 1
    &&& forall|i: int, j: int|
        0 <= i < j < events.len() ==> (#[trigger] events[i]).precedes(#[trigger] events[j])
}

/// In the table of chronological and consistent events no two rows have the
/// same key.
pub proof fn lemma_keys_are_distinct(
    rows: Seq<MemoryWritingEntry>,
    image: Seq<InitMemoryTableEntry>,
    events: Seq<MemoryTableEntry>,
)
    requires
        is_table_of(rows, image, events),
        chronological(events),
        consistent_events(events),
    ensures
        strictly_sorted(accesses(rows)),
{
    let s = accesses(rows);
    assert(events.no_duplicates()) by {
        assert forall|p: int, q: int| 0 <= p < events.len() && 0 <= q < events.len() && p
            != q implies events[p] != events[q] by {
            if p < q {
                assert(events[p].precedes(events[q]));
            } else {
                assert(events[q].precedes(events[p]));
            }
        }
    }
    events.lemma_multiset_has_no_duplicates();
    assert forall|i: int, j: int| 0 <= i < j < s.len() implies !(#[trigger] s[j]).key_le(
        #[trigger] s[i],
    ) by {
        let (x, y) = (s[i], s[j]);
        if y.key_le(x) {
            assert(x.key_le(y));
            assert(x.same_location(y) && x.eid == y.eid && x.emid == y.emid);
            assert(s.contains(x) && s.contains(y));
            vstd::seq_lib::to_multiset_contains(s, x);
            vstd::seq_lib::to_multiset_contains(s, y);
            vstd::seq_lib::to_multiset_contains(events, x);
            vstd::seq_lib::to_multiset_contains(events, y);
            assert(s.to_multiset().count(x) == expected_count(image, events, x));
            assert(s.to_multiset().count(y) == expected_count(image, events, y));
            if x.eid == 0 {
                // Both are initialization rows of one location.
                if events.contains(x) {
                    let p = choose|p: int| 0 <= p < events.len() && events[p] == x;
                    assert(events[p].eid >= 1);
                }
                if events.contains(y) {
                    let q = choose|q: int| 0 <= q < events.len() && events[q] == y;
                    assert(events[q].eid >= 1);
                }
                let p = choose|p: int|
                    0 <= p < events.len() && p < events.len() && calls_for(
                        image,
                        #[trigger] events[p],
                        x,
                    );
                let q = choose|q: int|
                    0 <= q < events.len() && q < events.len() && calls_for(
                        image,
                        #[trigger] events[q],
                        y,
                    );
                assert(events[p].same_location(events[q]));
                assert(x == y);
                lemma_twice(s, i, j);
            } else {
                // Both are accesses of the trace, at the same moment.
                let p = choose|p: int| 0 <= p < events.len() && events[p] == x;
                let q = choose|q: int| 0 <= q < events.len() && events[q] == y;
                if p < q {
                    assert(events[p].precedes(events[q]));
                } else if q < p {
                    assert(events[q].precedes(events[p]));
                } else {
                    lemma_twice(s, i, j);
                }
            }
        }
    }
}

/// Whether `x` is an access that a step made, and no row that was put
/// before the accesses of its location.
pub open spec fn is_operation(x: MemoryTableEntry) -> bool {
    x.atype != AccessType::Init
}

/// The test `is_operation`, as a value.
pub open spec fn operation() -> spec_fn(MemoryTableEntry) -> bool {
    |x: MemoryTableEntry| is_operation(x)
}

/// How many of `s` are accesses that a step made.
pub open spec fn operations(s: Seq<MemoryTableEntry>) -> nat
    decreases s.len(),
{
    if s.len() == 0 {
        0
    } else {
        operations(s.drop_last()) + if is_operation(s.last()) {
            1nat
        } else {
            0nat
        }
    }
}

/// How many of a sequence are accesses of steps depends on its entries, not
/// on their order.
pub proof fn lemma_operations_of_multiset(s: Seq<MemoryTableEntry>)
    ensures
        operations(s) == s.to_multiset().filter(operation()).len(),
    decreases s.len(),
{
    if s.len() == 0 {
        vstd::seq_lib::to_multiset_len(s);
        vstd::multiset::lemma_multiset_empty_len(s.to_multiset());
        assert(s.to_multiset().filter(operation()) =~= vstd::multiset::Multiset::empty());
    } else {
        let (p, a) = (s.drop_last(), s.last());
        assert(s =~= p.push(a));
        vstd::seq_lib::to_multiset_build(p, a);
        lemma_operations_of_multiset(p);
        let m = p.to_multiset();
        if is_operation(a) {
            assert(m.insert(a).filter(operation()) =~= m.filter(operation()).insert(a));
        } else {
            assert(m.insert(a).filter(operation()) =~= m.filter(operation()));
        }
    }
}

/// A memory table holds as many accesses of steps as the events it was built
/// from.
pub proof fn lemma_table_keeps_operations(
    rows: Seq<MemoryWritingEntry>,
    image: Seq<InitMemoryTableEntry>,
    events: Seq<MemoryTableEntry>,
)
    requires
        is_table_of(rows, image, events),
    ensures
        operations(accesses(rows)) == operations(events),
{
    let (t, e) = (accesses(rows).to_multiset(), events.to_multiset());
    assert(t.filter(operation()) =~= e.filter(operation())) by {
        assert forall|x: MemoryTableEntry|
            t.filter(operation()).count(x) == e.filter(operation()).count(x) by {
            assert(t.count(x) == expected_count(image, events, x));
            if is_operation(x) && synthesized(image, events, x) {
                let j = choose|j: int|
                    0 <= j < events.len() && j < events.len() && calls_for(
                        image,
                        #[trigger] events[j],
                        x,
                    );
                assert(x.atype == AccessType::Init);
            }
        }
    }
    lemma_operations_of_multiset(accesses(rows));
    lemma_operations_of_multiset(events);
}

/// An entry that stands at two places of a sequence occurs in it at least
/// twice.
proof fn lemma_twice(s: Seq<MemoryTableEntry>, a: int, b: int)
    requires
        0 <= a < b < s.len(),
        s[a] == s[b],
    ensures
        s.to_multiset().count(s[a]) >= 2,
{
    vstd::seq_lib::to_multiset_remove(s, b);
    let rest = s.remove(b);
    assert(rest[a] == s[a]);
    assert(rest.contains(s[a]));
    vstd::seq_lib::to_multiset_contains(rest, s[a]);
}

/// The accesses that a trace hands in: reads and writes only, and all
/// accesses to one location of one type and mutability.
pub open spec fn consistent_events(events: Seq<MemoryTableEntry>) -> bool {
    &&& forall|i: int| 0 <= i < events.len() ==> (#[trigger] events[i]).atype != AccessType::Init
    &&& forall|i: int, j: int|
        0 <= i < events.len() && 0 <= j < events.len() && (#[trigger] events[i]).same_location(
            #[trigger] events[j],
        ) ==> events[i].vtype == events[j].vtype && events[i].is_mutable == events[j].is_mutable
}

pub open spec fn is_init_at(row: MemoryWritingEntry, ltype: LocationType, offset: u32) -> bool {
    row.entry.atype == AccessType::Init && row.entry.ltype == ltype && row.entry.offset == offset
}

/// Init uniqueness. In the table of consistent events, every heap cell and
/// every global that has a row has exactly one initialization row.
pub proof fn lemma_init_unique(
    rows: Seq<MemoryWritingEntry>,
    image: Seq<InitMemoryTableEntry>,
    events: Seq<MemoryTableEntry>,
    r: int,
)
    requires
        is_table_of(rows, image, events),
        consistent_events(events),
        0 <= r < rows.len(),
        rows[r].entry.ltype.is_initialized_from_image(),
    ensures
        exists|i: int|
            0 <= i < rows.len() && is_init_at(
                #[trigger] rows[i],
                rows[r].entry.ltype,
                rows[r].entry.offset,
            ),
        forall|i: int, j: int|
            0 <= i < rows.len() && 0 <= j < rows.len() && is_init_at(
                #[trigger] rows[i],
                rows[r].entry.ltype,
                rows[r].entry.offset,
            ) && is_init_at(#[trigger] rows[j], rows[r].entry.ltype, rows[r].entry.offset) ==> i
                == j,
{
    let s = accesses(rows);
    let ltype = rows[r].entry.ltype;
    let offset = rows[r].entry.offset;
    // Some event touches the location.
    let x = s[r];
    assert(s.contains(x));
    vstd::seq_lib::to_multiset_contains(s, x);
    assert(s.to_multiset().count(x) == expected_count(image, events, x));
    vstd::seq_lib::to_multiset_contains(events, x);
    let n: int = if events.contains(x) {
        choose|n: int| 0 <= n < events.len() && events[n] == x
    } else {
        choose|n: int|
            0 <= n < events.len() && n < events.len() && calls_for(image, #[trigger] events[n], x)
    };
    let e = events[n];
    assert(e.ltype == ltype && e.offset == offset);
    let c = init_row(image, e);
    assert(calls_for(image, events[n], c));
    assert(synthesized(image, events, c));
    // The initialization row of that event occurs exactly once.
    vstd::seq_lib::to_multiset_contains(events, c);
    if events.contains(c) {
        let m = choose|m: int| 0 <= m < events.len() && events[m] == c;
        assert(events[m].atype != AccessType::Init);
    }
    assert(s.to_multiset().count(c) == expected_count(image, events, c));
    assert(s.to_multiset().count(c) == 1);
    vstd::seq_lib::to_multiset_contains(s, c);
    let w = choose|w: int| 0 <= w < s.len() && s[w] == c;
    assert(is_init_at(rows[w], ltype, offset));
    // Every initialization row of the location is that row.
    assert forall|i: int, j: int|
        0 <= i < rows.len() && 0 <= j < rows.len() && is_init_at(#[trigger] rows[i], ltype, offset)
            && is_init_at(#[trigger] rows[j], ltype, offset) implies i == j by {
        lemma_init_row_is(rows, image, events, i, e);
        lemma_init_row_is(rows, image, events, j, e);
        if i < j {
            lemma_twice(s, i, j);
        } else if j < i {
            lemma_twice(s, j, i);
        }
    }
}

/// An initialization row of the table of events that are reads and writes
/// stands before the first step and holds the value that the image gives for
/// its location, or zero where the image gives none.
pub proof fn lemma_init_row_holds_image_value(
    rows: Seq<MemoryWritingEntry>,
    image: Seq<InitMemoryTableEntry>,
    events: Seq<MemoryTableEntry>,
    i: int,
)
    requires
        is_table_of(rows, image, events),
        forall|j: int| 0 <= j < events.len() ==> (#[trigger] events[j]).atype != AccessType::Init,
        0 <= i < rows.len(),
        rows[i].entry.atype == AccessType::Init,
    ensures
        rows[i].entry.ltype.is_initialized_from_image(),
        rows[i].entry.eid == 0,
        rows[i].entry.emid == 0,
        rows[i].entry.value == match lookup(image, rows[i].entry.ltype, rows[i].entry.offset) {
            Some(value) => value,
            None => 0,
        },
{
    let s = accesses(rows);
    let x = s[i];
    assert(s.contains(x));
    vstd::seq_lib::to_multiset_contains(s, x);
    assert(s.to_multiset().count(x) == expected_count(image, events, x));
    vstd::seq_lib::to_multiset_contains(events, x);
    if events.contains(x) {
        let j = choose|j: int| 0 <= j < events.len() && events[j] == x;
        assert(events[j].atype != AccessType::Init);
    }
    let j = choose|j: int|
        0 <= j < events.len() && j < events.len() && calls_for(image, #[trigger] events[j], x);
    assert(x == init_row(image, events[j]));
}

/// An initialization row at the location of the event `e` is the
/// initialization row of `e`.
proof fn lemma_init_row_is(
    rows: Seq<MemoryWritingEntry>,
    image: Seq<InitMemoryTableEntry>,
    events: Seq<MemoryTableEntry>,
    i: int,
    e: MemoryTableEntry,
)
    requires
        is_table_of(rows, image, events),
        consistent_events(events),
        events.contains(e),
        0 <= i < rows.len(),
        is_init_at(rows[i], e.ltype, e.offset),
    ensures
        accesses(rows)[i] == init_row(image, e),
{
    let s = accesses(rows);
    let y = s[i];
    assert(s.contains(y));
    vstd::seq_lib::to_multiset_contains(s, y);
    assert(s.to_multiset().count(y) == expected_count(image, events, y));
    vstd::seq_lib::to_multiset_contains(events, y);
    if events.contains(y) {
        let m = choose|m: int| 0 <= m < events.len() && events[m] == y;
        assert(events[m].atype != AccessType::Init);
    }
    let m = choose|m: int|
        0 <= m < events.len() && m < events.len() && calls_for(image, #[trigger] events[m], y);
    let n = choose|n: int| 0 <= n < events.len() && events[n] == e;
    assert(events[m].same_location(events[n]));
}

} // verus!
