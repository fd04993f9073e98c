//! The memory table encoder: the location-ordered memory table with the
//! witnesses that let the proof check its order.

use crate::circuits::cell::{Cell, Region};
use crate::circuits::image_table::CellCopy;
use crate::encode::{pack, spec_pack, U256};
use crate::error::{TableKind, TraceError};
use crate::field::{invert_or_zero, is_inverse};
use crate::imtable::{lookup, InitMemoryTable, InitMemoryTableEntry};
use crate::circuits::etable::rest_mops;
use crate::etable::{lemma_memory_writing_ops, step_events, trace_events, EventTableEntry};
use crate::mtable::{
    accesses, is_operation, is_table_of, lemma_table_keeps_operations, next_eid, operations,
    well_formed, AccessType, LocationType, MTable, MemoryTableEntry, MemoryWritingEntry, VarType,
};
use std::collections::HashMap;
use vstd::prelude::*;

verus! {

broadcast use vstd::std_specs::hash::group_hash_axioms;

/// Rows of a row block of the memory table.
pub const MEMORY_TABLE_ENTRY_ROWS: usize = 4;

/// The row of a memory access for the lookup of the event table: the kind of
/// location and the width of the value in the top limb, then the two
/// execution ids, the offset, the value.
pub open spec fn spec_encode_memory_table_entry(
    eid: u32,
    end_eid: u32,
    offset: u32,
    ltype: LocationType,
    is_i32: bool,
    value: u64,
) -> U256 {
    U256 {
        l0: value,
        l1: offset as u64,
        l2: spec_pack(eid, end_eid),
        l3: (ltype.rank() * 2 + if is_i32 {
            1int
        } else {
            0int
        }) as u64,
    }
}

pub fn encode_memory_table_entry(
    eid: u32,
    end_eid: u32,
    offset: u32,
    ltype: LocationType,
    is_i32: bool,
    value: u64,
) -> (r: U256)
    ensures
        r == spec_encode_memory_table_entry(eid, end_eid, offset, ltype, is_i32, value),
{
    U256 {
        l0: value,
        l1: offset as u64,
        l2: pack(eid, end_eid),
        l3: ltype.index() * 2 + if is_i32 {
            1
        } else {
            0
        },
    }
}

/// The cells of one row block that the table alone determines.
#[derive(Clone, Copy, Debug, PartialEq, Eq, Structural)]
pub struct MemoryCells {
    pub enabled: bool,
    pub is_stack: bool,
    pub is_heap: bool,
    pub is_global: bool,
    pub is_mutable: bool,
    pub is_i32: bool,
    pub is_i64: bool,
    pub is_init: bool,
    /// The row initializes its location from the image.
    pub is_imtable_init: bool,
    /// For a row that initializes its location to zero without the image: how
    /// far the location lies behind the first that the image leaves to zero.
    pub zero_init_proof: u64,
    pub start_eid: u32,
    pub end_eid: u32,
    pub eid_diff: u32,
    /// The accesses of this row and of all rows after it that are no
    /// initializations.
    pub rest_mops: u64,
    pub offset: u32,
    pub value: u64,
    pub encode: U256,
    /// The next row is of the same kind of location.
    pub is_next_same_ltype: bool,
    /// The next row is of the same location.
    pub is_next_same_offset: bool,
    /// How far the offset of the next row lies behind the offset of this one,
    /// where both are of the same kind of location.
    pub offset_diff: u64,
}

/// The cells of one row block.
#[derive(Clone, Copy, Debug, PartialEq, Eq, Structural)]
pub struct MemoryRow {
    pub cells: MemoryCells,
    /// The inverse of `offset_diff` in the field, or zero where that is zero.
    pub offset_diff_inv: U256,
}

/// The rows from row `i` on that are accesses of steps, reads and writes,
/// and no initializations.
pub open spec fn rest_mops_from(rows: Seq<MemoryWritingEntry>, i: int) -> nat
    decreases rows.len() - i,
{
    if i < 0 || i >= rows.len() {
        0
    } else {
        rest_mops_from(rows, i + 1) + if rows[i].entry.atype == AccessType::Init {
            0nat
        } else {
            1nat
        }
    }
}

pub proof fn lemma_rest_mops_bounded(rows: Seq<MemoryWritingEntry>, i: int)
    requires
        0 <= i <= rows.len(),
    ensures
        rest_mops_from(rows, i) <= rows.len() - i,
    decreases rows.len() - i,
{
    if i < rows.len() {
        lemma_rest_mops_bounded(rows, i + 1);
    }
}

/// The count that the first row starts from is the number of rows that are
/// accesses of steps.
pub proof fn lemma_rest_mops_are_operations(rows: Seq<MemoryWritingEntry>, i: int)
    requires
        0 <= i <= rows.len(),
    ensures
        operations(accesses(rows).take(i)) + rest_mops_from(rows, i) == rest_mops_from(rows, 0),
    decreases i,
{
    let s = accesses(rows);
    if i > 0 {
        lemma_rest_mops_are_operations(rows, i - 1);
        assert(s.take(i).drop_last() =~= s.take(i - 1));
        assert(s.take(i).last() == rows[i - 1].entry);
    } else {
        assert(s.take(0).len() == 0);
    }
}

/// The rows that the steps from step `i` on write into the memory table are
/// the accesses that these steps make.
pub proof fn lemma_rest_mops_are_events(entries: Seq<EventTableEntry>, i: int)
    requires
        0 <= i <= entries.len(),
    ensures
        operations(trace_events(entries.take(i))) + rest_mops(entries, i) == rest_mops(entries, 0),
    decreases i,
{
    if i > 0 {
        lemma_rest_mops_are_events(entries, i - 1);
        assert(entries.take(i).drop_last() =~= entries.take(i - 1));
        assert(entries.take(i).last() == entries[i - 1]);
        lemma_memory_writing_ops(entries[i - 1]);
        lemma_operations_add(trace_events(entries.take(i - 1)), step_events(entries[i - 1]));
        lemma_all_operations(step_events(entries[i - 1]));
    } else {
        assert(entries.take(0).len() == 0);
    }
}

/// The accesses of steps among two sequences are those among the one and
/// those among the other.
proof fn lemma_operations_add(a: Seq<MemoryTableEntry>, b: Seq<MemoryTableEntry>)
    ensures
        operations(a + b) == operations(a) + operations(b),
    decreases b.len(),
{
    if b.len() == 0 {
        assert(a + b =~= a);
    } else {
        lemma_operations_add(a, b.drop_last());
        assert((a + b).drop_last() =~= a + b.drop_last());
        assert((a + b).last() == b.last());
    }
}

/// Where no entry is an initialization, all are accesses of steps.
proof fn lemma_all_operations(s: Seq<MemoryTableEntry>)
    requires
        forall|i: int| 0 <= i < s.len() ==> is_operation(#[trigger] s[i]),
    ensures
        operations(s) == s.len(),
    decreases s.len(),
{
    if s.len() > 0 {
        assert forall|i: int| 0 <= i < s.drop_last().len() implies is_operation(
            #[trigger] s.drop_last()[i],
        ) by {
            assert(s.drop_last()[i] == s[i]);
        }
        lemma_all_operations(s.drop_last());
    }
}

/// The two counts that are tied to each other agree: the memory table of a
/// trace starts from as many rows of steps as the event table has the steps
/// still to write.
pub proof fn lemma_counts_agree(
    rows: Seq<MemoryWritingEntry>,
    image: Seq<InitMemoryTableEntry>,
    entries: Seq<EventTableEntry>,
)
    requires
        is_table_of(rows, image, trace_events(entries)),
    ensures
        rest_mops_from(rows, 0) == rest_mops(entries, 0),
{
    lemma_rest_mops_are_operations(rows, rows.len() as int);
    assert(accesses(rows).take(rows.len() as int) =~= accesses(rows));
    lemma_table_keeps_operations(rows, image, trace_events(entries));
    lemma_rest_mops_are_events(entries, entries.len() as int);
    assert(entries.take(entries.len() as int) =~= entries);
}

/// Whether row `i` initializes its location to zero without the image.
pub open spec fn is_zero_init(
    rows: Seq<MemoryWritingEntry>,
    image: Seq<InitMemoryTableEntry>,
    i: int,
) -> bool {
    rows[i].entry.atype == AccessType::Init && lookup(
        image,
        rows[i].entry.ltype,
        rows[i].entry.offset,
    ) is None
}

/// Whether row `i` claims to lie in the part of memory that the image leaves
/// to zero, but lies before it.
pub open spec fn is_misplaced_zero_init(
    rows: Seq<MemoryWritingEntry>,
    image: Seq<InitMemoryTableEntry>,
    first_zero_offset: u32,
    i: int,
) -> bool {
    is_zero_init(rows, image, i) && rows[i].entry.offset < first_zero_offset
}

/// Row `i` is the first misplaced initialization to zero.
pub open spec fn is_first_misplaced(
    rows: Seq<MemoryWritingEntry>,
    image: Seq<InitMemoryTableEntry>,
    first_zero_offset: u32,
    i: int,
) -> bool {
    &&& 0 <= i < rows.len()
    &&& is_misplaced_zero_init(rows, image, first_zero_offset, i)
    &&& forall|j: int|
        0 <= j < i ==> !#[trigger] is_misplaced_zero_init(rows, image, first_zero_offset, j)
}

/// Why a memory table has no encoding of room for `capability` accesses, if
/// it has none: it is too long, or it initializes a location to zero which
/// the image should hold.
pub open spec fn memory_table_error(
    rows: Seq<MemoryWritingEntry>,
    image: Seq<InitMemoryTableEntry>,
    first_zero_offset: u32,
    capability: usize,
) -> Option<TraceError> {
    if rows.len() > capability {
        Some(
            TraceError::CapacityExceeded {
                table: TableKind::Memory,
                required: rows.len() as usize,
                capacity: capability,
            },
        )
    } else if exists|i: int| is_first_misplaced(rows, image, first_zero_offset, i) {
        let i = choose|i: int| is_first_misplaced(rows, image, first_zero_offset, i);
        Some(
            TraceError::MissingInitValue {
                ltype: rows[i].entry.ltype,
                offset: rows[i].entry.offset,
            },
        )
    } else {
        None
    }
}

/// The cells of row block `i` that the table determines.
pub open spec fn memory_cells(
    rows: Seq<MemoryWritingEntry>,
    image: Seq<InitMemoryTableEntry>,
    first_zero_offset: u32,
    i: int,
) -> MemoryCells {
    let row = rows[i];
    let e = row.entry;
    let same_ltype = i + 1 < rows.len() && rows[i + 1].entry.ltype == e.ltype;
    MemoryCells {
        enabled: true,
        is_stack: e.ltype == LocationType::Stack,
        is_heap: e.ltype == LocationType::Heap,
        is_global: e.ltype == LocationType::Global,
        is_mutable: e.is_mutable,
        is_i32: e.vtype == VarType::I32,
        is_i64: e.vtype == VarType::I64,
        is_init: e.atype == AccessType::Init,
        is_imtable_init: e.atype == AccessType::Init && !is_zero_init(rows, image, i),
        zero_init_proof: if is_zero_init(rows, image, i) {
            (e.offset - first_zero_offset) as u64
        } else {
            0
        },
        start_eid: e.eid,
        end_eid: row.end_eid,
        eid_diff: (row.end_eid - e.eid) as u32,
        rest_mops: rest_mops_from(rows, i) as u64,
        offset: e.offset,
        value: e.value,
        encode: spec_encode_memory_table_entry(
            e.eid,
            row.end_eid,
            e.offset,
            e.ltype,
            e.vtype == VarType::I32,
            e.value,
        ),
        is_next_same_ltype: same_ltype,
        is_next_same_offset: same_ltype && rows[i + 1].entry.offset == e.offset,
        offset_diff: if same_ltype {
            (rows[i + 1].entry.offset - e.offset) as u64
        } else {
            0
        },
    }
}

/// Whether `row` is row block `i` of the table.
pub open spec fn is_memory_row(
    row: MemoryRow,
    rows: Seq<MemoryWritingEntry>,
    image: Seq<InitMemoryTableEntry>,
    first_zero_offset: u32,
    i: int,
) -> bool {
    &&& row.cells == memory_cells(rows, image, first_zero_offset, i)
    &&& if row.cells.offset_diff == 0 {
        row.offset_diff_inv == (U256 { l0: 0, l1: 0, l2: 0, l3: 0 })
    } else {
        is_inverse(row.cells.offset_diff as nat, row.offset_diff_inv.value())
    }
}

/// Everything the memory table holds.
pub struct MemoryTableAssignment {
    /// The row selector, row by row: set on the first row of each row block.
    pub entry_sel: Vec<bool>,
    /// The count of accesses that the first row starts from.
    pub init_rest_mops: u64,
    /// The constraint that ties that count to the count of the event table.
    pub rest_mops_constraint: Option<CellCopy>,
    pub rows: Vec<MemoryRow>,
}

impl MemoryTableAssignment {
    /// Whether `self` is what the memory table of room for `capability`
    /// accesses holds for the table `rows`, with the count of its first row
    /// tied to `etable_rest_mops_cell`.
    pub open spec fn is_assignment_of(
        &self,
        rows: Seq<MemoryWritingEntry>,
        image: Seq<InitMemoryTableEntry>,
        first_zero_offset: u32,
        capability: usize,
        etable_rest_mops_cell: Option<Cell>,
    ) -> bool {
        &&& self.init_rest_mops == rest_mops_from(rows, 0)
        &&& self.rest_mops_constraint == match etable_rest_mops_cell {
            Some(other) => Some(
                CellCopy { image: Cell { region: Region::MemoryTable, column: 0, row: 0 }, other },
            ),
            None => None,
        }
        &&& self.entry_sel@.len() == capability * MEMORY_TABLE_ENTRY_ROWS
        &&& forall|r: int|
            0 <= r < self.entry_sel@.len() ==> #[trigger] self.entry_sel@[r] == (r
                % MEMORY_TABLE_ENTRY_ROWS as int == 0)
        &&& self.rows@.len() == rows.len()
        &&& forall|i: int|
            0 <= i < self.rows@.len() ==> is_memory_row(
                #[trigger] self.rows@[i],
                rows,
                image,
                first_zero_offset,
                i,
            )
    }
}

pub struct MemoryTableChip {
    pub maximal_available_rows: usize,
}

impl MemoryTableChip {
    pub fn new(maximal_available_rows: usize) -> (chip: MemoryTableChip)
        ensures
            chip.maximal_available_rows == maximal_available_rows,
    {
        MemoryTableChip { maximal_available_rows }
    }

    /// How many accesses the table has room for.
    pub open spec fn spec_capability(&self) -> usize {
        self.maximal_available_rows / MEMORY_TABLE_ENTRY_ROWS
    }

    #[verifier::when_used_as_spec(spec_capability)]
    pub fn capability(&self) -> (r: usize)
        ensures
            r == self.spec_capability(),
    {
        self.maximal_available_rows / MEMORY_TABLE_ENTRY_ROWS
    }

    /// The fixed cells: a row selector for each row block that the table has
    /// room for.
    pub fn assign_fixed(&self) -> (entry_sel: Vec<bool>)
        ensures
            entry_sel@.len() == self.capability() * MEMORY_TABLE_ENTRY_ROWS,
            forall|r: int|
                0 <= r < entry_sel@.len() ==> #[trigger] entry_sel@[r] == (r
                    % MEMORY_TABLE_ENTRY_ROWS as int == 0),
    {
        let capability = self.capability();
        let mut entry_sel: Vec<bool> = Vec::new();
        let mut block: usize = 0;
        while block < capability
            invariant
                block <= capability,
                capability == self.maximal_available_rows / MEMORY_TABLE_ENTRY_ROWS,
                entry_sel@.len() == block * MEMORY_TABLE_ENTRY_ROWS,
                forall|r: int|
                    0 <= r < entry_sel@.len() ==> #[trigger] entry_sel@[r] == (r
                        % MEMORY_TABLE_ENTRY_ROWS as int == 0),
            decreases capability - block,
        {
            entry_sel.push(true);
            entry_sel.push(false);
            entry_sel.push(false);
            entry_sel.push(false);
            block += 1;
        }
        entry_sel
    }

    /// The count of accesses that the first row starts from, tied to the
    /// cell of the event table that holds the same count, if there is one.
    pub fn constraint_rest_mops_permutation(
        &self,
        etable_rest_mops_cell: Option<Cell>,
        init_rest_mops: u64,
    ) -> (r: (u64, Option<CellCopy>))
        ensures
            r.0 == init_rest_mops,
            r.1 == match etable_rest_mops_cell {
                Some(other) => Some(
                    CellCopy {
                        image: Cell { region: Region::MemoryTable, column: 0, row: 0 },
                        other,
                    },
                ),
                None => None,
            },
    {
        let constraint = match etable_rest_mops_cell {
            Some(other) => Some(
                CellCopy { image: Cell { region: Region::MemoryTable, column: 0, row: 0 }, other },
            ),
            None => None,
        };
        (init_rest_mops, constraint)
    }

    /// The accesses of the table that are no initializations.
    pub fn count_mops(mtable: &MTable) -> (count: u64)
        ensures
            count == rest_mops_from(mtable@, 0),
    {
        let entries = mtable.entries();
        let n = entries.len();
        let mut count: u64 = 0;
        let mut k: usize = n;
        while k > 0
            invariant
                k <= n,
                n == entries@.len(),
                count == rest_mops_from(entries@, k as int),
            decreases k,
        {
            proof {
                lemma_rest_mops_bounded(entries@, k as int);
            }
            k -= 1;
            if !entries[k].entry.atype.is_init() {
                count += 1;
            }
        }
        count
    }

    /// The row blocks of the table, one for each access.
    ///
    /// `image` tells which initializations come from the image;
    /// `first_consecutive_zero_memory_offset` is the first location that the
    /// image leaves to zero. A table that the chip has no room for is
    /// refused, and so is one with an initialization to zero of a location
    /// before that offset which the image does not hold.
    pub fn assign_entries(
        &self,
        mtable: &MTable,
        image: &InitMemoryTable,
        first_consecutive_zero_memory_offset: u32,
    ) -> (r: Result<Vec<MemoryRow>, TraceError>)
        ensures
            match r {
                Ok(rows) => {
                    &&& memory_table_error(
                        mtable@,
                        image@,
                        first_consecutive_zero_memory_offset,
                        self.capability(),
                    ) is None
                    &&& rows@.len() == mtable@.len()
                    &&& forall|i: int|
                        0 <= i < rows@.len() ==> !#[trigger] is_misplaced_zero_init(
                            mtable@,
                            image@,
                            first_consecutive_zero_memory_offset,
                            i,
                        )
                    &&& forall|i: int|
                        0 <= i < rows@.len() ==> is_memory_row(
                            #[trigger] rows@[i],
                            mtable@,
                            image@,
                            first_consecutive_zero_memory_offset,
                            i,
                        )
                },
                Err(e) => Some(e) == memory_table_error(
                    mtable@,
                    image@,
                    first_consecutive_zero_memory_offset,
                    self.capability(),
                ),
            },
    {
        let entries = mtable.entries();
        let n = entries.len();
        let first = first_consecutive_zero_memory_offset;
        let capability = self.capability();
        if n > capability {
            return Err(
                TraceError::CapacityExceeded {
                    table: TableKind::Memory,
                    required: n,
                    capacity: capability,
                },
            );
        }
        let mut rest_mops = Self::count_mops(mtable);
        let mut cache: HashMap<u64, U256> = HashMap::new();
        let mut rows: Vec<MemoryRow> = Vec::new();
        let mut i: usize = 0;
        while i < n
            invariant
                i <= n,
                n == entries@.len(),
                n <= self.capability(),
                entries@ == mtable@,
                well_formed(entries@),
                first == first_consecutive_zero_memory_offset,
                rest_mops == rest_mops_from(entries@, i as int),
                rows@.len() == i,
                forall|d: u64| #[trigger]
                    cache@.contains_key(d) ==> d != 0 && is_inverse(d as nat, cache@[d].value()),
                forall|k: int|
                    0 <= k < i ==> !#[trigger] is_misplaced_zero_init(entries@, image@, first, k),
                forall|k: int|
                    0 <= k < i ==> is_memory_row(#[trigger] rows@[k], entries@, image@, first, k),
            decreases n - i,
        {
            let row = entries[i];
            let e = row.entry;
            proof {
                let s = accesses(entries@);
                assert(s[i as int] == e);
                assert(row.end_eid == next_eid(entries@, i as int));
                if i + 1 < n {
                    assert(s[i + 1] == entries@[i + 1].entry);
                    assert(s[i as int].key_le(s[i + 1]));
                }
                lemma_rest_mops_bounded(entries@, i as int);
            }
            let is_init = e.atype.is_init();
            let from_image = is_init && image.try_find(e.ltype, e.offset).is_some();
            let zero_init = is_init && !from_image;
            if zero_init && e.offset < first {
                proof {
                    assert(is_first_misplaced(entries@, image@, first, i as int));
                    let c = choose|c: int| is_first_misplaced(entries@, image@, first, c);
                    assert(c == i) by {
                        if c < i {
                            assert(!is_misplaced_zero_init(entries@, image@, first, c));
                        }
                        if i < c {
                            assert(!is_misplaced_zero_init(entries@, image@, first, i as int));
                        }
                    }
                }
                return Err(TraceError::MissingInitValue { ltype: e.ltype, offset: e.offset });
            }
            let same_ltype = i + 1 < n && entries[i + 1].entry.ltype == e.ltype;
            let offset_diff: u64 = if same_ltype {
                (entries[i + 1].entry.offset - e.offset) as u64
            } else {
                0
            };
            let offset_diff_inv = if offset_diff == 0 {
                U256::zero()
            } else {
                match cache.get(&offset_diff) {
                    Some(inverse) => *inverse,
                    None => {
                        let inverse = invert_or_zero(offset_diff);
                        cache.insert(offset_diff, inverse);
                        inverse
                    },
                }
            };
            let is_i32 = e.vtype == VarType::I32;
            rows.push(
                MemoryRow {
                    cells: MemoryCells {
                        enabled: true,
                        is_stack: e.ltype == LocationType::Stack,
                        is_heap: e.ltype == LocationType::Heap,
                        is_global: e.ltype == LocationType::Global,
                        is_mutable: e.is_mutable,
                        is_i32,
                        is_i64: e.vtype == VarType::I64,
                        is_init,
                        is_imtable_init: from_image,
                        zero_init_proof: if zero_init {
                            (e.offset - first) as u64
                        } else {
                            0
                        },
                        start_eid: e.eid,
                        end_eid: row.end_eid,
                        eid_diff: row.end_eid - e.eid,
                        rest_mops,
                        offset: e.offset,
                        value: e.value,
                        encode: encode_memory_table_entry(
                            e.eid,
                            row.end_eid,
                            e.offset,
                            e.ltype,
                            is_i32,
                            e.value,
                        ),
                        is_next_same_ltype: same_ltype,
                        is_next_same_offset: same_ltype && entries[i + 1].entry.offset == e.offset,
                        offset_diff,
                    },
                    offset_diff_inv,
                },
            );
            proof {
                assert(rows@[i as int].cells == memory_cells(entries@, image@, first, i as int));
            }
            if !is_init {
                rest_mops -= 1;
            }
            i += 1;
        }
        Ok(rows)
    }

    /// Everything the memory table holds, with the count of accesses of its
    /// first row tied to `etable_rest_mops_cell`, if that is given.
    pub fn assign(
        &self,
        etable_rest_mops_cell: Option<Cell>,
        mtable: &MTable,
        image: &InitMemoryTable,
        first_consecutive_zero_memory_offset: u32,
    ) -> (r: Result<MemoryTableAssignment, TraceError>)
        ensures
            match r {
                Ok(assignment) => {
                    &&& memory_table_error(
                        mtable@,
                        image@,
                        first_consecutive_zero_memory_offset,
                        self.capability(),
                    ) is None
                    &&& assignment.is_assignment_of(
                        mtable@,
                        image@,
                        first_consecutive_zero_memory_offset,
                        self.capability(),
                        etable_rest_mops_cell,
                    )
                },
                Err(e) => Some(e) == memory_table_error(
                    mtable@,
                    image@,
                    first_consecutive_zero_memory_offset,
                    self.capability(),
                ),
            },
    {
        let rest_mops = Self::count_mops(mtable);
        let rows = match self.assign_entries(mtable, image, first_consecutive_zero_memory_offset) {
            Ok(rows) => rows,
            Err(e) => {
                return Err(e);
            },
        };
        let entry_sel = self.assign_fixed();
        let (init_rest_mops, rest_mops_constraint) = self.constraint_rest_mops_permutation(
            etable_rest_mops_cell,
            rest_mops,
        );
        Ok(MemoryTableAssignment { entry_sel, init_rest_mops, rest_mops_constraint, rows })
    }
}

} // verus!
