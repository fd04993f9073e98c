//! The image table encoder: the program image and the checkpoint it starts
//! from, as one column of cells.

use crate::brtable::{BrTableEntry, ElemEntry};
use crate::circuits::cell::{Cell, Region};
use crate::encode::{ImageTableEncoder, U256};
use crate::error::{TableKind, TraceError};
use crate::field::{lemma_small_word_in_field, modulus, SMALL_TOP_LIMB};
use crate::imtable::InitMemoryTableEntry;
use crate::itable::{branch_targets, InstructionTableEntry};
use crate::jtable::{StaticFrameEntry, STATIC_FRAME_ENTRY_NUMBER};
use crate::mtable::LocationType;
use crate::{CompilationTable, InitializationState};
use vstd::prelude::*;

verus! {

/// The cells of an image table, in three parts: the checkpoint, the static
/// frames as pairs of an enabling cell and a frame cell, and the rows that
/// the other tables look up.
pub struct ImageTableLayouter<T: Copy> {
    pub initialization_state: InitializationState<T>,
    pub static_frame_entries: Vec<(T, T)>,
    /// Instructions, branch targets and table elements, initial memory.
    pub lookup_entries: Option<Vec<T>>,
}

/// The members of `pairs`, one after the other.
pub open spec fn flatten_pairs<T>(pairs: Seq<(T, T)>) -> Seq<T> {
    Seq::new(
        2 * pairs.len(),
        |i: int|
            if i % 2 == 0 {
                pairs[i / 2].0
            } else {
                pairs[i / 2].1
            },
    )
}

impl<T: Copy> ImageTableLayouter<T> {
    /// The cells of the checkpoint and of the static frames, in column order.
    pub open spec fn spec_head(&self) -> Seq<T> {
        self.initialization_state.spec_plain() + flatten_pairs(self.static_frame_entries@)
    }

    /// All cells in column order.
    pub open spec fn spec_plain(&self) -> Seq<T> {
        self.spec_head() + self.lookup_entries->0@
    }

    /// The cells of the checkpoint and of the static frames, in column order.
    pub fn head(&self) -> (cells: Vec<T>)
        ensures
            cells@ == self.spec_head(),
    {
        let mut cells = self.initialization_state.plain();
        let mut i: usize = 0;
        while i < self.static_frame_entries.len()
            invariant
                i <= self.static_frame_entries.len(),
                cells@ == self.initialization_state.spec_plain() + flatten_pairs(
                    self.static_frame_entries@.take(i as int),
                ),
            decreases self.static_frame_entries.len() - i,
        {
            let (enable, frame) = self.static_frame_entries[i];
            cells.push(enable);
            cells.push(frame);
            proof {
                let before = self.static_frame_entries@.take(i as int);
                let after = self.static_frame_entries@.take(i + 1);
                assert(flatten_pairs(after) =~= flatten_pairs(before).push(enable).push(frame)) by {
                    assert forall|j: int| 0 <= j < 2 * before.len() implies flatten_pairs(
                        after,
                    )[j] == flatten_pairs(before)[j] by {
                        assert(after[j / 2] == before[j / 2]);
                    }
                    assert(after[i as int] == (enable, frame));
                }
            }
            i += 1;
        }
        proof {
            assert(self.static_frame_entries@.take(self.static_frame_entries@.len() as int)
                =~= self.static_frame_entries@);
        }
        cells
    }

    /// All cells in column order.
    pub fn plain(&self) -> (cells: Vec<T>)
        requires
            self.lookup_entries is Some,
        ensures
            cells@ == self.spec_plain(),
    {
        let mut cells = self.head();
        match &self.lookup_entries {
            Some(entries) => {
                let mut i: usize = 0;
                while i < entries.len()
                    invariant
                        i <= entries.len(),
                        cells@ == self.spec_head() + entries@.take(i as int),
                    decreases entries.len() - i,
                {
                    cells.push(entries[i]);
                    proof {
                        assert(entries@.take(i + 1) =~= entries@.take(i as int).push(
                            entries@[i as int],
                        ));
                    }
                    i += 1;
                }
                proof {
                    assert(entries@.take(entries@.len() as int) =~= entries@);
                }
            },
            None => {},
        }
        cells
    }
}

/// The rows of the instructions: the marker of the sub-table, then one row
/// for each instruction.
pub open spec fn instruction_cells(instructions: Seq<InstructionTableEntry>) -> Seq<U256> {
    seq![ImageTableEncoder::Instruction.spec_encode(U256 { l0: 0, l1: 0, l2: 0, l3: 0 })]
        + instructions.map_values(
        |e: InstructionTableEntry| ImageTableEncoder::Instruction.spec_encode(e.spec_encode()),
    )
}

/// The rows of branch targets and table elements: the marker of the
/// sub-table, then the branch targets, then the table elements.
pub open spec fn br_cells(targets: Seq<BrTableEntry>, elems: Seq<ElemEntry>) -> Seq<U256> {
    seq![ImageTableEncoder::BrTable.spec_encode(U256 { l0: 0, l1: 0, l2: 0, l3: 0 })]
        + targets.map_values(
        |e: BrTableEntry| ImageTableEncoder::BrTable.spec_encode(e.spec_encode()),
    ) + elems.map_values(|e: ElemEntry| ImageTableEncoder::BrTable.spec_encode(e.spec_encode()))
}

/// The rows of the initial memory: the marker of the sub-table, then the heap
/// entries, then the globals.
pub open spec fn init_memory_cells(entries: Seq<InitMemoryTableEntry>) -> Seq<U256> {
    let encode = |e: InitMemoryTableEntry|
        ImageTableEncoder::InitMemory.spec_encode(e.spec_encode());
    seq![ImageTableEncoder::InitMemory.spec_encode(U256 { l0: 0, l1: 0, l2: 0, l3: 0 })]
        + entries.filter(|e: InitMemoryTableEntry| e.ltype == LocationType::Heap).map_values(
        encode,
    ) + entries.filter(|e: InitMemoryTableEntry| e.ltype == LocationType::Global).map_values(
        encode,
    )
}

/// The rows that the other tables look up, before padding.
pub open spec fn image_cells(table: &CompilationTable) -> Seq<U256> {
    instruction_cells(table.itable@) + br_cells(branch_targets(table.itable@), table.elem_table@)
        + init_memory_cells(table.imtable@)
}

/// The rows that the other tables look up: the three sub-tables, then zero
/// rows up to `rows` rows.
pub open spec fn lookup_cells(table: &CompilationTable, rows: int) -> Seq<U256> {
    let cells = image_cells(table);
    cells + Seq::new((rows - cells.len()) as nat, |i: int| U256 { l0: 0, l1: 0, l2: 0, l3: 0 })
}

/// The pair of cells of static frame `i` of `frames`: enabled with the row of
/// the frame if there is one, disabled with the row of the disabled frame if
/// not.
pub open spec fn static_frame_cell(frames: Seq<StaticFrameEntry>, i: int) -> (U256, U256) {
    if i < frames.len() {
        (U256 { l0: 1, l1: 0, l2: 0, l3: 0 }, frames[i].spec_encode())
    } else {
        (U256 { l0: 0, l1: 0, l2: 0, l3: 0 }, StaticFrameEntry::spec_disabled().spec_encode())
    }
}

/// The cells of the static frames: always as many pairs as an image has room
/// for.
pub open spec fn static_frame_cells(frames: Seq<StaticFrameEntry>) -> Seq<(U256, U256)> {
    Seq::new(STATIC_FRAME_ENTRY_NUMBER as nat, |i: int| static_frame_cell(frames, i))
}

/// The cells of the checkpoint: each field as a number.
pub open spec fn state_cells(state: InitializationState<u32>) -> InitializationState<U256> {
    InitializationState {
        eid: U256 { l0: state.eid as u64, l1: 0, l2: 0, l3: 0 },
        fid: U256 { l0: state.fid as u64, l1: 0, l2: 0, l3: 0 },
        iid: U256 { l0: state.iid as u64, l1: 0, l2: 0, l3: 0 },
        frame_id: U256 { l0: state.frame_id as u64, l1: 0, l2: 0, l3: 0 },
        sp: U256 { l0: state.sp as u64, l1: 0, l2: 0, l3: 0 },
        initial_memory_pages: U256 { l0: state.initial_memory_pages as u64, l1: 0, l2: 0, l3: 0 },
        maximal_memory_pages: U256 { l0: state.maximal_memory_pages as u64, l1: 0, l2: 0, l3: 0 },
        input_index: U256 { l0: state.input_index as u64, l1: 0, l2: 0, l3: 0 },
        context_input_index: U256 { l0: state.context_input_index as u64, l1: 0, l2: 0, l3: 0 },
        context_output_index: U256 { l0: state.context_output_index as u64, l1: 0, l2: 0, l3: 0 },
        external_host_call_index: U256 {
            l0: state.external_host_call_index as u64,
            l1: 0,
            l2: 0,
            l3: 0,
        },
        jops: U256 { l0: state.jops as u64, l1: 0, l2: 0, l3: 0 },
    }
}

/// All cells of the image table of `table`, in column order: the checkpoint,
/// the static frames, the lookup rows.
pub open spec fn image_table_cells(table: &CompilationTable, rows: int) -> Seq<U256> {
    state_cells(table.initialization_state).spec_plain() + flatten_pairs(
        static_frame_cells(table.static_jtable@),
    ) + lookup_cells(table, rows)
}

/// Every cell of an image table is a number of the field: none reaches into
/// the upper half of its top limb.
pub proof fn lemma_image_table_cells_in_field(table: &CompilationTable, rows: int, i: int)
    requires
        0 <= i < image_table_cells(table, rows).len(),
    ensures
        image_table_cells(table, rows)[i].l3 < SMALL_TOP_LIMB,
        image_table_cells(table, rows)[i].value() < modulus(),
{
    let state = state_cells(table.initialization_state).spec_plain();
    let frames = flatten_pairs(static_frame_cells(table.static_jtable@));
    let lookup = lookup_cells(table, rows);
    let cell = image_table_cells(table, rows)[i];
    if i < 12 {
        assert(cell == state[i]);
    } else if i < 12 + frames.len() {
        let j = i - 12;
        assert(cell == frames[j]);
        assert(static_frame_cells(table.static_jtable@)[j / 2] == static_frame_cell(
            table.static_jtable@,
            j / 2,
        ));
    } else {
        let j = i - 12 - frames.len();
        assert(cell == lookup[j]);
        let cells = image_cells(table);
        if j < cells.len() {
            let a = instruction_cells(table.itable@);
            let b = br_cells(branch_targets(table.itable@), table.elem_table@);
            let c = init_memory_cells(table.imtable@);
            if j < a.len() {
                assert(cells[j] == a[j]);
            } else if j < a.len() + b.len() {
                assert(cells[j] == b[j - a.len()]);
            } else {
                assert(cells[j] == c[j - a.len() - b.len()]);
            }
        }
    }
    lemma_small_word_in_field(cell);
}

/// Whether `layouter` holds the cells of `table` for an image table of
/// `rows` lookup rows.
pub open spec fn is_encoding_of(
    layouter: &ImageTableLayouter<U256>,
    table: &CompilationTable,
    rows: int,
) -> bool {
    &&& layouter.initialization_state == state_cells(table.initialization_state)
    &&& layouter.static_frame_entries@ == static_frame_cells(table.static_jtable@)
    &&& layouter.lookup_entries is Some
    &&& layouter.lookup_entries->0@ == lookup_cells(table, rows)
}

/// Why `table` has no image table of `rows` lookup rows, if it has none.
pub open spec fn image_table_error(table: &CompilationTable, rows: usize) -> Option<TraceError> {
    if image_cells(table).len() > rows {
        Some(
            TraceError::CapacityExceeded {
                table: TableKind::Image,
                required: if image_cells(table).len() <= usize::MAX {
                    image_cells(table).len() as usize
                } else {
                    usize::MAX
                },
                capacity: rows,
            },
        )
    } else {
        None
    }
}

/// The images that can be written as the cells of an image table.
pub trait EncodeCompilationTableValues<F: Copy> {
    /// The cells of the image, for an image table of `max_image_table_rows`
    /// lookup rows.
    fn encode_compilation_table_values(&self, max_image_table_rows: usize) -> Result<
        ImageTableLayouter<F>,
        TraceError,
    >;
}

fn msg_of_initialization_state(state: &InitializationState<u32>) -> (r: InitializationState<U256>)
    ensures
        r == state_cells(*state),
{
    InitializationState {
        eid: U256::from_u32(state.eid),
        fid: U256::from_u32(state.fid),
        iid: U256::from_u32(state.iid),
        frame_id: U256::from_u32(state.frame_id),
        sp: U256::from_u32(state.sp),
        initial_memory_pages: U256::from_u32(state.initial_memory_pages),
        maximal_memory_pages: U256::from_u32(state.maximal_memory_pages),
        input_index: U256::from_u32(state.input_index),
        context_input_index: U256::from_u32(state.context_input_index),
        context_output_index: U256::from_u32(state.context_output_index),
        external_host_call_index: U256::from_u32(state.external_host_call_index),
        jops: U256::from_u32(state.jops),
    }
}

fn msg_of_instruction_table(cells: &mut Vec<U256>, instructions: &Vec<InstructionTableEntry>)
    ensures
        final(cells)@ == old(cells)@ + instruction_cells(instructions@),
{
    let ghost start = cells@;
    let ghost f = |e: InstructionTableEntry|
        ImageTableEncoder::Instruction.spec_encode(e.spec_encode());
    cells.push(ImageTableEncoder::Instruction.encode(U256::zero()));
    let mut i: usize = 0;
    while i < instructions.len()
        invariant
            i <= instructions.len(),
            f == (|e: InstructionTableEntry|
                ImageTableEncoder::Instruction.spec_encode(e.spec_encode())),
            cells@ == start + instruction_cells(instructions@.take(i as int)),
        decreases instructions.len() - i,
    {
        cells.push(ImageTableEncoder::Instruction.encode(instructions[i].encode()));
        proof {
            assert(instructions@.take(i + 1) =~= instructions@.take(i as int).push(
                instructions@[i as int],
            ));
            assert(instructions@.take(i + 1).map_values(f) =~= instructions@.take(
                i as int,
            ).map_values(f).push(f(instructions@[i as int])));
            assert(start + instruction_cells(instructions@.take(i + 1)) =~= (start
                + instruction_cells(instructions@.take(i as int))).push(
                f(instructions@[i as int]),
            ));
        }
        i += 1;
    }
    proof {
        assert(instructions@.take(instructions@.len() as int) =~= instructions@);
    }
}

fn msg_of_br_table(cells: &mut Vec<U256>, targets: &Vec<BrTableEntry>, elems: &Vec<ElemEntry>)
    ensures
        final(cells)@ == old(cells)@ + br_cells(targets@, elems@),
{
    let ghost start = cells@;
    let ghost f = |e: BrTableEntry| ImageTableEncoder::BrTable.spec_encode(e.spec_encode());
    let ghost g = |e: ElemEntry| ImageTableEncoder::BrTable.spec_encode(e.spec_encode());
    cells.push(ImageTableEncoder::BrTable.encode(U256::zero()));
    let mut i: usize = 0;
    while i < targets.len()
        invariant
            i <= targets.len(),
            f == (|e: BrTableEntry| ImageTableEncoder::BrTable.spec_encode(e.spec_encode())),
            cells@ == start + br_cells(targets@.take(i as int), Seq::empty()),
        decreases targets.len() - i,
    {
        cells.push(ImageTableEncoder::BrTable.encode(targets[i].encode()));
        proof {
            assert(targets@.take(i + 1) =~= targets@.take(i as int).push(targets@[i as int]));
            assert(targets@.take(i + 1).map_values(f) =~= targets@.take(i as int).map_values(
                f,
            ).push(f(targets@[i as int])));
            assert(start + br_cells(targets@.take(i + 1), Seq::empty()) =~= (start + br_cells(
                targets@.take(i as int),
                Seq::empty(),
            )).push(f(targets@[i as int])));
        }
        i += 1;
    }
    proof {
        assert(targets@.take(targets@.len() as int) =~= targets@);
        assert(elems@.take(0) =~= Seq::<ElemEntry>::empty());
    }
    let mut j: usize = 0;
    while j < elems.len()
        invariant
            j <= elems.len(),
            g == (|e: ElemEntry| ImageTableEncoder::BrTable.spec_encode(e.spec_encode())),
            cells@ == start + br_cells(targets@, elems@.take(j as int)),
        decreases elems.len() - j,
    {
        cells.push(ImageTableEncoder::BrTable.encode(elems[j].encode()));
        proof {
            assert(elems@.take(j + 1) =~= elems@.take(j as int).push(elems@[j as int]));
            assert(elems@.take(j + 1).map_values(g) =~= elems@.take(j as int).map_values(g).push(
                g(elems@[j as int]),
            ));
            assert(start + br_cells(targets@, elems@.take(j + 1)) =~= (start + br_cells(
                targets@,
                elems@.take(j as int),
            )).push(g(elems@[j as int])));
        }
        j += 1;
    }
    proof {
        assert(elems@.take(elems@.len() as int) =~= elems@);
    }
}

fn push_init_memory(cells: &mut Vec<U256>, entries: &Vec<InitMemoryTableEntry>)
    ensures
        final(cells)@ == old(cells)@ + entries@.map_values(
            |e: InitMemoryTableEntry| ImageTableEncoder::InitMemory.spec_encode(e.spec_encode()),
        ),
{
    let ghost start = cells@;
    let ghost f = |e: InitMemoryTableEntry|
        ImageTableEncoder::InitMemory.spec_encode(e.spec_encode());
    let mut i: usize = 0;
    proof {
        assert(entries@.take(0).map_values(f) =~= Seq::<U256>::empty());
        assert(start + Seq::<U256>::empty() =~= start);
    }
    while i < entries.len()
        invariant
            i <= entries.len(),
            f == (|e: InitMemoryTableEntry|
                ImageTableEncoder::InitMemory.spec_encode(e.spec_encode())),
            cells@ == start + entries@.take(i as int).map_values(f),
        decreases entries.len() - i,
    {
        cells.push(ImageTableEncoder::InitMemory.encode(entries[i].encode()));
        proof {
            assert(entries@.take(i + 1) =~= entries@.take(i as int).push(entries@[i as int]));
            assert(entries@.take(i + 1).map_values(f) =~= entries@.take(i as int).map_values(
                f,
            ).push(f(entries@[i as int])));
            assert(start + entries@.take(i + 1).map_values(f) =~= (start + entries@.take(
                i as int,
            ).map_values(f)).push(f(entries@[i as int])));
        }
        i += 1;
    }
    proof {
        assert(entries@.take(entries@.len() as int) =~= entries@);
    }
}

fn msg_of_static_frame_table(frames: &Vec<StaticFrameEntry>) -> (cells: Vec<(U256, U256)>)
    ensures
        cells@ == static_frame_cells(frames@),
{
    let mut cells: Vec<(U256, U256)> = Vec::new();
    let mut i: usize = 0;
    while i < STATIC_FRAME_ENTRY_NUMBER
        invariant
            i <= STATIC_FRAME_ENTRY_NUMBER,
            cells@.len() == i,
            forall|k: int| 0 <= k < i ==> cells@[k] == static_frame_cell(frames@, k),
        decreases STATIC_FRAME_ENTRY_NUMBER - i,
    {
        if i < frames.len() {
            cells.push((U256::one(), frames[i].encode()));
        } else {
            cells.push((U256::zero(), StaticFrameEntry::disabled().encode()));
        }
        i += 1;
    }
    proof {
        assert(cells@ =~= static_frame_cells(frames@));
    }
    cells
}

impl EncodeCompilationTableValues<U256> for CompilationTable {
    /// The cells of the image. The lookup rows are the instructions, the
    /// branch targets and table elements, and the initial memory, each behind
    /// the marker of its sub-table, padded with zero rows to
    /// `max_image_table_rows` rows; an image with more rows than that is
    /// refused.
    fn encode_compilation_table_values(&self, max_image_table_rows: usize) -> (r: Result<
        ImageTableLayouter<U256>,
        TraceError,
    >)
        ensures
            match r {
                Ok(layouter) => image_table_error(self, max_image_table_rows) is None
                    && is_encoding_of(&layouter, self, max_image_table_rows as int),
                Err(e) => Some(e) == image_table_error(self, max_image_table_rows),
            },
    {
        let initialization_state = msg_of_initialization_state(&self.initialization_state);
        let static_frame_entries = msg_of_static_frame_table(&self.static_jtable);
        let br_table = self.itable.create_brtable();
        let heap = self.imtable.filter(LocationType::Heap);
        let global = self.imtable.filter(LocationType::Global);
        // Count the rows before building them: the count may not fit.
        let sizes = [
            self.itable.entries().len(),
            br_table.entries().len(),
            self.elem_table.entries().len(),
            heap.len(),
            global.len(),
        ];
        let mut required: usize = 3;
        let mut fits = true;
        let mut s: usize = 0;
        while s < 5
            invariant
                s <= 5,
                fits ==> required == 3 + partial_sum(sizes@, s as int),
                !fits ==> 3 + partial_sum(sizes@, s as int) > usize::MAX,
            decreases 5 - s,
        {
            if fits {
                if sizes[s] > usize::MAX - required {
                    fits = false;
                } else {
                    required = required + sizes[s];
                }
            }
            s += 1;
        }
        proof {
            reveal_with_fuel(partial_sum, 6);
            assert(image_cells(self).len() == 3 + partial_sum(sizes@, 5));
        }
        if !fits {
            return Err(
                TraceError::CapacityExceeded {
                    table: TableKind::Image,
                    required: usize::MAX,
                    capacity: max_image_table_rows,
                },
            );
        }
        if required > max_image_table_rows {
            return Err(
                TraceError::CapacityExceeded {
                    table: TableKind::Image,
                    required,
                    capacity: max_image_table_rows,
                },
            );
        }
        let mut cells: Vec<U256> = Vec::new();
        msg_of_instruction_table(&mut cells, self.itable.entries());
        msg_of_br_table(&mut cells, br_table.entries(), self.elem_table.entries());
        cells.push(ImageTableEncoder::InitMemory.encode(U256::zero()));
        push_init_memory(&mut cells, &heap);
        push_init_memory(&mut cells, &global);
        proof {
            assert(cells@ =~= image_cells(self));
        }
        let ghost unpadded = cells@;
        while cells.len() < max_image_table_rows
            invariant
                unpadded.len() <= cells@.len() <= max_image_table_rows,
                cells@ == unpadded + Seq::new(
                    (cells@.len() - unpadded.len()) as nat,
                    |i: int| U256 { l0: 0, l1: 0, l2: 0, l3: 0 },
                ),
            decreases max_image_table_rows - cells.len(),
        {
            cells.push(U256::zero());
            proof {
                assert(cells@ =~= unpadded + Seq::new(
                    (cells@.len() - unpadded.len()) as nat,
                    |i: int| U256 { l0: 0, l1: 0, l2: 0, l3: 0 },
                ));
            }
        }
        Ok(ImageTableLayouter { initialization_state, static_frame_entries, lookup_entries: Some(cells) })
    }
}

/// The sum of the first `n` of `sizes`.
pub open spec fn partial_sum(sizes: Seq<usize>, n: int) -> int
    decreases n,
{
    if n <= 0 {
        0
    } else {
        partial_sum(sizes, n - 1) + sizes[n - 1]
    }
}

/// The equality constraint that ties a cell of the image table to the cell
/// of another table that holds the same value.
#[derive(Clone, Copy, Debug, PartialEq, Eq, Structural)]
pub struct CellCopy {
    pub image: Cell,
    pub other: Cell,
}

/// Everything the image table holds: its one column, and the constraints that
/// tie the cells of the checkpoint and of the static frames to the tables
/// that produced them.
pub struct ImageTableAssignment {
    pub column: Vec<U256>,
    pub constraints: Vec<CellCopy>,
}

pub struct ImageTableChip {}

impl ImageTableChip {
    pub fn new() -> ImageTableChip {
        ImageTableChip {  }
    }

    /// Lays out `image_table` as one column and ties each cell of its
    /// checkpoint and of its static frames to the cell at the same place of
    /// `permutation_cells`. Static frames that only one of the two has are
    /// laid out and tied to nothing.
    pub fn assign(
        self,
        image_table: &ImageTableLayouter<U256>,
        permutation_cells: &ImageTableLayouter<Cell>,
    ) -> (r: ImageTableAssignment)
        requires
            image_table.lookup_entries is Some,
        ensures
            r.column@ == image_table.spec_plain(),
            r.constraints@.len() == tied_cells(image_table, permutation_cells),
            forall|i: int|
                0 <= i < r.constraints@.len() ==> #[trigger] r.constraints@[i] == (CellCopy {
                    image: Cell { region: Region::ImageTable, column: 0, row: i as usize },
                    other: permutation_cells.spec_head()[i],
                }),
    {
        let column = image_table.plain();
        let others = permutation_cells.head();
        let frames = if image_table.static_frame_entries.len()
            < permutation_cells.static_frame_entries.len() {
            image_table.static_frame_entries.len()
        } else {
            permutation_cells.static_frame_entries.len()
        };
        let mut constraints: Vec<CellCopy> = Vec::new();
        let mut i: usize = 0;
        while i < others.len() && (i < 12 || (i - 12) / 2 < frames)
            invariant
                others@ == permutation_cells.spec_head(),
                others@.len() == 12 + 2 * permutation_cells.static_frame_entries@.len(),
                frames <= permutation_cells.static_frame_entries@.len(),
                frames <= image_table.static_frame_entries@.len(),
                i <= 12 + 2 * frames,
                constraints@.len() == i,
                forall|k: int|
                    0 <= k < i ==> #[trigger] constraints@[k] == (CellCopy {
                        image: Cell { region: Region::ImageTable, column: 0, row: k as usize },
                        other: permutation_cells.spec_head()[k],
                    }),
            decreases 12 + 2 * frames - i,
        {
            constraints.push(
                CellCopy {
                    image: Cell { region: Region::ImageTable, column: 0, row: i },
                    other: others[i],
                },
            );
            i += 1;
        }
        ImageTableAssignment { column, constraints }
    }
}

/// How many cells of the image table are tied to cells of other tables: the
/// checkpoint, and the static frames that both layouts have.
pub open spec fn tied_cells(
    image_table: &ImageTableLayouter<U256>,
    permutation_cells: &ImageTableLayouter<Cell>,
) -> int {
    12 + 2 * if image_table.static_frame_entries@.len()
        < permutation_cells.static_frame_entries@.len() {
        image_table.static_frame_entries@.len() as int
    } else {
        permutation_cells.static_frame_entries@.len() as int
    }
}

} // verus!
