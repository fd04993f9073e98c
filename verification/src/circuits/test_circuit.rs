//! One proof instance: all tables of a trace, or of a slice of one, encoded
//! side by side and tied together.

use crate::brtable::ElemTable;
use crate::circuits::bit_table::{
    bit_table_entry, bit_table_error, BitTableAssignment, BitTableChip, STEP_SIZE,
};
use crate::circuits::cell::{Cell, Region};
use crate::circuits::etable::{
    event_table_error, lemma_rest_bounded, EventTableAssignment, EventTableChip,
    EVENT_TABLE_ENTRY_ROWS,
};
use crate::circuits::image_table::{
    image_table_cells, image_table_error, CellCopy, EncodeCompilationTableValues,
    ImageTableAssignment, ImageTableChip, ImageTableLayouter,
};
use crate::circuits::mtable::{
    lemma_counts_agree, memory_table_error, MemoryTableAssignment, MemoryTableChip,
    MEMORY_TABLE_ENTRY_ROWS,
};
use crate::error::TraceError;
use crate::etable::{
    external_host_call, trace_events, EventTable, EventTableEntry, ExternalHostCallEntry,
};
use crate::imtable::InitMemoryTable;
use crate::itable::InstructionTable;
use crate::jtable::{JumpTable, STATIC_FRAME_ENTRY_NUMBER};
use crate::mtable::{is_table_of, missing_init_error, MTable, MemoryWritingEntry};
use crate::{copy_entries, CompilationTable, ExecutionTable, InitializationState, Tables};
use vstd::prelude::*;

verus! {

/// The column of the event table that holds the count of memory accesses
/// that are still to come, behind the twelve columns of the checkpoint.
pub const REST_MOPS_COLUMN: usize = 12;

/// The sizes that a proof instance is configured with.
#[derive(Clone, Copy, Debug, PartialEq, Eq, Structural)]
pub struct CircuitConfig {
    /// Rows that each of the event, memory and bit tables may use.
    pub max_available_rows: usize,
    /// Lookup rows of the image table.
    pub max_image_table_rows: usize,
    /// The first heap offset that the image leaves to zero.
    pub first_consecutive_zero_memory_offset: u32,
}

/// Everything a proof instance holds.
pub struct CircuitAssignment {
    pub external_host_calls: Vec<ExternalHostCallEntry>,
    pub memory_table: MTable,
    pub event: EventTableAssignment,
    pub memory: MemoryTableAssignment,
    pub bit: BitTableAssignment,
    pub static_frame_cells: Vec<(Cell, Cell)>,
    pub image: ImageTableAssignment,
}

/// The cells of the frame table that hold static frame `i`: the enabling
/// cell and the frame cell.
pub open spec fn static_frame_cell_pair(i: int) -> (Cell, Cell) {
    (
        Cell { region: Region::FrameTable, column: 0, row: i as usize },
        Cell { region: Region::FrameTable, column: 1, row: i as usize },
    )
}

/// The cell of another table that cell `i` of the image table is tied to: a
/// cell of the checkpoint in the first row block of the event table, or a
/// cell of a static frame in the frame table.
pub open spec fn tied_to(i: int) -> Cell {
    if i < 12 {
        Cell { region: Region::EventTable, column: i as usize, row: 0 }
    } else if i % 2 == 0 {
        static_frame_cell_pair((i - 12) / 2).0
    } else {
        static_frame_cell_pair((i - 12) / 2).1
    }
}

/// Why the tables have no encoding under `config` with the memory table
/// `rows`, if they have none: the reason of the first encoder that fails, in
/// the order event table, memory table, bit table, image table.
pub open spec fn assignment_error(
    tables: &Tables,
    config: CircuitConfig,
    rows: Seq<MemoryWritingEntry>,
) -> Option<TraceError> {
    let steps = tables.execution_table.etable@;
    let event = event_table_error(
        steps,
        (config.max_available_rows / EVENT_TABLE_ENTRY_ROWS) as usize,
    );
    let memory = memory_table_error(
        rows,
        tables.pre_image_table.imtable@,
        config.first_consecutive_zero_memory_offset,
        (config.max_available_rows / MEMORY_TABLE_ENTRY_ROWS) as usize,
    );
    let bit = bit_table_error(
        steps.filter_map(|e: EventTableEntry| bit_table_entry(e)).len(),
        (config.max_available_rows / STEP_SIZE) as usize,
    );
    if event is Some {
        event
    } else if memory is Some {
        memory
    } else if bit is Some {
        bit
    } else {
        image_table_error(&tables.pre_image_table, config.max_image_table_rows)
    }
}

impl CircuitAssignment {
    /// Whether `self` is what a proof instance of `tables` holds under
    /// `config`: the memory table of the trace, the four tables encoded, the
    /// first count of the memory table tied to that of the event table and
    /// equal to it, and the checkpoint and the static frames of the image
    /// table tied to the cells of the event table and the frame table.
    pub open spec fn is_assignment_of(&self, tables: &Tables, config: CircuitConfig) -> bool {
        let steps = tables.execution_table.etable@;
        let image = &tables.pre_image_table;
        &&& self.external_host_calls@ == steps.filter_map(
            |e: EventTableEntry| external_host_call(e),
        )
        &&& is_table_of(self.memory_table@, image.imtable@, trace_events(steps))
        &&& self.event.is_assignment_of(
            steps,
            image.initialization_state,
            (config.max_available_rows / EVENT_TABLE_ENTRY_ROWS) as usize,
        )
        &&& self.memory.is_assignment_of(
            self.memory_table@,
            image.imtable@,
            config.first_consecutive_zero_memory_offset,
            (config.max_available_rows / MEMORY_TABLE_ENTRY_ROWS) as usize,
            Some(Cell { region: Region::EventTable, column: REST_MOPS_COLUMN, row: 0 }),
        )
        &&& self.memory.init_rest_mops == self.event.rows@[0].rest_mops
        &&& self.bit.is_assignment_of(
            steps.filter_map(|e: EventTableEntry| bit_table_entry(e)),
            (config.max_available_rows / STEP_SIZE) as usize,
        )
        &&& self.static_frame_cells@ == Seq::new(
            STATIC_FRAME_ENTRY_NUMBER as nat,
            |i: int| static_frame_cell_pair(i),
        )
        &&& self.image.column@ == image_table_cells(
            image,
            config.max_image_table_rows as int,
        )
        &&& self.image.constraints@ == Seq::new(
            (12 + 2 * STATIC_FRAME_ENTRY_NUMBER) as nat,
            |i: int|
                CellCopy {
                    image: Cell { region: Region::ImageTable, column: 0, row: i as usize },
                    other: tied_to(i),
                },
        )
    }
}

/// The tables of one proof instance.
pub struct TestCircuit {
    pub tables: Tables,
}

impl TestCircuit {
    pub fn new(tables: Tables) -> (circuit: TestCircuit)
        ensures
            circuit.tables == tables,
    {
        TestCircuit { tables }
    }

    /// The circuit of no trace over no image, which has the shape of every
    /// circuit.
    pub fn without_witnesses() -> (circuit: TestCircuit)
        ensures
            circuit.tables.execution_table.etable@.len() == 0,
            circuit.tables.execution_table.jtable@.len() == 0,
            circuit.tables.pre_image_table.itable@.len() == 0,
            circuit.tables.pre_image_table.imtable@.len() == 0,
            circuit.tables.pre_image_table.elem_table@.len() == 0,
            circuit.tables.pre_image_table.static_jtable@.len() == 0,
            circuit.tables.pre_image_table.initialization_state.spec_plain() == Seq::new(
                12,
                |i: int| 0u32,
            ),
    {
        TestCircuit {
            tables: Tables {
                pre_image_table: CompilationTable {
                    itable: InstructionTable::new(Vec::new()),
                    imtable: InitMemoryTable::new(Vec::new()),
                    elem_table: ElemTable::new(Vec::new()),
                    static_jtable: Vec::new(),
                    initialization_state: InitializationState::default(),
                },
                execution_table: ExecutionTable {
                    etable: EventTable::new(Vec::new()),
                    jtable: JumpTable::new(Vec::new()),
                },
                post_image_table: CompilationTable {
                    itable: InstructionTable::new(Vec::new()),
                    imtable: InitMemoryTable::new(Vec::new()),
                    elem_table: ElemTable::new(Vec::new()),
                    static_jtable: Vec::new(),
                    initialization_state: InitializationState::default(),
                },
            },
        }
    }

    /// Encodes all tables under `config`.
    ///
    /// Fails where the trace has no memory table; else, with the memory table
    /// that was built, where one of the encoders fails.
    pub fn synthesize(&self, config: &CircuitConfig) -> (r: Result<CircuitAssignment, TraceError>)
        ensures
            ({
                let image = self.tables.pre_image_table.imtable@;
                let events = trace_events(self.tables.execution_table.etable@);
                match r {
                    Ok(assignment) => {
                        &&& missing_init_error(image, events) is None
                        &&& assignment_error(&self.tables, *config, assignment.memory_table@)
                            is None
                        &&& assignment.is_assignment_of(&self.tables, *config)
                    },
                    Err(e) => if missing_init_error(image, events) is Some {
                        Some(e) == missing_init_error(image, events)
                    } else {
                        exists|rows: Seq<MemoryWritingEntry>| #[trigger]
                            is_table_of(rows, image, events) && Some(e) == assignment_error(
                                &self.tables,
                                *config,
                                rows,
                            )
                    },
                }
            }),
    {
        let tables = &self.tables;
        let external_host_calls = tables.execution_table.etable.filter_external_host_call_table();
        let memory_table = match tables.create_memory_table() {
            Ok(table) => table,
            Err(e) => {
                return Err(e);
            },
        };
        let ghost rows = memory_table@;
        let event = match EventTableChip::new(config.max_available_rows).assign(
            &tables.execution_table.etable,
            &tables.pre_image_table.initialization_state,
        ) {
            Ok(event) => event,
            Err(e) => {
                proof {
                    assert(is_table_of(
                        rows,
                        tables.pre_image_table.imtable@,
                        trace_events(tables.execution_table.etable@),
                    ));
                }
                return Err(e);
            },
        };
        let memory = match MemoryTableChip::new(config.max_available_rows).assign(
            Some(Cell { region: Region::EventTable, column: REST_MOPS_COLUMN, row: 0 }),
            &memory_table,
            &tables.pre_image_table.imtable,
            config.first_consecutive_zero_memory_offset,
        ) {
            Ok(memory) => memory,
            Err(e) => {
                proof {
                    assert(is_table_of(
                        rows,
                        tables.pre_image_table.imtable@,
                        trace_events(tables.execution_table.etable@),
                    ));
                }
                return Err(e);
            },
        };
        let bit = match BitTableChip::new(config.max_available_rows).assign(
            &tables.execution_table.etable,
        ) {
            Ok(bit) => bit,
            Err(e) => {
                proof {
                    assert(is_table_of(
                        rows,
                        tables.pre_image_table.imtable@,
                        trace_events(tables.execution_table.etable@),
                    ));
                }
                return Err(e);
            },
        };
        let values = match tables.pre_image_table.encode_compilation_table_values(
            config.max_image_table_rows,
        ) {
            Ok(values) => values,
            Err(e) => {
                proof {
                    assert(is_table_of(
                        rows,
                        tables.pre_image_table.imtable@,
                        trace_events(tables.execution_table.etable@),
                    ));
                }
                return Err(e);
            },
        };
        let mut static_frame_cells: Vec<(Cell, Cell)> = Vec::new();
        let mut i: usize = 0;
        while i < STATIC_FRAME_ENTRY_NUMBER
            invariant
                i <= STATIC_FRAME_ENTRY_NUMBER,
                static_frame_cells@.len() == i,
                forall|k: int| 0 <= k < i ==> static_frame_cells@[k] == static_frame_cell_pair(k),
            decreases STATIC_FRAME_ENTRY_NUMBER - i,
        {
            static_frame_cells.push(
                (
                    Cell { region: Region::FrameTable, column: 0, row: i },
                    Cell { region: Region::FrameTable, column: 1, row: i },
                ),
            );
            i += 1;
        }
        let permutation_cells = ImageTableLayouter {
            initialization_state: event.state_cells,
            static_frame_entries: copy_entries(&static_frame_cells),
            lookup_entries: None,
        };
        let image = ImageTableChip::new().assign(&values, &permutation_cells);
        proof {
            let steps = tables.execution_table.etable@;
            lemma_counts_agree(rows, tables.pre_image_table.imtable@, steps);
            lemma_rest_bounded(steps, 0);
            assert(memory.init_rest_mops == event.rows@[0].rest_mops);
            assert(static_frame_cells@ =~= Seq::new(
                STATIC_FRAME_ENTRY_NUMBER as nat,
                |i: int| static_frame_cell_pair(i),
            ));
            assert(image.constraints@.len() == 16);
            assert forall|k: int| 0 <= k < 16 implies permutation_cells.spec_head()[k] == tied_to(
                k,
            ) by {
                if k < 12 {
                    assert(permutation_cells.spec_head()[k]
                        == event.state_cells.spec_plain()[k]);
                }
            }
            assert(image.constraints@ =~= Seq::new(
                (12 + 2 * STATIC_FRAME_ENTRY_NUMBER) as nat,
                |i: int|
                    CellCopy {
                        image: Cell { region: Region::ImageTable, column: 0, row: i as usize },
                        other: tied_to(i),
                    },
            ));
            assert(image.column@ =~= image_table_cells(
                &tables.pre_image_table,
                config.max_image_table_rows as int,
            ));
        }
        Ok(
            CircuitAssignment {
                external_host_calls,
                memory_table,
                event,
                memory,
                bit,
                static_frame_cells,
                image,
            },
        )
    }
}

} // verus!
