//! The event table encoder: one row block for each step and one for the
//! state after the last step.

use crate::circuits::cell::{Cell, Region};
use crate::encode::U256;
use crate::error::{TableKind, TraceError};
use crate::etable::{EventTable, EventTableEntry};
use crate::itable::{Opcode, OpcodeClass};
use crate::step::StepInfo;
use crate::InitializationState;
use vstd::prelude::*;

verus! {

/// Rows of a row block of the event table.
pub const EVENT_TABLE_ENTRY_ROWS: usize = 4;

/// The four streams whose position a step can advance by one.
#[derive(Clone, Copy, Debug, PartialEq, Eq, Structural, Hash)]
pub enum Cursor {
    HostInput,
    ContextInput,
    ContextOutput,
    ExternalHostCall,
}

/// Whether the step `entry` takes one unit of the stream `cursor`.
pub open spec fn consumes(entry: EventTableEntry, cursor: Cursor) -> bool {
    match cursor {
        Cursor::HostInput => entry.spec_is_host_public_input(),
        Cursor::ContextInput => entry.spec_is_context_input_op(),
        Cursor::ContextOutput => entry.spec_is_context_output_op(),
        Cursor::ExternalHostCall => entry.spec_is_external_host_call(),
    }
}

/// How many of the first `n` steps take one unit of the stream `cursor`.
pub open spec fn consumed(entries: Seq<EventTableEntry>, n: int, cursor: Cursor) -> nat
    decreases n,
{
    if n <= 0 || n > entries.len() {
        0
    } else {
        consumed(entries, n - 1, cursor) + if consumes(entries[n - 1], cursor) {
            1nat
        } else {
            0nat
        }
    }
}

/// The rows that step `i` and all steps after it write into the memory
/// table.
pub open spec fn rest_mops(entries: Seq<EventTableEntry>, i: int) -> nat
    decreases entries.len() - i,
{
    if i < 0 || i >= entries.len() {
        0
    } else {
        entries[i].spec_memory_writing_ops() as nat + rest_mops(entries, i + 1)
    }
}

/// The jump operations of step `i` and of all steps after it.
pub open spec fn rest_jops(entries: Seq<EventTableEntry>, i: int) -> nat
    decreases entries.len() - i,
{
    if i < 0 || i >= entries.len() {
        0
    } else {
        entries[i].inst.opcode.spec_jops() as nat + rest_jops(entries, i + 1)
    }
}

/// The cells of one row block.
#[derive(Clone, Copy, Debug, PartialEq, Eq, Structural)]
pub struct EventRow {
    pub enabled: bool,
    /// Index of the one instruction category whose indicator is set.
    pub class: Option<OpcodeClass>,
    pub rest_mops: u64,
    pub rest_jops: u64,
    pub input_index: u64,
    pub context_input_index: u64,
    pub context_output_index: u64,
    pub external_host_call_index: u64,
    pub sp: u32,
    pub mpages: u32,
    pub maximal_memory_pages: u32,
    pub frame_id: u32,
    pub eid: u32,
    pub fid: u32,
    pub iid: u32,
    pub itable_lookup: U256,
    /// Operands and results, for the encoder of the instruction category.
    pub step_info: Option<StepInfo>,
}

/// The position of the stream `cursor` before step `i`.
pub open spec fn cursor_at(
    entries: Seq<EventTableEntry>,
    state: InitializationState<u32>,
    i: int,
    cursor: Cursor,
) -> nat {
    let start = match cursor {
        Cursor::HostInput => state.input_index,
        Cursor::ContextInput => state.context_input_index,
        Cursor::ContextOutput => state.context_output_index,
        Cursor::ExternalHostCall => state.external_host_call_index,
    };
    start as nat + consumed(entries, i, cursor)
}

/// The row block of step `i`.
pub open spec fn step_row(
    entries: Seq<EventTableEntry>,
    state: InitializationState<u32>,
    rest_ops: Seq<(u64, u64)>,
    i: int,
) -> EventRow {
    let entry = entries[i];
    EventRow {
        enabled: true,
        class: Some(entry.inst.opcode.spec_class()),
        rest_mops: rest_ops[i].0,
        rest_jops: rest_ops[i].1,
        input_index: cursor_at(entries, state, i, Cursor::HostInput) as u64,
        context_input_index: cursor_at(entries, state, i, Cursor::ContextInput) as u64,
        context_output_index: cursor_at(entries, state, i, Cursor::ContextOutput) as u64,
        external_host_call_index: cursor_at(entries, state, i, Cursor::ExternalHostCall) as u64,
        sp: entry.sp,
        mpages: entry.allocated_memory_pages,
        maximal_memory_pages: state.maximal_memory_pages,
        frame_id: entry.last_jump_eid,
        eid: entry.eid,
        fid: entry.inst.fid,
        iid: entry.inst.iid,
        itable_lookup: entry.inst.spec_encode(),
        step_info: Some(entry.step_info),
    }
}

/// Whether the trace ends as a trace must: with a return whose successor
/// state exists.
pub open spec fn ends_with_return(entries: Seq<EventTableEntry>) -> bool {
    &&& entries.len() > 0
    &&& entries.last().inst.opcode matches Opcode::Return { drop, .. }
    &&& entries.last().sp + drop <= u32::MAX
    &&& entries.last().eid < u32::MAX
}

/// Why a trace has no event table of room for `capability` steps, if it has
/// none: it is too long, or it does not end as a trace must.
pub open spec fn event_table_error(entries: Seq<EventTableEntry>, capability: usize) -> Option<
    TraceError,
> {
    if entries.len() > capability {
        Some(
            TraceError::CapacityExceeded {
                table: TableKind::Event,
                required: entries.len() as usize,
                capacity: capability,
            },
        )
    } else if entries.len() > 0 && !ends_with_return(entries) {
        Some(TraceError::MalformedTerminalTrace { eid: entries.last().eid })
    } else {
        None
    }
}

/// The row block of the state after the last step: nothing is left to do,
/// the stack has dropped what the return drops, and no function is running.
pub open spec fn terminal_row(entries: Seq<EventTableEntry>, state: InitializationState<u32>)
    -> EventRow {
    let last = entries.last();
    let n = entries.len() as int;
    EventRow {
        enabled: false,
        class: None,
        rest_mops: 0,
        rest_jops: 0,
        input_index: cursor_at(entries, state, n, Cursor::HostInput) as u64,
        context_input_index: cursor_at(entries, state, n, Cursor::ContextInput) as u64,
        context_output_index: cursor_at(entries, state, n, Cursor::ContextOutput) as u64,
        external_host_call_index: cursor_at(entries, state, n, Cursor::ExternalHostCall) as u64,
        sp: (last.sp + match last.inst.opcode {
            Opcode::Return { drop, .. } => drop,
            _ => 0,
        }) as u32,
        mpages: last.allocated_memory_pages,
        maximal_memory_pages: state.maximal_memory_pages,
        frame_id: 0,
        eid: (last.eid + 1) as u32,
        fid: 0,
        iid: 0,
        itable_lookup: U256 { l0: 0, l1: 0, l2: 0, l3: 0 },
        step_info: None,
    }
}

/// The one row block of an empty trace: disabled, and nothing else assigned.
pub open spec fn disabled_row() -> EventRow {
    EventRow {
        enabled: false,
        class: None,
        rest_mops: 0,
        rest_jops: 0,
        input_index: 0,
        context_input_index: 0,
        context_output_index: 0,
        external_host_call_index: 0,
        sp: 0,
        mpages: 0,
        maximal_memory_pages: 0,
        frame_id: 0,
        eid: 0,
        fid: 0,
        iid: 0,
        itable_lookup: U256 { l0: 0, l1: 0, l2: 0, l3: 0 },
        step_info: None,
    }
}

/// The row blocks of a trace: those of its steps, then the terminal one.
pub open spec fn event_rows(
    entries: Seq<EventTableEntry>,
    state: InitializationState<u32>,
    rest_ops: Seq<(u64, u64)>,
) -> Seq<EventRow> {
    if entries.len() == 0 {
        seq![disabled_row()]
    } else {
        Seq::new(entries.len(), |i: int| step_row(entries, state, rest_ops, i)).push(
            terminal_row(entries, state),
        )
    }
}

/// The counters of a trace, step by step.
pub open spec fn rest_counters(entries: Seq<EventTableEntry>) -> Seq<(u64, u64)> {
    Seq::new(entries.len(), |i: int| (rest_mops(entries, i) as u64, rest_jops(entries, i) as u64))
}

/// No step writes more than two rows into the memory table or costs more
/// than one jump operation.
pub proof fn lemma_rest_bounded(entries: Seq<EventTableEntry>, i: int)
    requires
        0 <= i <= entries.len(),
    ensures
        rest_mops(entries, i) <= 2 * (entries.len() - i),
        rest_jops(entries, i) <= entries.len() - i,
    decreases entries.len() - i,
{
    if i < entries.len() {
        lemma_rest_bounded(entries, i + 1);
    }
}

/// No stream is consumed more often than there are steps.
pub proof fn lemma_consumed_bounded(entries: Seq<EventTableEntry>, n: int, cursor: Cursor)
    requires
        0 <= n <= entries.len(),
    ensures
        consumed(entries, n, cursor) <= n,
    decreases n,
{
    if n > 0 {
        lemma_consumed_bounded(entries, n - 1, cursor);
    }
}

/// The fixed cells of the event table.
pub struct EventTableFixed {
    /// The step selector, row by row: set on the first row of each row block.
    pub step_sel: Vec<bool>,
    /// The row at which the count of rows still to be written into the memory
    /// table is pinned to zero.
    pub rest_mops_terminator: usize,
}

/// Everything the event table holds.
pub struct EventTableAssignment {
    pub fixed: EventTableFixed,
    pub state_cells: InitializationState<Cell>,
    pub rows: Vec<EventRow>,
}

impl EventTableAssignment {
    /// Whether `self` is what the event table of room for `capability` steps
    /// holds for the trace `entries` that starts from `state`.
    pub open spec fn is_assignment_of(
        &self,
        entries: Seq<EventTableEntry>,
        state: InitializationState<u32>,
        capability: usize,
    ) -> bool {
        &&& self.rows@ == event_rows(entries, state, rest_counters(entries))
        &&& self.fixed.step_sel@.len() == capability * EVENT_TABLE_ENTRY_ROWS
        &&& forall|r: int|
            0 <= r < self.fixed.step_sel@.len() ==> #[trigger] self.fixed.step_sel@[r] == (r
                % EVENT_TABLE_ENTRY_ROWS as int == 0)
        &&& self.fixed.rest_mops_terminator == capability * EVENT_TABLE_ENTRY_ROWS
        &&& forall|i: int|
            0 <= i < 12 ==> #[trigger] self.state_cells.spec_plain()[i] == (Cell {
                region: Region::EventTable,
                column: i as usize,
                row: 0,
            })
    }
}

pub struct EventTableChip {
    pub max_available_rows: usize,
}

impl EventTableChip {
    pub fn new(max_available_rows: usize) -> (chip: EventTableChip)
        ensures
            chip.max_available_rows == max_available_rows,
    {
        EventTableChip { max_available_rows }
    }

    /// How many steps the table has room for.
    pub open spec fn spec_capability(&self) -> usize {
        self.max_available_rows / EVENT_TABLE_ENTRY_ROWS
    }

    #[verifier::when_used_as_spec(spec_capability)]
    pub fn capability(&self) -> (r: usize)
        ensures
            r == self.spec_capability(),
    {
        self.max_available_rows / EVENT_TABLE_ENTRY_ROWS
    }

    /// For every step, the rows that this step and all steps after it write
    /// into the memory table, and the jump operations that they cost. The
    /// trace must be short enough for its counts to be numbers of the machine.
    pub fn compute_rest_mops_and_jops(&self, event_table: &EventTable) -> (rest_ops: Vec<
        (u64, u64),
    >)
        requires
            event_table@.len() <= usize::MAX / 2,
        ensures
            rest_ops@.len() == event_table@.len(),
            forall|i: int|
                0 <= i < event_table@.len() ==> (#[trigger] rest_ops@[i]).0 == rest_mops(
                    event_table@,
                    i,
                ) && rest_ops@[i].1 == rest_jops(event_table@, i),
    {
        let entries = event_table.entries();
        let n = entries.len();
        let mut backwards: Vec<(u64, u64)> = Vec::new();
        let mut mops: u64 = 0;
        let mut jops: u64 = 0;
        let mut k: usize = n;
        while k > 0
            invariant
                k <= n,
                n == entries@.len(),
                n <= usize::MAX / 2,
                backwards@.len() == n - k,
                mops == rest_mops(entries@, k as int),
                jops == rest_jops(entries@, k as int),
                forall|a: int|
                    0 <= a < n - k ==> (#[trigger] backwards@[a]).0 == rest_mops(
                        entries@,
                        n - 1 - a,
                    ) && backwards@[a].1 == rest_jops(entries@, n - 1 - a),
            decreases k,
        {
            proof {
                lemma_rest_bounded(entries@, k as int);
            }
            k -= 1;
            mops += entries[k].memory_writing_ops() as u64;
            jops += entries[k].inst.opcode.jops() as u64;
            backwards.push((mops, jops));
        }
        let mut rest_ops: Vec<(u64, u64)> = Vec::new();
        let mut a: usize = n;
        while a > 0
            invariant
                a <= n,
                backwards@.len() == n,
                rest_ops@.len() == n - a,
                forall|b: int| 0 <= b < n - a ==> #[trigger] rest_ops@[b] == backwards@[n - 1 - b],
            decreases a,
        {
            a -= 1;
            rest_ops.push(backwards[a]);
        }
        rest_ops
    }

    /// The fixed cells: a step selector for each row block that the table has
    /// room for, and after the last of them the row that pins the count of
    /// memory accesses that are still to come to zero.
    pub fn init(&self) -> (fixed: EventTableFixed)
        ensures
            fixed.step_sel@.len() == self.capability() * EVENT_TABLE_ENTRY_ROWS,
            forall|r: int|
                0 <= r < fixed.step_sel@.len() ==> #[trigger] fixed.step_sel@[r] == (r
                    % EVENT_TABLE_ENTRY_ROWS as int == 0),
            fixed.rest_mops_terminator == self.capability() * EVENT_TABLE_ENTRY_ROWS,
    {
        let capability = self.capability();
        let mut step_sel: Vec<bool> = Vec::new();
        let mut block: usize = 0;
        while block < capability
            invariant
                block <= capability,
                capability == self.max_available_rows / EVENT_TABLE_ENTRY_ROWS,
                step_sel@.len() == block * EVENT_TABLE_ENTRY_ROWS,
                forall|r: int|
                    0 <= r < step_sel@.len() ==> #[trigger] step_sel@[r] == (r
                        % EVENT_TABLE_ENTRY_ROWS as int == 0),
            decreases capability - block,
        {
            step_sel.push(true);
            step_sel.push(false);
            step_sel.push(false);
            step_sel.push(false);
            block += 1;
        }
        EventTableFixed { step_sel, rest_mops_terminator: capability * EVENT_TABLE_ENTRY_ROWS }
    }

    /// The cells of the first row block that hold the checkpoint the trace
    /// starts from, field by field in the fixed order, each with the value it
    /// is given.
    pub fn assign_initialization_state(&self, initialization_state: &InitializationState<u32>) -> (r:
        (InitializationState<U256>, InitializationState<Cell>))
        ensures
            forall|i: int|
                0 <= i < 12 ==> (#[trigger] r.0.spec_plain()[i]).value()
                    == initialization_state.spec_plain()[i],
            forall|i: int|
                0 <= i < 12 ==> #[trigger] r.1.spec_plain()[i] == (Cell {
                    region: Region::EventTable,
                    column: i as usize,
                    row: 0,
                }),
    {
        let s = initialization_state;
        let values = InitializationState {
            eid: U256::from_u32(s.eid),
            fid: U256::from_u32(s.fid),
            iid: U256::from_u32(s.iid),
            frame_id: U256::from_u32(s.frame_id),
            sp: U256::from_u32(s.sp),
            initial_memory_pages: U256::from_u32(s.initial_memory_pages),
            maximal_memory_pages: U256::from_u32(s.maximal_memory_pages),
            input_index: U256::from_u32(s.input_index),
            context_input_index: U256::from_u32(s.context_input_index),
            context_output_index: U256::from_u32(s.context_output_index),
            external_host_call_index: U256::from_u32(s.external_host_call_index),
            jops: U256::from_u32(s.jops),
        };
        let cells = InitializationState {
            eid: Cell { region: Region::EventTable, column: 0, row: 0 },
            fid: Cell { region: Region::EventTable, column: 1, row: 0 },
            iid: Cell { region: Region::EventTable, column: 2, row: 0 },
            frame_id: Cell { region: Region::EventTable, column: 3, row: 0 },
            sp: Cell { region: Region::EventTable, column: 4, row: 0 },
            initial_memory_pages: Cell { region: Region::EventTable, column: 5, row: 0 },
            maximal_memory_pages: Cell { region: Region::EventTable, column: 6, row: 0 },
            input_index: Cell { region: Region::EventTable, column: 7, row: 0 },
            context_input_index: Cell { region: Region::EventTable, column: 8, row: 0 },
            context_output_index: Cell { region: Region::EventTable, column: 9, row: 0 },
            external_host_call_index: Cell { region: Region::EventTable, column: 10, row: 0 },
            jops: Cell { region: Region::EventTable, column: 11, row: 0 },
        };
        (values, cells)
    }

    /// The row blocks of the trace: one for each step, with the counters that
    /// `rest_ops` gives for it and the positions of the four streams before
    /// it, and one for the state after the last step.
    ///
    /// An empty trace has the one disabled row block. A trace that the table
    /// has no room for is refused, and so is one that does not end with a
    /// return.
    pub fn assign_entries(
        &self,
        event_table: &EventTable,
        initialization_state: &InitializationState<u32>,
        rest_ops: &Vec<(u64, u64)>,
    ) -> (r: Result<Vec<EventRow>, TraceError>)
        requires
            rest_ops@.len() == event_table@.len(),
        ensures
            match r {
                Ok(rows) => {
                    &&& event_table_error(event_table@, self.capability()) is None
                    &&& rows@ == event_rows(event_table@, *initialization_state, rest_ops@)
                },
                Err(e) => Some(e) == event_table_error(event_table@, self.capability()),
            },
    {
        let entries = event_table.entries();
        let state = initialization_state;
        let n = entries.len();
        let capability = self.capability();
        if n > capability {
            return Err(
                TraceError::CapacityExceeded {
                    table: TableKind::Event,
                    required: n,
                    capacity: capability,
                },
            );
        }
        let mut rows: Vec<EventRow> = Vec::new();
        if n == 0 {
            rows.push(
                EventRow {
                    enabled: false,
                    class: None,
                    rest_mops: 0,
                    rest_jops: 0,
                    input_index: 0,
                    context_input_index: 0,
                    context_output_index: 0,
                    external_host_call_index: 0,
                    sp: 0,
                    mpages: 0,
                    maximal_memory_pages: 0,
                    frame_id: 0,
                    eid: 0,
                    fid: 0,
                    iid: 0,
                    itable_lookup: U256::zero(),
                    step_info: None,
                },
            );
            proof {
                assert(rows@ =~= event_rows(event_table@, *state, rest_ops@));
            }
            return Ok(rows);
        }
        let last = entries[n - 1];
        let terminal_sp = match last.inst.opcode {
            Opcode::Return { drop, .. } => {
                if last.eid == u32::MAX || drop > u32::MAX - last.sp {
                    return Err(TraceError::MalformedTerminalTrace { eid: last.eid });
                }
                last.sp + drop
            },
            _ => {
                return Err(TraceError::MalformedTerminalTrace { eid: last.eid });
            },
        };
        let mut host_public_inputs: u64 = state.input_index as u64;
        let mut context_in_index: u64 = state.context_input_index as u64;
        let mut context_out_index: u64 = state.context_output_index as u64;
        let mut external_host_call_index: u64 = state.external_host_call_index as u64;
        let mut index: usize = 0;
        while index < n
            invariant
                index <= n,
                n == entries@.len(),
                n <= usize::MAX / 4,
                entries@ == event_table@,
                rest_ops@.len() == n,
                rows@.len() == index,
                host_public_inputs == cursor_at(entries@, *state, index as int, Cursor::HostInput),
                context_in_index == cursor_at(
                    entries@,
                    *state,
                    index as int,
                    Cursor::ContextInput,
                ),
                context_out_index == cursor_at(
                    entries@,
                    *state,
                    index as int,
                    Cursor::ContextOutput,
                ),
                external_host_call_index == cursor_at(
                    entries@,
                    *state,
                    index as int,
                    Cursor::ExternalHostCall,
                ),
                forall|i: int|
                    0 <= i < index ==> #[trigger] rows@[i] == step_row(
                        entries@,
                        *state,
                        rest_ops@,
                        i,
                    ),
            decreases n - index,
        {
            let entry = entries[index];
            proof {
                lemma_consumed_bounded(entries@, index as int, Cursor::HostInput);
                lemma_consumed_bounded(entries@, index as int, Cursor::ContextInput);
                lemma_consumed_bounded(entries@, index as int, Cursor::ContextOutput);
                lemma_consumed_bounded(entries@, index as int, Cursor::ExternalHostCall);
            }
            rows.push(
                EventRow {
                    enabled: true,
                    class: Some(entry.inst.opcode.class()),
                    rest_mops: rest_ops[index].0,
                    rest_jops: rest_ops[index].1,
                    input_index: host_public_inputs,
                    context_input_index: context_in_index,
                    context_output_index: context_out_index,
                    external_host_call_index,
                    sp: entry.sp,
                    mpages: entry.allocated_memory_pages,
                    maximal_memory_pages: state.maximal_memory_pages,
                    frame_id: entry.last_jump_eid,
                    eid: entry.eid,
                    fid: entry.inst.fid,
                    iid: entry.inst.iid,
                    itable_lookup: entry.inst.encode(),
                    step_info: Some(entry.step_info),
                },
            );
            if entry.is_host_public_input() {
                host_public_inputs += 1;
            }
            if entry.is_context_input_op() {
                context_in_index += 1;
            }
            if entry.is_context_output_op() {
                context_out_index += 1;
            }
            if entry.is_external_host_call() {
                external_host_call_index += 1;
            }
            index += 1;
        }
        rows.push(
            EventRow {
                enabled: false,
                class: None,
                rest_mops: 0,
                rest_jops: 0,
                input_index: host_public_inputs,
                context_input_index: context_in_index,
                context_output_index: context_out_index,
                external_host_call_index,
                sp: terminal_sp,
                mpages: last.allocated_memory_pages,
                maximal_memory_pages: state.maximal_memory_pages,
                frame_id: 0,
                eid: last.eid + 1,
                fid: 0,
                iid: 0,
                itable_lookup: U256::zero(),
                step_info: None,
            },
        );
        proof {
            assert(entries@.last() == last);
            assert(rows@ =~= event_rows(event_table@, *state, rest_ops@));
        }
        Ok(rows)
    }

    /// Everything the event table holds for a trace that starts from the
    /// checkpoint `initialization_state`.
    pub fn assign(
        &self,
        event_table: &EventTable,
        initialization_state: &InitializationState<u32>,
    ) -> (r: Result<EventTableAssignment, TraceError>)
        ensures
            match r {
                Ok(assignment) => {
                    &&& event_table_error(event_table@, self.capability()) is None
                    &&& assignment.is_assignment_of(
                        event_table@,
                        *initialization_state,
                        self.capability(),
                    )
                },
                Err(e) => Some(e) == event_table_error(event_table@, self.capability()),
            },
    {
        if event_table.entries().len() > self.capability() {
            return Err(
                TraceError::CapacityExceeded {
                    table: TableKind::Event,
                    required: event_table.entries().len(),
                    capacity: self.capability(),
                },
            );
        }
        let rest_ops = self.compute_rest_mops_and_jops(event_table);
        proof {
            assert forall|i: int| 0 <= i < event_table@.len() implies rest_ops@[i]
                == #[trigger] rest_counters(event_table@)[i] by {
                lemma_rest_bounded(event_table@, i);
            }
            assert(rest_ops@ =~= rest_counters(event_table@));
        }
        let rows = match self.assign_entries(event_table, initialization_state, &rest_ops) {
            Ok(rows) => rows,
            Err(e) => {
                return Err(e);
            },
        };
        let fixed = self.init();
        let (_, state_cells) = self.assign_initialization_state(initialization_state);
        Ok(EventTableAssignment { fixed, state_cells, rows })
    }
}

/// The counters reach zero. The terminal row block has nothing left to do,
/// and before it each counter falls by exactly what the step contributes.
pub proof fn lemma_rest_counters_reach_zero(
    entries: Seq<EventTableEntry>,
    state: InitializationState<u32>,
)
    requires
        0 < entries.len() <= usize::MAX / 2,
    ensures
        ({
            let rows = event_rows(entries, state, rest_counters(entries));
            &&& rows.len() == entries.len() + 1
            &&& rows.last().rest_mops == 0
            &&& rows.last().rest_jops == 0
            &&& forall|i: int|
                0 <= i < entries.len() ==> (#[trigger] rows[i]).rest_mops == rows[i + 1].rest_mops
                    + entries[i].spec_memory_writing_ops() && rows[i].rest_jops == rows[i
                    + 1].rest_jops + entries[i].inst.opcode.spec_jops()
        }),
{
    let rows = event_rows(entries, state, rest_counters(entries));
    assert forall|i: int| 0 <= i < entries.len() implies (#[trigger] rows[i]).rest_mops == rows[i
        + 1].rest_mops + entries[i].spec_memory_writing_ops() && rows[i].rest_jops == rows[i
        + 1].rest_jops + entries[i].inst.opcode.spec_jops() by {
        lemma_rest_bounded(entries, i);
        lemma_rest_bounded(entries, i + 1);
        assert(rows[i] == step_row(entries, state, rest_counters(entries), i));
        if i + 1 < entries.len() {
            assert(rows[i + 1] == step_row(entries, state, rest_counters(entries), i + 1));
        } else {
            assert(rows[i + 1] == terminal_row(entries, state));
        }
    }
}

/// Cursor monotonicity. From one row block to the next, each of the four
/// stream positions stays or grows by one.
pub proof fn lemma_cursors_monotone(
    entries: Seq<EventTableEntry>,
    state: InitializationState<u32>,
    rest_ops: Seq<(u64, u64)>,
    i: int,
)
    requires
        0 <= i < entries.len(),
        entries.len() <= usize::MAX / 4,
    ensures
        ({
            let rows = event_rows(entries, state, rest_ops);
            let (a, b) = (rows[i], rows[i + 1]);
            &&& b.input_index == a.input_index + if consumes(entries[i], Cursor::HostInput) {
                1int
            } else {
                0int
            }
            &&& b.context_input_index == a.context_input_index + if consumes(
                entries[i],
                Cursor::ContextInput,
            ) {
                1int
            } else {
                0int
            }
            &&& b.context_output_index == a.context_output_index + if consumes(
                entries[i],
                Cursor::ContextOutput,
            ) {
                1int
            } else {
                0int
            }
            &&& b.external_host_call_index == a.external_host_call_index + if consumes(
                entries[i],
                Cursor::ExternalHostCall,
            ) {
                1int
            } else {
                0int
            }
        }),
{
    lemma_consumed_bounded(entries, i, Cursor::HostInput);
    lemma_consumed_bounded(entries, i, Cursor::ContextInput);
    lemma_consumed_bounded(entries, i, Cursor::ContextOutput);
    lemma_consumed_bounded(entries, i, Cursor::ExternalHostCall);
    lemma_consumed_bounded(entries, i + 1, Cursor::HostInput);
    lemma_consumed_bounded(entries, i + 1, Cursor::ContextInput);
    lemma_consumed_bounded(entries, i + 1, Cursor::ContextOutput);
    lemma_consumed_bounded(entries, i + 1, Cursor::ExternalHostCall);
}

} // verus!
