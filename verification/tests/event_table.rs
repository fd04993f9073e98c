use zkwasm::circuits::cell::{Cell, Region};
use zkwasm::circuits::etable::{EventRow, EventTableChip, EVENT_TABLE_ENTRY_ROWS};
use zkwasm::encode::U256;
use zkwasm::error::{TableKind, TraceError};
use zkwasm::etable::{EventTable, EventTableEntry};
use zkwasm::itable::{
    ExternalHostCallSignature, HostFunction, InstructionTableEntry, Opcode, OpcodeClass,
};
use zkwasm::mtable::VarType;
use zkwasm::step::StepInfo;
use zkwasm::InitializationState;

fn entry(eid: u32, opcode: Opcode, step_info: StepInfo) -> EventTableEntry {
    EventTableEntry {
        eid,
        inst: InstructionTableEntry { fid: 2, iid: eid + 10, opcode },
        sp: 4000 - eid,
        last_jump_eid: 1,
        allocated_memory_pages: 3,
        step_info,
    }
}

fn constant(eid: u32) -> EventTableEntry {
    entry(
        eid,
        Opcode::Const { vtype: VarType::I32, value: 1 },
        StepInfo::Const { vtype: VarType::I32, value: 1 },
    )
}

fn call(eid: u32) -> EventTableEntry {
    entry(eid, Opcode::Call { index: 4 }, StepInfo::Call { index: 4 })
}

fn store(eid: u32) -> EventTableEntry {
    entry(
        eid,
        Opcode::Store { vtype: VarType::I64, offset: 0 },
        StepInfo::Store { vtype: VarType::I64, offset: 0, from_slot: 1, value: 1 },
    )
}

fn host(eid: u32, function: HostFunction) -> EventTableEntry {
    entry(
        eid,
        Opcode::CallHost { function },
        StepInfo::CallHost { function, is_public: true, value: 5 },
    )
}

fn external(eid: u32) -> EventTableEntry {
    entry(
        eid,
        Opcode::ExternalHostCall { op: 7, sig: ExternalHostCallSignature::Return },
        StepInfo::ExternalHostCall { op: 7, value: 1, sig: ExternalHostCallSignature::Return },
    )
}

fn ret(eid: u32, drop: u32) -> EventTableEntry {
    entry(eid, Opcode::Return { drop, keep: 0 }, StepInfo::Return { drop, keep: 0 })
}

fn start() -> InitializationState<u32> {
    InitializationState {
        eid: 1,
        fid: 2,
        iid: 11,
        frame_id: 0,
        sp: 3999,
        initial_memory_pages: 3,
        maximal_memory_pages: 16,
        input_index: 1,
        context_input_index: 10,
        context_output_index: 100,
        external_host_call_index: 1000,
        jops: 3,
    }
}

fn trace() -> Vec<EventTableEntry> {
    vec![
        call(1),
        host(2, HostFunction::PublicInput),
        store(3),
        host(4, HostFunction::ContextInput),
        host(5, HostFunction::ContextOutput),
        external(6),
        host(7, HostFunction::PublicInput),
        store(8),
        ret(9, 2),
        ret(10, 5),
    ]
}

fn rows_of(entries: Vec<EventTableEntry>, rows: usize) -> Result<Vec<EventRow>, TraceError> {
    EventTableChip::new(rows).assign(&EventTable::new(entries), &start()).map(|a| a.rows)
}

#[test]
fn rest_counters_are_suffix_sums_and_reach_zero() {
    let chip = EventTableChip::new(1024);
    let rest = chip.compute_rest_mops_and_jops(&EventTable::new(trace()));
    assert_eq!(
        rest,
        vec![(4, 3), (4, 2), (4, 2), (2, 2), (2, 2), (2, 2), (2, 2), (2, 2), (0, 2), (0, 1)]
    );
    let rows = rows_of(trace(), 1024).unwrap();
    assert_eq!(rows.len(), 11);
    for (row, rest) in rows.iter().zip(rest.iter()) {
        assert_eq!((row.rest_mops, row.rest_jops), *rest);
    }
    let terminal = rows.last().unwrap();
    assert_eq!(terminal.rest_mops, 0);
    assert_eq!(terminal.rest_jops, 0);
    assert!(chip.compute_rest_mops_and_jops(&EventTable::new(vec![])).is_empty());
}

#[test]
fn cursors_never_fall_and_rise_by_at_most_one() {
    let rows = rows_of(trace(), 1024).unwrap();
    let input: Vec<u64> = rows.iter().map(|r| r.input_index).collect();
    let context_in: Vec<u64> = rows.iter().map(|r| r.context_input_index).collect();
    let context_out: Vec<u64> = rows.iter().map(|r| r.context_output_index).collect();
    let external: Vec<u64> = rows.iter().map(|r| r.external_host_call_index).collect();
    assert_eq!(input, vec![1, 1, 2, 2, 2, 2, 2, 3, 3, 3, 3]);
    assert_eq!(context_in, vec![10, 10, 10, 10, 11, 11, 11, 11, 11, 11, 11]);
    assert_eq!(context_out, vec![100, 100, 100, 100, 100, 101, 101, 101, 101, 101, 101]);
    assert_eq!(external, vec![1000, 1000, 1000, 1000, 1000, 1000, 1001, 1001, 1001, 1001, 1001]);
    for column in [input, context_in, context_out, external] {
        for pair in column.windows(2) {
            assert!(pair[0] <= pair[1] && pair[1] <= pair[0] + 1);
        }
    }
}

#[test]
fn step_rows_hold_the_state_of_their_step() {
    let rows = rows_of(trace(), 1024).unwrap();
    let steps = trace();
    for (row, step) in rows.iter().zip(steps.iter()) {
        assert!(row.enabled);
        assert_eq!(row.class, Some(step.inst.opcode.class()));
        assert_eq!(row.eid, step.eid);
        assert_eq!(row.fid, 2);
        assert_eq!(row.iid, step.eid + 10);
        assert_eq!(row.sp, step.sp);
        assert_eq!(row.frame_id, 1);
        assert_eq!(row.mpages, 3);
        assert_eq!(row.maximal_memory_pages, 16);
        assert_eq!(row.itable_lookup, step.inst.encode());
        assert_eq!(row.step_info, Some(step.step_info));
    }
    assert_eq!(rows[10].step_info, None);
    assert_eq!(rows[0].class, Some(OpcodeClass::Call));
    assert_eq!(rows[2].class, Some(OpcodeClass::Store));
}

#[test]
fn terminal_row_is_the_state_after_the_last_return() {
    let rows = rows_of(trace(), 1024).unwrap();
    let terminal = rows[10];
    assert!(!terminal.enabled);
    assert_eq!(terminal.class, None);
    assert_eq!(terminal.eid, 11);
    assert_eq!(terminal.fid, 0);
    assert_eq!(terminal.iid, 0);
    assert_eq!(terminal.frame_id, 0);
    assert_eq!(terminal.sp, 3990 + 5);
    assert_eq!(terminal.mpages, 3);
    assert_eq!(terminal.maximal_memory_pages, 16);
    assert_eq!(terminal.itable_lookup, U256::zero());
}

#[test]
fn trace_that_does_not_end_with_a_return_is_refused() {
    let mut steps = trace();
    steps.pop();
    steps.pop();
    assert_eq!(
        rows_of(steps, 1024).err(),
        Some(TraceError::MalformedTerminalTrace { eid: 8 })
    );
    let mut last = ret(7, 1);
    last.eid = u32::MAX;
    assert_eq!(
        rows_of(vec![last], 1024).err(),
        Some(TraceError::MalformedTerminalTrace { eid: u32::MAX })
    );
    let mut deep = ret(7, u32::MAX);
    deep.sp = 1;
    assert_eq!(
        rows_of(vec![deep], 1024).err(),
        Some(TraceError::MalformedTerminalTrace { eid: 7 })
    );
    let mut fits = ret(7, u32::MAX - 1);
    fits.sp = 1;
    assert_eq!(rows_of(vec![fits], 1024).unwrap()[1].sp, u32::MAX);
}

#[test]
fn trace_longer_than_the_table_is_refused() {
    let rows = 10 * EVENT_TABLE_ENTRY_ROWS;
    assert_eq!(rows_of(trace(), rows).unwrap().len(), 11);
    assert_eq!(rows_of(trace(), rows + 3).unwrap().len(), 11);
    assert_eq!(
        rows_of(trace(), rows - 1).err(),
        Some(TraceError::CapacityExceeded { table: TableKind::Event, required: 10, capacity: 9 })
    );
    // Capacity is checked first.
    let mut steps = trace();
    steps.pop();
    assert_eq!(
        rows_of(steps, 8).err(),
        Some(TraceError::CapacityExceeded { table: TableKind::Event, required: 9, capacity: 2 })
    );
}

#[test]
fn empty_trace_has_the_one_disabled_row() {
    let rows = rows_of(vec![], 64).unwrap();
    assert_eq!(rows.len(), 1);
    assert!(!rows[0].enabled);
    assert_eq!(rows[0].class, None);
    assert_eq!(rows[0].eid, 0);
    assert_eq!(rows[0].input_index, 0);
    assert_eq!(rows[0].maximal_memory_pages, 0);
    assert_eq!(rows_of(vec![], 0).unwrap().len(), 1);
}

#[test]
fn fixed_cells_select_the_first_row_of_each_block() {
    let fixed = EventTableChip::new(14).init();
    assert_eq!(fixed.step_sel.len(), 12);
    assert_eq!(fixed.rest_mops_terminator, 12);
    for (row, sel) in fixed.step_sel.iter().enumerate() {
        assert_eq!(*sel, row % 4 == 0);
    }
    assert_eq!(EventTableChip::new(3).init().step_sel.len(), 0);
    assert_eq!(EventTableChip::new(14).capability(), 3);
}

#[test]
fn state_cells_are_those_of_the_first_row() {
    let chip = EventTableChip::new(64);
    let (values, cells) = chip.assign_initialization_state(&start());
    let expected: Vec<U256> = start().plain().into_iter().map(U256::from_u32).collect();
    assert_eq!(values.plain(), expected);
    for (column, cell) in cells.plain().into_iter().enumerate() {
        assert_eq!(cell, Cell { region: Region::EventTable, column, row: 0 });
    }
    let assignment = chip.assign(&EventTable::new(trace()), &start()).unwrap();
    assert_eq!(assignment.state_cells.plain(), cells.plain());
    assert_eq!(assignment.fixed.step_sel.len(), 64);
}

#[test]
fn rows_take_the_counters_they_are_given() {
    let chip = EventTableChip::new(64);
    let steps = vec![constant(1), ret(2, 0)];
    let rows = chip
        .assign_entries(&EventTable::new(steps), &start(), &vec![(40, 50), (60, 70)])
        .unwrap();
    assert_eq!((rows[0].rest_mops, rows[0].rest_jops), (40, 50));
    assert_eq!((rows[1].rest_mops, rows[1].rest_jops), (60, 70));
    assert_eq!((rows[2].rest_mops, rows[2].rest_jops), (0, 0));
}
