use zkwasm::brtable::ElemTable;
use zkwasm::error::TraceError;
use zkwasm::etable::{memory_event_of_step, EventTable, EventTableEntry};
use zkwasm::imtable::{InitMemoryTable, InitMemoryTableEntry};
use zkwasm::itable::{BinOp, InstructionTable, InstructionTableEntry, Opcode};
use zkwasm::jtable::JumpTable;
use zkwasm::mtable::{
    sort_entries, AccessType, LocationType, MTable, MemoryTableEntry, MemoryWritingEntry, VarType,
    END_EID_NEVER,
};
use zkwasm::step::StepInfo;
use zkwasm::{CompilationTable, ExecutionTable, InitializationState, Tables};

fn step(eid: u32, opcode: Opcode, step_info: StepInfo) -> EventTableEntry {
    EventTableEntry {
        eid,
        inst: InstructionTableEntry { fid: 0, iid: eid - 1, opcode },
        sp: 4000,
        last_jump_eid: 0,
        allocated_memory_pages: 1,
        step_info,
    }
}

fn constant(eid: u32, value: u64) -> EventTableEntry {
    step(
        eid,
        Opcode::Const { vtype: VarType::I64, value },
        StepInfo::Const { vtype: VarType::I64, value },
    )
}

fn store(eid: u32, offset: u32, from_slot: u32, value: u64) -> EventTableEntry {
    step(
        eid,
        Opcode::Store { vtype: VarType::I64, offset },
        StepInfo::Store { vtype: VarType::I64, offset, from_slot, value },
    )
}

fn load(eid: u32, offset: u32, to_slot: u32, value: u64) -> EventTableEntry {
    step(
        eid,
        Opcode::Load { vtype: VarType::I64, offset },
        StepInfo::Load { vtype: VarType::I64, offset, to_slot, value },
    )
}

fn tables(entries: Vec<EventTableEntry>, image: Vec<InitMemoryTableEntry>) -> Tables {
    let pre_image_table = CompilationTable {
        itable: InstructionTable::new(vec![]),
        imtable: InitMemoryTable::new(image),
        elem_table: ElemTable::new(vec![]),
        static_jtable: vec![],
        initialization_state: InitializationState::default(),
    };
    Tables {
        post_image_table: pre_image_table.clone(),
        pre_image_table,
        execution_table: ExecutionTable {
            etable: EventTable::new(entries),
            jtable: JumpTable::new(vec![]),
        },
    }
}

fn access(
    eid: u32,
    emid: u32,
    ltype: LocationType,
    offset: u32,
    atype: AccessType,
    value: u64,
) -> MemoryTableEntry {
    MemoryTableEntry { eid, emid, offset, ltype, atype, vtype: VarType::I64, is_mutable: true, value }
}

fn rows_at(table: &MTable, ltype: LocationType, offset: u32) -> Vec<MemoryWritingEntry> {
    table
        .entries()
        .iter()
        .filter(|row| row.entry.ltype == ltype && row.entry.offset == offset)
        .copied()
        .collect()
}

#[test]
fn write_then_read_of_uninitialized_heap_cell() {
    let trace = vec![
        constant(1, 0),
        constant(2, 7),
        store(3, 0, 3998, 7),
        step(
            4,
            Opcode::Bin { class: BinOp::Add, vtype: VarType::I64 },
            StepInfo::I64BinOp { class: BinOp::Add, left: 1, right: 2, value: 3 },
        ),
        load(5, 0, 3999, 7),
    ];
    let table = tables(trace, vec![]).create_memory_table().unwrap();
    let heap = rows_at(&table, LocationType::Heap, 0);
    assert_eq!(heap.len(), 3);

    assert_eq!(heap[0].entry.atype, AccessType::Init);
    assert_eq!(heap[0].entry.value, 0);
    assert!(heap[0].entry.eid < 3);
    assert_eq!(heap[0].entry.eid, 0);
    assert_eq!(heap[0].end_eid, 3);

    assert_eq!(heap[1].entry.atype, AccessType::Write);
    assert_eq!(heap[1].entry.eid, 3);
    assert_eq!(heap[1].entry.value, 7);
    assert_eq!(heap[1].end_eid, 5);

    assert_eq!(heap[2].entry.atype, AccessType::Read);
    assert_eq!(heap[2].entry.eid, 5);
    assert_eq!(heap[2].entry.value, 7);
    assert_eq!(heap[2].end_eid, END_EID_NEVER);

    // The two stack slots that the moves touch have one access each and no
    // initialization.
    assert_eq!(table.entries().len(), 5);
    let source = rows_at(&table, LocationType::Stack, 3998);
    assert_eq!(source.len(), 1);
    assert_eq!(source[0].entry.atype, AccessType::Read);
    assert_eq!(source[0].end_eid, END_EID_NEVER);
    let target = rows_at(&table, LocationType::Stack, 3999);
    assert_eq!(target.len(), 1);
    assert_eq!(target[0].entry.atype, AccessType::Write);
}

#[test]
fn steps_expand_to_one_read_and_one_write_or_to_nothing() {
    let moved = memory_event_of_step(&store(9, 40, 17, 5));
    assert_eq!(
        moved,
        vec![
            access(9, 1, LocationType::Stack, 17, AccessType::Read, 5),
            access(9, 2, LocationType::Heap, 40, AccessType::Write, 5),
        ]
    );
    let loaded = memory_event_of_step(&load(4, 8, 3, 11));
    assert_eq!(
        loaded,
        vec![
            access(4, 1, LocationType::Heap, 8, AccessType::Read, 11),
            access(4, 2, LocationType::Stack, 3, AccessType::Write, 11),
        ]
    );
    let global = memory_event_of_step(&step(
        2,
        Opcode::GlobalSet { idx: 6 },
        StepInfo::GlobalSet {
            idx: 6,
            vtype: VarType::I32,
            is_mutable: true,
            from_slot: 12,
            value: 99,
        },
    ));
    assert_eq!(global.len(), 2);
    assert_eq!(global[0].ltype, LocationType::Stack);
    assert_eq!(global[1].ltype, LocationType::Global);
    assert_eq!(global[1].offset, 6);
    assert_eq!(global[1].vtype, VarType::I32);
    assert_eq!(global[1].atype, AccessType::Write);
    assert!(memory_event_of_step(&constant(1, 3)).is_empty());
    assert_eq!(store(9, 40, 17, 5).memory_writing_ops(), 2);
    assert_eq!(constant(1, 3).memory_writing_ops(), 0);
}

#[test]
fn read_without_initial_value_is_refused() {
    let trace = vec![constant(1, 0), load(2, 16, 3999, 0)];
    let r = tables(trace, vec![]).create_memory_table();
    assert_eq!(
        r.err(),
        Some(TraceError::MissingInitValue { ltype: LocationType::Heap, offset: 16 })
    );
}

#[test]
fn first_missing_value_is_reported() {
    let events = vec![
        access(1, 1, LocationType::Heap, 5, AccessType::Write, 1),
        access(2, 1, LocationType::Global, 9, AccessType::Read, 1),
        access(3, 1, LocationType::Heap, 7, AccessType::Read, 1),
    ];
    let r = MTable::new(events, &InitMemoryTable::new(vec![]));
    assert_eq!(
        r.err(),
        Some(TraceError::MissingInitValue { ltype: LocationType::Global, offset: 9 })
    );
}

#[test]
fn read_after_write_in_the_same_step_needs_the_earlier_access() {
    let image = InitMemoryTable::new(vec![]);
    let good = vec![
        access(4, 1, LocationType::Heap, 5, AccessType::Write, 1),
        access(4, 2, LocationType::Heap, 5, AccessType::Read, 1),
    ];
    assert!(MTable::new(good, &image).is_ok());
    let bad = vec![
        access(4, 1, LocationType::Heap, 5, AccessType::Read, 0),
        access(4, 2, LocationType::Heap, 5, AccessType::Write, 1),
    ];
    assert!(MTable::new(bad, &image).is_err());
    // Events need not come in trace order: what counts is the execution id.
    let shuffled = vec![
        access(6, 1, LocationType::Heap, 5, AccessType::Read, 1),
        access(2, 1, LocationType::Heap, 5, AccessType::Write, 1),
    ];
    assert!(MTable::new(shuffled, &image).is_ok());
}

#[test]
fn read_of_stack_needs_no_initial_value() {
    let events = vec![access(1, 1, LocationType::Stack, 5, AccessType::Read, 1)];
    let table = MTable::new(events, &InitMemoryTable::new(vec![])).unwrap();
    assert_eq!(table.entries().len(), 1);
    assert_eq!(table.entries()[0].entry.atype, AccessType::Read);
}

#[test]
fn value_of_the_image_takes_precedence_over_zero() {
    let image = vec![
        InitMemoryTableEntry { ltype: LocationType::Heap, is_mutable: true, offset: 0, value: 41 },
        InitMemoryTableEntry { ltype: LocationType::Global, is_mutable: false, offset: 0, value: 5 },
    ];
    let trace = vec![constant(1, 7), store(2, 0, 3998, 7), load(3, 0, 3999, 7), load(4, 1, 3999, 0)];
    let r = tables(trace.clone(), image.clone()).create_memory_table();
    // Offset 1 is read, was never written and is not in the image.
    assert_eq!(
        r.err(),
        Some(TraceError::MissingInitValue { ltype: LocationType::Heap, offset: 1 })
    );
    let table = tables(trace[..3].to_vec(), image).create_memory_table().unwrap();
    let heap = rows_at(&table, LocationType::Heap, 0);
    assert_eq!(heap.len(), 3);
    assert_eq!(heap[0].entry.atype, AccessType::Init);
    assert_eq!(heap[0].entry.value, 41);
    // The global of the image is not touched and gets no row.
    assert!(rows_at(&table, LocationType::Global, 0).is_empty());
}

#[test]
fn first_entry_of_the_image_for_a_location_counts() {
    let image = InitMemoryTable::new(vec![
        InitMemoryTableEntry { ltype: LocationType::Heap, is_mutable: true, offset: 3, value: 1 },
        InitMemoryTableEntry { ltype: LocationType::Global, is_mutable: true, offset: 3, value: 2 },
        InitMemoryTableEntry { ltype: LocationType::Heap, is_mutable: true, offset: 3, value: 9 },
    ]);
    assert_eq!(image.try_find(LocationType::Heap, 3), Some(1));
    assert_eq!(image.try_find(LocationType::Global, 3), Some(2));
    assert_eq!(image.try_find(LocationType::Stack, 3), None);
    assert_eq!(image.try_find(LocationType::Heap, 4), None);
    assert_eq!(image.filter(LocationType::Heap).len(), 2);
    assert_eq!(image.filter(LocationType::Heap)[1].value, 9);
    assert_eq!(image.filter(LocationType::Global).len(), 1);
    assert!(image.filter(LocationType::Stack).is_empty());
}

#[test]
fn every_touched_heap_cell_and_global_has_one_init_row() {
    let events = vec![
        access(5, 1, LocationType::Heap, 2, AccessType::Write, 1),
        access(6, 1, LocationType::Heap, 2, AccessType::Read, 1),
        access(7, 1, LocationType::Heap, 2, AccessType::Write, 3),
        access(7, 2, LocationType::Global, 2, AccessType::Write, 3),
        access(8, 1, LocationType::Stack, 2, AccessType::Write, 3),
        access(9, 1, LocationType::Heap, 1, AccessType::Write, 3),
    ];
    let table = MTable::new(events, &InitMemoryTable::new(vec![])).unwrap();
    let rows = table.entries();
    assert_eq!(rows.len(), 9);
    for (ltype, offset) in [(LocationType::Heap, 1), (LocationType::Heap, 2), (LocationType::Global, 2)] {
        let inits = rows_at(&table, ltype, offset)
            .iter()
            .filter(|row| row.entry.atype == AccessType::Init)
            .count();
        assert_eq!(inits, 1);
    }
    assert!(rows_at(&table, LocationType::Stack, 2)
        .iter()
        .all(|row| row.entry.atype != AccessType::Init));
}

#[test]
fn accesses_of_different_type_get_an_init_row_each() {
    let mut narrow = access(2, 1, LocationType::Heap, 0, AccessType::Write, 1);
    narrow.vtype = VarType::I32;
    let events = vec![access(1, 1, LocationType::Heap, 0, AccessType::Write, 1), narrow];
    let table = MTable::new(events, &InitMemoryTable::new(vec![])).unwrap();
    let inits: Vec<_> = table
        .entries()
        .iter()
        .filter(|row| row.entry.atype == AccessType::Init)
        .collect();
    assert_eq!(inits.len(), 2);
    assert_ne!(inits[0].entry.vtype, inits[1].entry.vtype);
}

#[test]
fn table_is_ordered_and_chained() {
    let events = vec![
        access(9, 1, LocationType::Global, 0, AccessType::Write, 1),
        access(3, 2, LocationType::Heap, 8, AccessType::Write, 2),
        access(3, 1, LocationType::Stack, 8, AccessType::Read, 2),
        access(2, 1, LocationType::Heap, 8, AccessType::Write, 3),
        access(7, 1, LocationType::Heap, 4, AccessType::Write, 4),
        access(8, 1, LocationType::Heap, 8, AccessType::Read, 2),
    ];
    let table = MTable::new(events, &InitMemoryTable::new(vec![])).unwrap();
    let keys: Vec<(u64, u32, u32, u32)> = table
        .entries()
        .iter()
        .map(|r| (r.entry.ltype.index(), r.entry.offset, r.entry.eid, r.entry.emid))
        .collect();
    assert_eq!(
        keys,
        vec![
            (1, 8, 3, 1),
            (2, 4, 0, 0),
            (2, 4, 7, 1),
            (2, 8, 0, 0),
            (2, 8, 2, 1),
            (2, 8, 3, 2),
            (2, 8, 8, 1),
            (3, 0, 0, 0),
            (3, 0, 9, 1),
        ]
    );
    let ends: Vec<u32> = table.entries().iter().map(|r| r.end_eid).collect();
    assert_eq!(ends, vec![END_EID_NEVER, 7, END_EID_NEVER, 2, 3, 8, END_EID_NEVER, 9, END_EID_NEVER]);
}

#[test]
fn sorting_keeps_every_entry() {
    let entries = vec![
        access(3, 1, LocationType::Heap, 1, AccessType::Read, 0),
        access(1, 1, LocationType::Heap, 1, AccessType::Read, 0),
        access(3, 1, LocationType::Heap, 1, AccessType::Read, 0),
        access(2, 1, LocationType::Stack, 9, AccessType::Write, 0),
    ];
    let sorted = sort_entries(&entries);
    assert_eq!(
        sorted,
        vec![
            access(2, 1, LocationType::Stack, 9, AccessType::Write, 0),
            access(1, 1, LocationType::Heap, 1, AccessType::Read, 0),
            access(3, 1, LocationType::Heap, 1, AccessType::Read, 0),
            access(3, 1, LocationType::Heap, 1, AccessType::Read, 0),
        ]
    );
    assert!(sort_entries(&vec![]).is_empty());
}

#[test]
fn empty_trace_has_an_empty_memory_table() {
    let table = tables(vec![], vec![]).create_memory_table().unwrap();
    assert!(table.entries().is_empty());
}

#[test]
fn steps_of_a_trace_are_numbered_upwards_from_one() {
    let numbered = |eids: &[u32]| {
        EventTable::new(eids.iter().map(|eid| EventTableEntry { eid: *eid, ..constant(1, 0) }).collect())
            .is_well_numbered()
    };
    assert!(numbered(&[]));
    assert!(numbered(&[1]));
    assert!(numbered(&[1, 2, 3]));
    assert!(numbered(&[2, 5, 9]));
    assert!(!numbered(&[0, 1]));
    assert!(!numbered(&[1, 1]));
    assert!(!numbered(&[1, 3, 2]));
    assert!(!numbered(&[3, 2, 4]));
}

#[test]
fn entries_of_the_same_key_keep_their_order() {
    let entries = vec![
        access(5, 1, LocationType::Heap, 1, AccessType::Write, 30),
        access(2, 1, LocationType::Heap, 1, AccessType::Write, 10),
        access(5, 1, LocationType::Heap, 1, AccessType::Read, 31),
        access(2, 1, LocationType::Heap, 1, AccessType::Read, 11),
        access(5, 1, LocationType::Heap, 1, AccessType::Write, 32),
        access(2, 1, LocationType::Heap, 1, AccessType::Write, 12),
        access(1, 1, LocationType::Stack, 1, AccessType::Write, 0),
    ];
    let values: Vec<u64> = sort_entries(&entries).iter().map(|e| e.value).collect();
    assert_eq!(values, vec![0, 10, 11, 12, 30, 31, 32]);

    // In the table the initialization rows stand in front of their location,
    // in the order in which the events first call for them.
    let image = vec![
        InitMemoryTableEntry { ltype: LocationType::Heap, is_mutable: true, offset: 1, value: 77 },
    ];
    let table = MTable::new(entries, &InitMemoryTable::new(image)).unwrap();
    let values: Vec<(u32, u64)> =
        table.entries().iter().map(|r| (r.entry.eid, r.entry.value)).collect();
    assert_eq!(
        values,
        vec![(1, 0), (0, 77), (2, 10), (2, 11), (2, 12), (5, 30), (5, 31), (5, 32)]
    );
}

#[test]
fn the_same_trace_has_the_same_table_each_time() {
    let trace = || {
        vec![
            constant(1, 7),
            store(2, 16, 3999, 7),
            load(3, 16, 3999, 7),
            store(4, 8, 3999, 7),
            load(5, 16, 3998, 7),
        ]
    };
    let first = tables(trace(), vec![]).create_memory_table().unwrap();
    let second = tables(trace(), vec![]).create_memory_table().unwrap();
    assert_eq!(first.entries(), second.entries());
    assert!(!first.entries().is_empty());
}

#[test]
fn only_the_last_row_of_a_location_never_ends() {
    let trace = vec![
        constant(1, 7),
        store(2, 16, 3999, 7),
        load(3, 16, 3999, 7),
        store(4, 8, 3999, 7),
        load(5, 16, 3998, 7),
    ];
    let table = tables(trace, vec![]).create_memory_table().unwrap();
    let rows = table.entries();
    assert!(rows.len() > 4);
    for (i, row) in rows.iter().enumerate() {
        let followed = rows[i + 1..].iter().any(|later| {
            later.entry.ltype == row.entry.ltype && later.entry.offset == row.entry.offset
        });
        assert_eq!(row.end_eid == END_EID_NEVER, !followed);
        if followed {
            assert_eq!(row.end_eid, rows[i + 1].entry.eid);
        }
    }
}

#[test]
fn row_before_a_step_of_the_greatest_id_ends_at_that_id() {
    let events = vec![
        access(1, 1, LocationType::Stack, 4, AccessType::Write, 9),
        access(0xffff_ffff, 1, LocationType::Stack, 4, AccessType::Read, 9),
    ];
    let table = MTable::new(events, &InitMemoryTable::new(vec![])).unwrap();
    let ends: Vec<u32> = table.entries().iter().map(|r| r.end_eid).collect();
    assert_eq!(ends, vec![0xffff_ffff, END_EID_NEVER]);
}
