use zkwasm::brtable::ElemTable;
use zkwasm::circuits::cell::{Cell, Region};
use zkwasm::circuits::test_circuit::{CircuitConfig, TestCircuit, REST_MOPS_COLUMN};
use zkwasm::error::{TableKind, TraceError};
use zkwasm::etable::{EventTable, EventTableEntry, ExternalHostCallEntry};
use zkwasm::imtable::{InitMemoryTable, InitMemoryTableEntry};
use zkwasm::itable::{
    BitOp, ExternalHostCallSignature, InstructionTable, InstructionTableEntry, Opcode,
};
use zkwasm::jtable::{JumpTable, StaticFrameEntry};
use zkwasm::mtable::{LocationType, VarType};
use zkwasm::step::StepInfo;
use zkwasm::{CompilationTable, ExecutionTable, InitializationState, Tables};

fn instructions() -> Vec<InstructionTableEntry> {
    vec![
        InstructionTableEntry { fid: 0, iid: 0, opcode: Opcode::Load { vtype: VarType::I64, offset: 8 } },
        InstructionTableEntry {
            fid: 0,
            iid: 1,
            opcode: Opcode::BinBit { class: BitOp::Or, vtype: VarType::I64 },
        },
        InstructionTableEntry {
            fid: 0,
            iid: 2,
            opcode: Opcode::ExternalHostCall { op: 2, sig: ExternalHostCallSignature::Argument },
        },
        InstructionTableEntry { fid: 0, iid: 3, opcode: Opcode::Store { vtype: VarType::I64, offset: 20 } },
        InstructionTableEntry { fid: 0, iid: 4, opcode: Opcode::Return { drop: 1, keep: 0 } },
    ]
}

fn trace() -> Vec<EventTableEntry> {
    let infos = vec![
        StepInfo::Load { vtype: VarType::I64, offset: 8, to_slot: 90, value: 6 },
        StepInfo::I64BinBitOp { class: BitOp::Or, left: 6, right: 9, value: 15 },
        StepInfo::ExternalHostCall { op: 2, value: 15, sig: ExternalHostCallSignature::Argument },
        StepInfo::Store { vtype: VarType::I64, offset: 20, from_slot: 90, value: 15 },
        StepInfo::Return { drop: 1, keep: 0 },
    ];
    instructions()
        .into_iter()
        .zip(infos)
        .enumerate()
        .map(|(i, (inst, step_info))| EventTableEntry {
            eid: i as u32 + 1,
            inst,
            sp: 89,
            last_jump_eid: 0,
            allocated_memory_pages: 1,
            step_info,
        })
        .collect()
}

fn tables(steps: Vec<EventTableEntry>) -> Tables {
    let pre_image_table = image();
    Tables {
        post_image_table: pre_image_table.clone(),
        pre_image_table,
        execution_table: ExecutionTable {
            etable: EventTable::new(steps),
            jtable: JumpTable::new(vec![]),
        },
    }
}

fn image() -> CompilationTable {
    {
        CompilationTable {
            itable: InstructionTable::new(instructions()),
            imtable: InitMemoryTable::new(vec![InitMemoryTableEntry {
                ltype: LocationType::Heap,
                is_mutable: true,
                offset: 8,
                value: 6,
            }]),
            elem_table: ElemTable::new(vec![]),
            static_jtable: vec![StaticFrameEntry {
                enable: true,
                frame_id: 0,
                next_frame_id: 0,
                callee_fid: 0,
                fid: 0,
                iid: 0,
            }],
            initialization_state: InitializationState {
                eid: 1,
                sp: 89,
                initial_memory_pages: 1,
                maximal_memory_pages: 2,
                input_index: 1,
                context_input_index: 1,
                context_output_index: 1,
                external_host_call_index: 1,
                jops: 1,
                ..InitializationState::default()
            },
        }
    }
}

fn config() -> CircuitConfig {
    CircuitConfig {
        max_available_rows: 64,
        max_image_table_rows: 16,
        first_consecutive_zero_memory_offset: 9,
    }
}

#[test]
fn all_tables_are_encoded_and_tied() {
    let circuit = TestCircuit::new(tables(trace()));
    let assignment = circuit.synthesize(&config()).unwrap();
    assert_eq!(
        assignment.external_host_calls,
        vec![ExternalHostCallEntry { op: 2, value: 15, sig: ExternalHostCallSignature::Argument }]
    );
    // Two moves: four accesses, and an initialization for each of two heap cells.
    assert_eq!(assignment.memory_table.entries().len(), 6);
    assert_eq!(assignment.memory.rows.len(), 6);
    assert_eq!(assignment.memory.init_rest_mops, 4);
    assert_eq!(
        assignment.memory.rest_mops_constraint.map(|c| c.other),
        Some(Cell { region: Region::EventTable, column: REST_MOPS_COLUMN, row: 0 })
    );
    assert_eq!(assignment.event.rows.len(), 6);
    assert_eq!(assignment.event.rows[0].rest_mops, 4);
    assert_eq!(assignment.event.rows[0].rest_mops, assignment.memory.init_rest_mops);
    assert_eq!(assignment.event.rows[0].rest_jops, 1);
    assert_eq!(assignment.event.rows[3].external_host_call_index, 2);
    assert_eq!(assignment.event.rows[5].sp, 90);
    assert_eq!(assignment.bit.rows.len(), 11);
    assert_eq!(assignment.bit.rows[0].result, 15);
    assert_eq!(assignment.bit.fixed.len(), 55);
    assert_eq!(
        assignment.static_frame_cells,
        vec![
            (
                Cell { region: Region::FrameTable, column: 0, row: 0 },
                Cell { region: Region::FrameTable, column: 1, row: 0 }
            ),
            (
                Cell { region: Region::FrameTable, column: 0, row: 1 },
                Cell { region: Region::FrameTable, column: 1, row: 1 }
            ),
        ]
    );
    assert_eq!(assignment.image.column.len(), 12 + 4 + 16);
    assert_eq!(assignment.image.constraints.len(), 16);
    for (row, constraint) in assignment.image.constraints.iter().enumerate() {
        assert_eq!(constraint.image, Cell { region: Region::ImageTable, column: 0, row });
        let other = if row < 12 {
            Cell { region: Region::EventTable, column: row, row: 0 }
        } else {
            Cell { region: Region::FrameTable, column: row % 2, row: (row - 12) / 2 }
        };
        assert_eq!(constraint.other, other);
    }
}

#[test]
fn first_failing_table_is_reported() {
    let synthesize = |steps: Vec<EventTableEntry>, config: CircuitConfig| {
        TestCircuit::new(tables(steps)).synthesize(&config).err()
    };
    assert_eq!(synthesize(trace(), config()), None);
    assert_eq!(synthesize(trace(), CircuitConfig { max_image_table_rows: 9, ..config() }), None);
    // The memory table is built first.
    let mut unread = trace();
    unread[0].step_info = StepInfo::Load { vtype: VarType::I64, offset: 30, to_slot: 90, value: 0 };
    unread.pop();
    assert_eq!(
        synthesize(unread, CircuitConfig { max_available_rows: 0, ..config() }),
        Some(TraceError::MissingInitValue { ltype: LocationType::Heap, offset: 30 })
    );
    // Then the event table,
    let mut open = trace();
    open.pop();
    assert_eq!(
        synthesize(open, CircuitConfig { first_consecutive_zero_memory_offset: 21, ..config() }),
        Some(TraceError::MalformedTerminalTrace { eid: 4 })
    );
    assert_eq!(
        synthesize(trace(), CircuitConfig { max_available_rows: 19, ..config() }),
        Some(TraceError::CapacityExceeded { table: TableKind::Event, required: 5, capacity: 4 })
    );
    // the memory table,
    assert_eq!(
        synthesize(trace(), CircuitConfig { max_available_rows: 23, ..config() }),
        Some(TraceError::CapacityExceeded { table: TableKind::Memory, required: 6, capacity: 5 })
    );
    assert_eq!(
        synthesize(
            trace(),
            CircuitConfig {
                first_consecutive_zero_memory_offset: 21,
                max_image_table_rows: 0,
                ..config()
            }
        ),
        Some(TraceError::MissingInitValue { ltype: LocationType::Heap, offset: 20 })
    );
    // the bit table: three operations need 33 rows,
    let mut bits = trace();
    bits[2].step_info = StepInfo::I32BinBitOp { class: BitOp::And, left: 1, right: 1, value: 1 };
    bits[2].inst.opcode = Opcode::BinBit { class: BitOp::And, vtype: VarType::I32 };
    let mut thrice = bits.clone();
    thrice.insert(1, bits[1]);
    assert_eq!(
        synthesize(thrice, CircuitConfig { max_available_rows: 32, max_image_table_rows: 0, ..config() }),
        Some(TraceError::CapacityExceeded { table: TableKind::Bit, required: 3, capacity: 2 })
    );
    // and the image table last.
    assert_eq!(
        synthesize(trace(), CircuitConfig { max_image_table_rows: 8, ..config() }),
        Some(TraceError::CapacityExceeded { table: TableKind::Image, required: 9, capacity: 8 })
    );
}

#[test]
fn circuit_without_witnesses_has_only_fixed_cells_and_padding() {
    let assignment = TestCircuit::without_witnesses().synthesize(&config()).unwrap();
    assert!(assignment.memory_table.entries().is_empty());
    assert_eq!(assignment.event.rows.len(), 1);
    assert!(!assignment.event.rows[0].enabled);
    assert_eq!(assignment.event.fixed.step_sel.len(), 64);
    assert!(assignment.memory.rows.is_empty());
    assert_eq!(assignment.memory.entry_sel.len(), 64);
    assert!(assignment.bit.rows.is_empty());
    assert_eq!(assignment.image.column.len(), 32);
    assert_eq!(assignment.image.constraints.len(), 16);
    assert!(assignment.external_host_calls.is_empty());
}
