use zkwasm::brtable::ElemTable;
use zkwasm::encode::{pack, U256};
use zkwasm::error::{TableKind, TraceError};
use zkwasm::etable::{EventTable, EventTableEntry};
use zkwasm::field::word_from_le_bytes;
use zkwasm::imtable::InitMemoryTable;
use zkwasm::itable::{
    BitOp, HostFunction, InstructionTable, InstructionTableEntry, Opcode, OpcodeClass,
    OPCODE_CLASSES,
};
use zkwasm::jtable::{JumpTable, StaticFrameEntry};
use zkwasm::mtable::{AccessType, LocationType, VarType};
use zkwasm::runtime::{ConfigureTable, WasmRuntimeIO, WasmiRuntime, DEFAULT_VALUE_STACK_LIMIT};
use zkwasm::step::StepInfo;
use zkwasm::{copy_entries, InitializationState};

fn numbered() -> InitializationState<u32> {
    InitializationState {
        eid: 10,
        fid: 11,
        iid: 12,
        frame_id: 13,
        sp: 14,
        initial_memory_pages: 15,
        maximal_memory_pages: 16,
        input_index: 17,
        context_input_index: 18,
        context_output_index: 19,
        external_host_call_index: 20,
        jops: 21,
    }
}

#[test]
fn state_fields_have_a_fixed_order() {
    assert_eq!(numbered().plain(), vec![10, 11, 12, 13, 14, 15, 16, 17, 18, 19, 20, 21]);
    assert_eq!(InitializationState::<u32>::default().plain(), vec![0; 12]);
}

#[test]
fn state_is_mapped_field_by_field() {
    let doubled = numbered().map(|field| *field as u64 * 2);
    assert_eq!(doubled.plain(), vec![20, 22, 24, 26, 28, 30, 32, 34, 36, 38, 40, 42]);
    assert_eq!(doubled.sp, 28);
    assert_eq!(doubled.jops, 42);
    let named = numbered().map(|field| format!("f{}", field));
    assert_eq!(named.external_host_call_index, "f20");
}

#[test]
fn words_and_limbs() {
    assert_eq!(U256::zero(), U256 { l0: 0, l1: 0, l2: 0, l3: 0 });
    assert_eq!(U256::one().l0, 1);
    assert_eq!(U256::from_u64(u64::MAX).l0, u64::MAX);
    assert_eq!(U256::from_u32(7), U256::from_u64(7));
    assert_eq!(U256::from_bool(true), U256::one());
    assert_eq!(U256::from_bool(false), U256::zero());
    assert_eq!(pack(1, 2), 0x1_0000_0002);
    assert_eq!(pack(u32::MAX, u32::MAX), u64::MAX);
    let mut bytes = [0u8; 32];
    for (i, b) in bytes.iter_mut().enumerate() {
        *b = i as u8 + 1;
    }
    assert_eq!(
        word_from_le_bytes(&bytes),
        U256 {
            l0: 0x0807_0605_0403_0201,
            l1: 0x100f_0e0d_0c0b_0a09,
            l2: 0x1817_1615_1413_1211,
            l3: 0x201f_1e1d_1c1b_1a19,
        }
    );
}

#[test]
fn instructions_are_encoded_by_category_and_operands() {
    let constant = InstructionTableEntry {
        fid: 3,
        iid: 4,
        opcode: Opcode::Const { vtype: VarType::I32, value: 0xdead_beef },
    };
    assert_eq!(
        constant.encode(),
        U256 { l0: 0xdead_beef, l1: (4 << 48) + (1 << 32), l2: pack(3, 4), l3: 0 }
    );
    let branch = Opcode::Br { drop: 5, keep: 6, dst_pc: 7 };
    assert_eq!(branch.encode(), ((7 << 48) + 5, pack(6, 7)));
    let and = Opcode::BinBit { class: BitOp::And, vtype: VarType::I32 };
    let or = Opcode::BinBit { class: BitOp::Or, vtype: VarType::I32 };
    let wide = Opcode::BinBit { class: BitOp::And, vtype: VarType::I64 };
    assert_eq!(and.encode(), ((16 << 48) + (1 << 32), 0));
    assert_ne!(and.encode(), or.encode());
    assert_ne!(and.encode(), wide.encode());
    assert_eq!(Opcode::Drop.class(), OpcodeClass::Drop);
    assert_eq!(OpcodeClass::Rel.index(), OPCODE_CLASSES - 1);
    assert_eq!(OpcodeClass::LocalGet.index(), 0);
}

#[test]
fn calls_and_returns_are_jump_operations() {
    assert_eq!(Opcode::Call { index: 1 }.jops(), 1);
    assert_eq!(Opcode::CallIndirect { type_idx: 1 }.jops(), 1);
    assert_eq!(Opcode::Return { drop: 0, keep: 0 }.jops(), 1);
    assert_eq!(Opcode::Br { drop: 0, keep: 0, dst_pc: 0 }.jops(), 0);
    assert_eq!(Opcode::CallHost { function: HostFunction::PublicInput }.jops(), 0);
    assert_eq!(Opcode::Drop.jops(), 0);
}

#[test]
fn orders_and_kinds() {
    assert_eq!(LocationType::Stack.index(), 1);
    assert_eq!(LocationType::Heap.index(), 2);
    assert_eq!(LocationType::Global.index(), 3);
    assert!(AccessType::Init.is_init());
    assert!(!AccessType::Read.is_init());
    assert!(!AccessType::Write.is_init());
    assert_eq!(copy_entries(&vec![3u8, 1, 2]), vec![3, 1, 2]);
}

#[test]
fn compiled_image_starts_in_the_entry_point_or_the_start_function() {
    let configure = ConfigureTable { init_memory_pages: 2, maximal_memory_pages: 10 };
    let image = |has_start| {
        WasmiRuntime::compile(
            InstructionTable::new(vec![]),
            InitMemoryTable::new(vec![]),
            ElemTable::new(vec![]),
            configure,
            9,
            has_start,
        )
    };
    let entry = StaticFrameEntry {
        enable: true,
        frame_id: 0,
        next_frame_id: 0,
        callee_fid: 9,
        fid: 0,
        iid: 0,
    };
    let plain = image(false);
    assert_eq!(plain.static_jtable, vec![entry]);
    assert_eq!(
        plain.initialization_state.plain(),
        vec![1, 9, 0, 0, DEFAULT_VALUE_STACK_LIMIT - 1, 2, 10, 1, 1, 1, 1, 0]
    );
    let started = image(true);
    assert_eq!(
        started.static_jtable,
        vec![entry, StaticFrameEntry { callee_fid: 0, fid: 9, ..entry }]
    );
    assert_eq!(started.initialization_state.fid, 0);
    assert_eq!(started.initialization_state.sp, 4095);
    let _ = WasmiRuntime::new();
    let io = WasmRuntimeIO::empty();
    assert!(io.public_inputs_and_outputs.is_empty() && io.outputs.is_empty());
}

#[test]
fn run_counts_the_jump_operations_to_come() {
    let step = |eid: u32, opcode: Opcode, step_info: StepInfo| EventTableEntry {
        eid,
        inst: InstructionTableEntry { fid: 0, iid: eid, opcode },
        sp: 10,
        last_jump_eid: 0,
        allocated_memory_pages: 1,
        step_info,
    };
    let trace = vec![
        step(1, Opcode::Call { index: 2 }, StepInfo::Call { index: 2 }),
        step(2, Opcode::Drop, StepInfo::Drop),
        step(3, Opcode::Return { drop: 0, keep: 0 }, StepInfo::Return { drop: 0, keep: 0 }),
        step(4, Opcode::Return { drop: 0, keep: 0 }, StepInfo::Return { drop: 0, keep: 0 }),
    ];
    let image = WasmiRuntime::compile(
        InstructionTable::new(vec![]),
        InitMemoryTable::new(vec![]),
        ElemTable::new(vec![]),
        ConfigureTable { init_memory_pages: 1, maximal_memory_pages: 1 },
        0,
        false,
    );
    let tables = WasmiRuntime::run(image, EventTable::new(trace), JumpTable::new(vec![])).unwrap();
    assert_eq!(tables.pre_image_table.initialization_state.jops, 3);
    assert_eq!(tables.pre_image_table.initialization_state.eid, 1);
    assert_eq!(tables.execution_table.etable.entries().len(), 4);
    assert_eq!(
        tables.post_image_table.initialization_state.plain(),
        vec![5, 0, 0, 0, 10, 1, 1, 1, 1, 1, 1, 0]
    );
}

#[test]
fn run_that_does_not_end_with_a_return_is_refused() {
    let image = || {
        WasmiRuntime::compile(
            InstructionTable::new(vec![]),
            InitMemoryTable::new(vec![]),
            ElemTable::new(vec![]),
            ConfigureTable { init_memory_pages: 1, maximal_memory_pages: 1 },
            0,
            false,
        )
    };
    let drop = EventTableEntry {
        eid: 7,
        inst: InstructionTableEntry { fid: 0, iid: 0, opcode: Opcode::Drop },
        sp: 10,
        last_jump_eid: 0,
        allocated_memory_pages: 1,
        step_info: StepInfo::Drop,
    };
    let r = WasmiRuntime::run(image(), EventTable::new(vec![drop]), JumpTable::new(vec![]));
    assert_eq!(r.err(), Some(TraceError::MalformedTerminalTrace { eid: 7 }));
    // A run of no step changes nothing.
    let idle = WasmiRuntime::run(image(), EventTable::new(vec![]), JumpTable::new(vec![])).unwrap();
    assert_eq!(
        idle.post_image_table.initialization_state.plain(),
        idle.pre_image_table.initialization_state.plain()
    );
    assert_eq!(idle.pre_image_table.initialization_state.jops, 0);
}

#[test]
fn errors_tell_what_was_exceeded() {
    let e = TraceError::CapacityExceeded { table: TableKind::Bit, required: 4, capacity: 3 };
    assert_ne!(e, TraceError::CapacityExceeded { table: TableKind::Event, required: 4, capacity: 3 });
    assert_ne!(
        TraceError::MissingInitValue { ltype: LocationType::Heap, offset: 1 },
        TraceError::MissingInitValue { ltype: LocationType::Global, offset: 1 }
    );
    assert_ne!(
        TraceError::MalformedTerminalTrace { eid: 1 },
        TraceError::InconsistentBoundaryState { slice: 1 }
    );
}
