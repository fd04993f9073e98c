use zkwasm::brtable::ElemTable;
use zkwasm::continuation::slice::{same_state, Slice, Slices};
use zkwasm::error::TraceError;
use zkwasm::etable::{EventTable, EventTableEntry};
use zkwasm::imtable::InitMemoryTable;
use zkwasm::itable::{HostFunction, InstructionTable, InstructionTableEntry, Opcode};
use zkwasm::jtable::{JumpTable, JumpTableEntry};
use zkwasm::mtable::VarType;
use zkwasm::step::StepInfo;
use zkwasm::{CompilationTable, ExecutionTable, InitializationState, Tables};

fn constant(eid: u32) -> EventTableEntry {
    EventTableEntry {
        eid,
        inst: InstructionTableEntry {
            fid: 1,
            iid: eid,
            opcode: Opcode::Const { vtype: VarType::I32, value: eid as u64 },
        },
        sp: 4095 - eid % 7,
        last_jump_eid: eid / 10,
        allocated_memory_pages: 1 + eid / 100,
        step_info: StepInfo::Const { vtype: VarType::I32, value: eid as u64 },
    }
}

fn call(eid: u32) -> EventTableEntry {
    let mut e = constant(eid);
    e.inst.opcode = Opcode::Call { index: 3 };
    e.step_info = StepInfo::Call { index: 3 };
    e
}

fn host(eid: u32, function: HostFunction) -> EventTableEntry {
    let mut e = constant(eid);
    e.inst.opcode = Opcode::CallHost { function };
    e.step_info = StepInfo::CallHost { function, is_public: true, value: 0 };
    e
}

fn genesis(jops: u32) -> InitializationState<u32> {
    InitializationState {
        eid: 1,
        fid: 1,
        iid: 0,
        frame_id: 0,
        sp: 4095,
        initial_memory_pages: 1,
        maximal_memory_pages: 8,
        input_index: 1,
        context_input_index: 1,
        context_output_index: 1,
        external_host_call_index: 1,
        jops,
    }
}

fn terminal() -> InitializationState<u32> {
    InitializationState { eid: 1000, fid: 0, iid: 0, ..genesis(0) }
}

fn tables(entries: Vec<EventTableEntry>, state: InitializationState<u32>) -> Tables {
    let pre_image_table = CompilationTable {
        itable: InstructionTable::new(vec![InstructionTableEntry {
            fid: 1,
            iid: 0,
            opcode: Opcode::Drop,
        }]),
        imtable: InitMemoryTable::new(vec![]),
        elem_table: ElemTable::new(vec![]),
        static_jtable: vec![],
        initialization_state: state,
    };
    Tables {
        post_image_table: pre_image_table.with_state(terminal()),
        pre_image_table,
        execution_table: ExecutionTable {
            etable: EventTable::new(entries),
            jtable: JumpTable::new(vec![JumpTableEntry {
                eid: 1,
                last_jump_eid: 0,
                callee_fid: 1,
                fid: 0,
                iid: 0,
            }]),
        },
    }
}

fn events(slice: &Slice) -> &Vec<EventTableEntry> {
    slice.table.execution_table.etable.entries()
}

fn state(slice: &Slice) -> InitializationState<u32> {
    slice.table.pre_image_table.initialization_state
}

#[test]
fn slices_of_250_events_at_capacity_100() {
    let trace: Vec<EventTableEntry> = (1..=250).map(constant).collect();
    let slices = Slices::from_table(tables(trace.clone(), genesis(0)), 100).unwrap();
    assert_eq!(slices.capability, 100);
    let sizes: Vec<usize> = slices.slices.iter().map(|s| events(s).len()).collect();
    assert_eq!(sizes, vec![99, 100, 53]);
    for (k, slice) in slices.slices.iter().enumerate() {
        assert_eq!(slice.current_slice, k);
        assert_eq!(slice.total_slice, 3);
        assert_eq!(slice.table.pre_image_table.itable.entries().len(), 1);
        assert_eq!(slice.table.execution_table.jtable.entries().len(), 1);
    }
    // Every step is a step of its own of exactly one slice.
    let mut own: Vec<EventTableEntry> = vec![];
    for (k, slice) in slices.slices.iter().enumerate() {
        let skip = if k == 0 { 0 } else { 1 };
        own.extend(events(slice)[skip..].iter().copied());
    }
    assert_eq!(own.len(), 250);
    assert_eq!(own, trace);
    // Every seam is there twice: as the last step of one slice and as the first
    // of the next.
    assert_eq!(events(&slices.slices[0])[98], trace[98]);
    assert_eq!(events(&slices.slices[1])[0], trace[98]);
    assert_eq!(events(&slices.slices[1])[99], trace[197]);
    assert_eq!(events(&slices.slices[2])[0], trace[197]);
    assert_eq!(trace.iter().filter(|e| **e == trace[98]).count(), 1);
    let copies: usize = slices
        .slices
        .iter()
        .map(|s| events(s).iter().filter(|e| **e == trace[98]).count())
        .sum();
    assert_eq!(copies, 2);
}

#[test]
fn checkpoint_of_a_slice_is_that_of_its_first_step() {
    let trace: Vec<EventTableEntry> = (1..=7).map(constant).collect();
    let slices = Slices::from_table(tables(trace.clone(), genesis(0)), 4).unwrap();
    let sizes: Vec<usize> = slices.slices.iter().map(|s| events(s).len()).collect();
    assert_eq!(sizes, vec![3, 4, 2]);
    let first = state(&slices.slices[0]);
    assert_eq!(first.clone().plain(), genesis(0).plain());
    let seam = trace[2];
    let second = state(&slices.slices[1]);
    assert_eq!(
        second.plain(),
        vec![
            seam.eid,
            seam.inst.fid,
            seam.inst.iid,
            seam.last_jump_eid,
            seam.sp,
            seam.allocated_memory_pages,
            8,
            1,
            1,
            1,
            1,
            0,
        ]
    );
    assert_eq!(state(&slices.slices[2]).eid, trace[5].eid);
}

#[test]
fn boundary_state_is_rederived_from_the_slice_before() {
    let mut trace: Vec<EventTableEntry> = (1..=20).map(constant).collect();
    trace[1] = call(2);
    trace[4] = host(5, HostFunction::PublicInput);
    trace[6] = call(7);
    trace[7] = host(8, HostFunction::ContextOutput);
    trace[12] = host(13, HostFunction::ContextInput);
    trace[14] = call(15);
    let slices = Slices::from_table(tables(trace, genesis(3)), 5).unwrap();
    assert_eq!(slices.slices.len(), 5);
    for k in 0..slices.slices.len() - 1 {
        let derived =
            Slices::next_state(&state(&slices.slices[k]), events(&slices.slices[k]), k > 0);
        assert_eq!(derived.map(|s| s.plain()), Some(state(&slices.slices[k + 1]).plain()));
        assert_eq!(events(&slices.slices[k + 1])[0], *events(&slices.slices[k]).last().unwrap());
    }
}

#[test]
fn jump_operation_of_a_seam_is_counted_once() {
    // Steps 4 and 8 are the seams; both are calls.
    let mut trace: Vec<EventTableEntry> = (1..=10).map(constant).collect();
    trace[1] = call(2);
    trace[3] = call(4);
    trace[7] = call(8);
    trace[8] = call(9);
    let slices = Slices::from_table(tables(trace, genesis(4)), 5).unwrap();
    let sizes: Vec<usize> = slices.slices.iter().map(|s| events(s).len()).collect();
    assert_eq!(sizes, vec![4, 5, 3]);
    // The first slice pays for steps 1 to 4, the second for steps 5 to 8 and not
    // again for its copy of step 4, the third for steps 9 and 10.
    let rest: Vec<u32> = slices.slices.iter().map(|s| state(s).jops).collect();
    assert_eq!(rest, vec![4, 2, 1]);
    let costs: Vec<u64> = slices.slices.iter().map(|s| s.jops_cost()).collect();
    assert_eq!(costs, vec![2, 1, 1]);
    assert_eq!(costs.iter().sum::<u64>(), 4);
    for (k, slice) in slices.slices.iter().enumerate() {
        let all: u64 = events(slice).iter().map(|e| e.inst.opcode.jops() as u64).sum();
        let copy = if k == 0 { 0 } else { events(slice)[0].inst.opcode.jops() as u64 };
        assert_eq!(slice.jops_cost(), all - copy);
    }
    let mut counter = 4u32;
    for slice in slices.slices.iter() {
        slice.update_rest_jops(&mut counter);
    }
    assert_eq!(counter, 0);
}

#[test]
fn streams_advance_by_the_steps_before_the_seam() {
    let mut trace: Vec<EventTableEntry> = (1..=6).map(constant).collect();
    trace[0] = host(1, HostFunction::PublicInput);
    trace[1] = host(2, HostFunction::PublicInput);
    trace[2] = host(3, HostFunction::ContextInput);
    trace[3] = EventTableEntry {
        step_info: StepInfo::ExternalHostCall {
            op: 1,
            value: 2,
            sig: zkwasm::itable::ExternalHostCallSignature::Argument,
        },
        ..constant(4)
    };
    let slices = Slices::from_table(tables(trace, genesis(0)), 4).unwrap();
    let second = state(&slices.slices[1]);
    // The seam is step 3: only steps 1 and 2 are done.
    assert_eq!(second.input_index, 3);
    assert_eq!(second.context_input_index, 1);
    assert_eq!(second.context_output_index, 1);
    assert_eq!(second.external_host_call_index, 1);
    assert_eq!(second.maximal_memory_pages, 8);
}

#[test]
fn private_input_moves_no_public_stream() {
    let mut trace: Vec<EventTableEntry> = (1..=4).map(constant).collect();
    trace[0] = host(1, HostFunction::PrivateInput);
    trace[1].step_info =
        StepInfo::CallHost { function: HostFunction::PublicInput, is_public: false, value: 0 };
    let slices = Slices::from_table(tables(trace, genesis(0)), 4).unwrap();
    assert_eq!(state(&slices.slices[1]).input_index, 1);
}

#[test]
fn broken_chain_is_refused() {
    let mut trace: Vec<EventTableEntry> = (1..=9).map(constant).collect();
    trace[0] = call(1);
    trace[4] = call(5);
    // One jump operation is left, the second slice can start; the third cannot.
    let r = Slices::from_table(tables(trace.clone(), genesis(1)), 4);
    assert_eq!(r.err(), Some(TraceError::InconsistentBoundaryState { slice: 2 }));
    let r = Slices::from_table(tables(trace.clone(), genesis(0)), 4);
    assert_eq!(r.err(), Some(TraceError::InconsistentBoundaryState { slice: 1 }));
    assert!(Slices::from_table(tables(trace, genesis(2)), 4).is_ok());
}

#[test]
fn stream_position_out_of_range_is_refused() {
    let mut trace: Vec<EventTableEntry> = (1..=5).map(constant).collect();
    trace[0] = host(1, HostFunction::ContextOutput);
    let mut start = genesis(0);
    start.context_output_index = u32::MAX;
    let r = Slices::from_table(tables(trace, start), 3);
    assert_eq!(r.err(), Some(TraceError::InconsistentBoundaryState { slice: 1 }));
}

#[test]
fn short_and_empty_traces() {
    let none = Slices::from_table(tables(vec![], genesis(0)), 2).unwrap();
    assert!(none.slices.is_empty());
    let one = Slices::from_table(tables(vec![constant(1)], genesis(0)), 2).unwrap();
    assert_eq!(one.slices.len(), 1);
    assert_eq!(one.slices[0].total_slice, 1);
    // Exactly full slices: no slice is left with the seam alone.
    let trace: Vec<EventTableEntry> = (1..=6).map(constant).collect();
    let full = Slices::from_table(tables(trace, genesis(0)), 4).unwrap();
    let sizes: Vec<usize> = full.slices.iter().map(|s| events(s).len()).collect();
    assert_eq!(sizes, vec![3, 4]);
    // The smallest capacity: every slice but the first is a seam and one step.
    let trace: Vec<EventTableEntry> = (1..=3).map(constant).collect();
    let small = Slices::from_table(tables(trace, genesis(0)), 2).unwrap();
    let sizes: Vec<usize> = small.slices.iter().map(|s| events(s).len()).collect();
    assert_eq!(sizes, vec![1, 2, 2]);
}

#[test]
fn last_slice_accounts_for_all_its_steps() {
    let trace = vec![call(1), call(2)];
    let slices = Slices::from_table(tables(trace, genesis(2)), 5).unwrap();
    assert_eq!(slices.slices.len(), 1);
    assert_eq!(slices.slices[0].jops_cost(), 2);
    let mut counter = 2u32;
    slices.slices[0].update_rest_jops(&mut counter);
    assert_eq!(counter, 0);
    assert_eq!(Slices::next_state(&genesis(0), &vec![], false).map(|s| s.plain()), None);
    // A slice of no step costs nothing.
    let mut idle = Slices::from_table(tables(vec![call(1)], genesis(1)), 5).unwrap();
    idle.slices[0].table.execution_table.etable = EventTable::new(vec![]);
    let mut counter = 1u32;
    idle.slices[0].update_rest_jops(&mut counter);
    assert_eq!(counter, 1);
}

#[test]
fn chain_of_slices_is_checked() {
    let mut trace: Vec<EventTableEntry> = (1..=12).map(constant).collect();
    trace[2] = call(3);
    trace[7] = host(8, HostFunction::PublicInput);
    let mut slices = Slices::from_table(tables(trace, genesis(1)), 4).unwrap();
    assert_eq!(slices.slices.len(), 4);
    assert_eq!(slices.check_boundaries(), Ok(()));
    // A checkpoint that was tampered with breaks the chain where it stands,
    slices.slices[2].table.pre_image_table.initialization_state.sp += 1;
    assert_eq!(
        slices.check_boundaries(),
        Err(TraceError::InconsistentBoundaryState { slice: 2 })
    );
    // and the first break is the one reported.
    slices.slices[1].table.pre_image_table.initialization_state.jops = 7;
    assert_eq!(
        slices.check_boundaries(),
        Err(TraceError::InconsistentBoundaryState { slice: 1 })
    );
    let none = Slices { slices: vec![], capability: 4 };
    assert_eq!(none.check_boundaries(), Ok(()));
    assert!(same_state(&genesis(3), &genesis(3)));
    assert!(!same_state(&genesis(3), &genesis(4)));
}

#[test]
fn slice_without_steps_has_no_successor() {
    let trace: Vec<EventTableEntry> = (1..=5).map(constant).collect();
    let mut slices = Slices::from_table(tables(trace, genesis(0)), 4).unwrap();
    slices.slices[0].table.execution_table.etable = EventTable::new(vec![]);
    assert_eq!(
        slices.check_boundaries(),
        Err(TraceError::InconsistentBoundaryState { slice: 1 })
    );
}

#[test]
fn each_slice_ends_with_the_image_the_next_starts_with() {
    let mut trace: Vec<EventTableEntry> = (1..=9).map(constant).collect();
    trace[3] = call(4);
    let slices = Slices::from_table(tables(trace, genesis(5)), 4).unwrap();
    assert_eq!(slices.slices.len(), 3);
    for pair in slices.slices.windows(2) {
        assert_eq!(
            pair[0].table.post_image_table.initialization_state.plain(),
            pair[1].table.pre_image_table.initialization_state.plain()
        );
        assert_eq!(
            pair[0].table.post_image_table.itable.entries(),
            pair[1].table.pre_image_table.itable.entries()
        );
    }
    // The last slice ends where the trace ends.
    assert_eq!(
        slices.slices[2].table.post_image_table.initialization_state.plain(),
        terminal().plain()
    );
}

#[test]
fn post_image_that_is_not_the_next_pre_image_breaks_the_chain() {
    let trace: Vec<EventTableEntry> = (1..=9).map(constant).collect();
    let mut slices = Slices::from_table(tables(trace, genesis(0)), 4).unwrap();
    assert_eq!(slices.check_boundaries(), Ok(()));
    slices.slices[1].table.post_image_table.initialization_state.eid = 0;
    assert_eq!(
        slices.check_boundaries(),
        Err(TraceError::InconsistentBoundaryState { slice: 2 })
    );
}

#[test]
fn state_after_the_last_step() {
    let ret = |eid: u32, drop: u32| EventTableEntry {
        inst: InstructionTableEntry { fid: 1, iid: eid, opcode: Opcode::Return { drop, keep: 0 } },
        step_info: StepInfo::Return { drop, keep: 0 },
        ..constant(eid)
    };
    let trace = vec![call(1), host(2, HostFunction::ContextInput), ret(3, 4)];
    let after = Slices::terminal_state(&genesis(2), &trace, false).unwrap();
    assert_eq!(
        after.plain(),
        vec![4, 0, 0, 0, trace[2].sp + 4, trace[2].allocated_memory_pages, 8, 1, 2, 1, 1, 0]
    );
    // Nothing happens in an empty trace.
    assert_eq!(
        Slices::terminal_state(&genesis(2), &vec![], false).map(|s| s.plain()),
        Some(genesis(2).plain())
    );
    // A trace ends with a return, and cannot use more jump operations than it has.
    assert!(Slices::terminal_state(&genesis(2), &trace[..2].to_vec(), false).is_none());
    assert!(Slices::terminal_state(&genesis(1), &trace, false).is_none());
    // A slice that starts with a copy of the call has not to pay for it again.
    assert!(Slices::terminal_state(&genesis(1), &trace, true).is_some());
    assert!(Slices::terminal_state(&genesis(3), &trace, false).is_some());
}
