//! What the interpreter hands over: the image of a compiled module and the
//! tables of a run.

use crate::brtable::ElemTable;
use crate::circuits::etable::{ends_with_return, lemma_rest_bounded, rest_jops};
use crate::continuation::slice::{derive_terminal, lemma_jops_split, Slices};
use crate::error::{TableKind, TraceError};
use crate::etable::{EventTable, EventTableEntry};
use crate::imtable::InitMemoryTable;
use crate::itable::{InstructionTable, Opcode};
use crate::jtable::{JumpTable, StaticFrameEntry};
use crate::{CompilationTable, ExecutionTable, InitializationState, Tables};
use vstd::prelude::*;

verus! {

/// Slots of the value stack. The stack grows downwards from the last slot.
pub const DEFAULT_VALUE_STACK_LIMIT: u32 = 4096;

/// The values that crossed the boundary of the module during a run.
pub struct WasmRuntimeIO {
    pub public_inputs_and_outputs: Vec<u64>,
    pub outputs: Vec<u64>,
}

impl WasmRuntimeIO {
    pub fn empty() -> (io: WasmRuntimeIO)
        ensures
            io.public_inputs_and_outputs@.len() == 0,
            io.outputs@.len() == 0,
    {
        WasmRuntimeIO { public_inputs_and_outputs: Vec::new(), outputs: Vec::new() }
    }
}

/// The memory that a module is configured with, in pages.
#[derive(Clone, Copy, Debug, PartialEq, Eq, Structural)]
pub struct ConfigureTable {
    pub init_memory_pages: u32,
    pub maximal_memory_pages: u32,
}

/// The static frames of a module whose entry point is the function
/// `idx_of_entry`: the frame of the entry point, and behind it, for a module
/// with a start function, the frame of the start function, which is function
/// 0 and returns to the first instruction of the entry point.
pub open spec fn static_frames(idx_of_entry: u32, has_start: bool) -> Seq<StaticFrameEntry> {
    let entry = StaticFrameEntry {
        enable: true,
        frame_id: 0,
        next_frame_id: 0,
        callee_fid: idx_of_entry,
        fid: 0,
        iid: 0,
    };
    let start = StaticFrameEntry {
        enable: true,
        frame_id: 0,
        next_frame_id: 0,
        callee_fid: 0,
        fid: idx_of_entry,
        iid: 0,
    };
    if has_start {
        seq![entry, start]
    } else {
        seq![entry]
    }
}

/// The checkpoint before the first step: execution starts with step 1 in the
/// start function, which is function 0, or without one in the entry point; the
/// stack is empty, every stream stands at its first value, and no jump
/// operation is accounted for yet.
pub open spec fn genesis_state(idx_of_entry: u32, has_start: bool, configure: ConfigureTable)
    -> InitializationState<u32> {
    InitializationState {
        eid: 1,
        fid: if has_start {
            0
        } else {
            idx_of_entry
        },
        iid: 0,
        frame_id: 0,
        sp: (DEFAULT_VALUE_STACK_LIMIT - 1) as u32,
        initial_memory_pages: configure.init_memory_pages,
        maximal_memory_pages: configure.maximal_memory_pages,
        input_index: 1,
        context_input_index: 1,
        context_output_index: 1,
        external_host_call_index: 1,
        jops: 0,
    }
}

/// The checkpoint `state` with the jump operations of the whole trace before
/// it.
pub open spec fn started(state: InitializationState<u32>, entries: Seq<EventTableEntry>)
    -> InitializationState<u32> {
    InitializationState { jops: rest_jops(entries, 0) as u32, ..state }
}

/// Why a run from `state` has no tables, if it has none: it has more jump
/// operations than a checkpoint can count, it does not end with a return, or
/// its streams leave the range of their cells.
pub open spec fn run_error(state: InitializationState<u32>, entries: Seq<EventTableEntry>)
    -> Option<TraceError> {
    let too_long = TraceError::CapacityExceeded {
        table: TableKind::Event,
        required: entries.len() as usize,
        capacity: u32::MAX as usize,
    };
    if rest_jops(entries, 0) > u32::MAX {
        Some(too_long)
    } else if entries.len() > 0 && !ends_with_return(entries) {
        Some(TraceError::MalformedTerminalTrace { eid: entries.last().eid })
    } else if derive_terminal(started(state, entries), entries, false) is None {
        Some(too_long)
    } else {
        None
    }
}

pub struct WasmiRuntime;

impl WasmiRuntime {
    pub fn new() -> WasmiRuntime {
        WasmiRuntime
    }

    /// The image of a compiled module, from what the interpreter found in it.
    pub fn compile(
        itable: InstructionTable,
        imtable: InitMemoryTable,
        elem_table: ElemTable,
        configure_table: ConfigureTable,
        idx_of_entry: u32,
        has_start: bool,
    ) -> (image: CompilationTable)
        ensures
            image.itable@ == itable@,
            image.imtable@ == imtable@,
            image.elem_table@ == elem_table@,
            image.static_jtable@ == static_frames(idx_of_entry, has_start),
            image.initialization_state == genesis_state(idx_of_entry, has_start, configure_table),
    {
        let mut static_jtable: Vec<StaticFrameEntry> = Vec::new();
        static_jtable.push(
            StaticFrameEntry {
                enable: true,
                frame_id: 0,
                next_frame_id: 0,
                callee_fid: idx_of_entry,
                fid: 0,
                iid: 0,
            },
        );
        if has_start {
            static_jtable.push(
                StaticFrameEntry {
                    enable: true,
                    frame_id: 0,
                    next_frame_id: 0,
                    callee_fid: 0,
                    fid: idx_of_entry,
                    iid: 0,
                },
            );
        }
        proof {
            assert(static_jtable@ =~= static_frames(idx_of_entry, has_start));
        }
        let fid_of_entry = if has_start {
            0
        } else {
            idx_of_entry
        };
        CompilationTable {
            itable,
            imtable,
            elem_table,
            static_jtable,
            initialization_state: InitializationState {
                eid: 1,
                fid: fid_of_entry,
                iid: 0,
                frame_id: 0,
                sp: DEFAULT_VALUE_STACK_LIMIT - 1,
                initial_memory_pages: configure_table.init_memory_pages,
                maximal_memory_pages: configure_table.maximal_memory_pages,
                input_index: 1,
                context_input_index: 1,
                context_output_index: 1,
                external_host_call_index: 1,
                jops: 0,
            },
        }
    }

    /// The tables of a run of `image` that made the steps `etable` and opened
    /// the frames `jtable`.
    ///
    /// The checkpoint of the image learns how many jump operations the run
    /// has before it, and the image after the run is the image with the
    /// checkpoint after the last step. A run that does not end with a return
    /// is refused, and so is one too long for the checkpoint to count its
    /// jump operations or the positions of its streams.
    pub fn run(image: CompilationTable, etable: EventTable, jtable: JumpTable) -> (r: Result<
        Tables,
        TraceError,
    >)
        ensures
            match r {
                Ok(tables) => {
                    &&& run_error(image.initialization_state, etable@) is None
                    &&& tables.execution_table.etable@ == etable@
                    &&& tables.execution_table.jtable@ == jtable@
                    &&& tables.pre_image_table.same_image_as(&image)
                    &&& tables.pre_image_table.initialization_state == started(
                        image.initialization_state,
                        etable@,
                    )
                    &&& tables.post_image_table.same_image_as(&image)
                    &&& Some(tables.post_image_table.initialization_state) == derive_terminal(
                        started(image.initialization_state, etable@),
                        etable@,
                        false,
                    )
                    &&& tables.post_image_table.initialization_state.jops == 0
                },
                Err(e) => Some(e) == run_error(image.initialization_state, etable@),
            },
    {
        let entries = etable.entries();
        let n = entries.len();
        let mut jops: u64 = 0;
        let mut k: usize = n;
        while k > 0
            invariant
                k <= n,
                n == entries@.len(),
                jops == rest_jops(entries@, k as int),
            decreases k,
        {
            proof {
                lemma_rest_bounded(entries@, k as int);
            }
            k -= 1;
            jops += entries[k].inst.opcode.jops() as u64;
        }
        let too_long = TraceError::CapacityExceeded {
            table: TableKind::Event,
            required: n,
            capacity: u32::MAX as usize,
        };
        if jops > u32::MAX as u64 {
            return Err(too_long);
        }
        let state = InitializationState { jops: jops as u32, ..image.initialization_state };
        let post = match Slices::terminal_state(&state, entries, false) {
            Some(post) => post,
            None => {
                if n > 0 {
                    let last = entries[n - 1];
                    let ends = match last.inst.opcode {
                        Opcode::Return { drop, .. } => last.eid < u32::MAX && drop <= u32::MAX
                            - last.sp,
                        _ => false,
                    };
                    if !ends {
                        return Err(TraceError::MalformedTerminalTrace { eid: last.eid });
                    }
                }
                return Err(too_long);
            },
        };
        proof {
            lemma_jops_split(entries@, n as int);
        }
        let post_image_table = image.with_state(post);
        let pre_image_table = image.with_state(state);
        Ok(
            Tables {
                pre_image_table,
                execution_table: ExecutionTable { etable, jtable },
                post_image_table,
            },
        )
    }
}

} // verus!
