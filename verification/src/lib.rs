//! Trace arithmetization for a WebAssembly proving pipeline: the table data
//! model, the memory consistency builder, the table encoders, the
//! continuation slicer and the image checksum.

use crate::brtable::ElemTable;
use crate::error::TraceError;
use crate::etable::{trace_events, EventTable};
use crate::imtable::InitMemoryTable;
use crate::itable::InstructionTable;
use crate::jtable::{JumpTable, StaticFrameEntry};
use crate::mtable::{is_table_of, lacks_init_value, missing_init_error, MTable};
use vstd::prelude::*;

pub mod brtable;
pub mod checksum;
pub mod circuits;
pub mod continuation;
pub mod encode;
pub mod error;
pub mod etable;
pub mod field;
pub mod imtable;
pub mod itable;
pub mod jtable;
pub mod mtable;
pub mod runtime;
pub mod step;

verus! {

/// A checkpoint of the execution state: where the next step stands, what it
/// sees of stack and memory, how far the four input and output streams have
/// been consumed, and how many jump operations are still to come.
///
/// `T` is `u32` while a trace is built and a cell of the proof once the
/// checkpoint is assigned.
#[derive(Clone, Copy, Debug)]
pub struct InitializationState<T> {
    pub eid: T,
    pub fid: T,
    pub iid: T,
    pub frame_id: T,
    pub sp: T,
    pub initial_memory_pages: T,
    pub maximal_memory_pages: T,
    pub input_index: T,
    pub context_input_index: T,
    pub context_output_index: T,
    pub external_host_call_index: T,
    pub jops: T,
}

impl<T> InitializationState<T> {
    /// The fields in their fixed order.
    pub open spec fn spec_plain(self) -> Seq<T> {
        seq![
            self.eid,
            self.fid,
            self.iid,
            self.frame_id,
            self.sp,
            self.initial_memory_pages,
            self.maximal_memory_pages,
            self.input_index,
            self.context_input_index,
            self.context_output_index,
            self.external_host_call_index,
            self.jops,
        ]
    }

    /// The checkpoint whose fields are `fields`, read in the fixed order.
    pub open spec fn from_plain(fields: Seq<T>) -> InitializationState<T> {
        InitializationState {
            eid: fields[0],
            fid: fields[1],
            iid: fields[2],
            frame_id: fields[3],
            sp: fields[4],
            initial_memory_pages: fields[5],
            maximal_memory_pages: fields[6],
            input_index: fields[7],
            context_input_index: fields[8],
            context_output_index: fields[9],
            external_host_call_index: fields[10],
            jops: fields[11],
        }
    }

    /// Applies `f` to every field.
    pub fn map<U, F: Fn(&T) -> U>(&self, f: F) -> (r: InitializationState<U>)
        requires
            forall|i: int| 0 <= i < 12 ==> call_requires(f, (&#[trigger] self.spec_plain()[i],)),
        ensures
            forall|i: int|
                0 <= i < 12 ==> call_ensures(
                    f,
                    (&self.spec_plain()[i],),
                    #[trigger] r.spec_plain()[i],
                ),
    {
        proof {
            let p = self.spec_plain();
            assert(p[0] == self.eid && p[1] == self.fid && p[2] == self.iid && p[3]
                == self.frame_id && p[4] == self.sp && p[5] == self.initial_memory_pages);
            assert(p[6] == self.maximal_memory_pages && p[7] == self.input_index && p[8]
                == self.context_input_index && p[9] == self.context_output_index && p[10]
                == self.external_host_call_index && p[11] == self.jops);
        }
        InitializationState {
            eid: f(&self.eid),
            fid: f(&self.fid),
            iid: f(&self.iid),
            frame_id: f(&self.frame_id),
            sp: f(&self.sp),
            initial_memory_pages: f(&self.initial_memory_pages),
            maximal_memory_pages: f(&self.maximal_memory_pages),
            input_index: f(&self.input_index),
            context_input_index: f(&self.context_input_index),
            context_output_index: f(&self.context_output_index),
            external_host_call_index: f(&self.external_host_call_index),
            jops: f(&self.jops),
        }
    }

    /// The fields as a list, in their fixed order.
    pub fn plain(self) -> (fields: Vec<T>)
        ensures
            fields@ == self.spec_plain(),
    {
        let mut fields: Vec<T> = Vec::new();
        fields.push(self.eid);
        fields.push(self.fid);
        fields.push(self.iid);
        fields.push(self.frame_id);
        fields.push(self.sp);
        fields.push(self.initial_memory_pages);
        fields.push(self.maximal_memory_pages);
        fields.push(self.input_index);
        fields.push(self.context_input_index);
        fields.push(self.context_output_index);
        fields.push(self.external_host_call_index);
        fields.push(self.jops);
        proof {
            assert(fields@ =~= self.spec_plain());
        }
        fields
    }
}

/// Listing the fields of a checkpoint loses nothing.
pub proof fn lemma_plain_round_trip<T>(state: InitializationState<T>)
    ensures
        state.spec_plain().len() == 12,
        InitializationState::from_plain(state.spec_plain()) == state,
{
}

impl Default for InitializationState<u32> {
    fn default() -> (r: Self)
        ensures
            r.spec_plain() == Seq::new(12, |i: int| 0u32),
    {
        let r = InitializationState {
            eid: 0,
            fid: 0,
            iid: 0,
            frame_id: 0,
            sp: 0,
            initial_memory_pages: 0,
            maximal_memory_pages: 0,
            input_index: 0,
            context_input_index: 0,
            context_output_index: 0,
            external_host_call_index: 0,
            jops: 0,
        };
        proof {
            assert(r.spec_plain() =~= Seq::new(12, |i: int| 0u32));
        }
        r
    }
}

/// A copy of a list of plain rows.
pub fn copy_entries<T: Copy>(entries: &Vec<T>) -> (copy: Vec<T>)
    ensures
        copy@ == entries@,
{
    let mut copy: Vec<T> = Vec::new();
    let mut i: usize = 0;
    while i < entries.len()
        invariant
            i <= entries.len(),
            copy@ == entries@.take(i as int),
        decreases entries.len() - i,
    {
        copy.push(entries[i]);
        proof {
            assert(entries@.take(i + 1) =~= entries@.take(i as int).push(entries@[i as int]));
        }
        i += 1;
    }
    proof {
        assert(entries@.take(entries@.len() as int) =~= entries@);
    }
    copy
}

/// The program image: everything that is fixed before the first step of a
/// trace, or of a slice of one.
#[derive(Debug)]
pub struct CompilationTable {
    pub itable: InstructionTable,
    pub imtable: InitMemoryTable,
    pub elem_table: ElemTable,
    pub static_jtable: Vec<StaticFrameEntry>,
    pub initialization_state: InitializationState<u32>,
}

impl CompilationTable {
    /// Whether `self` and `other` hold the same rows and the same checkpoint.
    pub open spec fn same_as(&self, other: &CompilationTable) -> bool {
        &&& self.same_image_as(other)
        &&& self.initialization_state == other.initialization_state
    }

    /// Whether `self` and `other` hold the same rows, whatever checkpoint
    /// each one starts from.
    pub open spec fn same_image_as(&self, other: &CompilationTable) -> bool {
        &&& self.itable@ == other.itable@
        &&& self.imtable@ == other.imtable@
        &&& self.elem_table@ == other.elem_table@
        &&& self.static_jtable@ == other.static_jtable@
    }

    /// A copy of the image that starts from the checkpoint `state`.
    pub fn with_state(&self, state: InitializationState<u32>) -> (r: CompilationTable)
        ensures
            r.same_image_as(self),
            r.initialization_state == state,
    {
        CompilationTable {
            itable: InstructionTable::new(copy_entries(self.itable.entries())),
            imtable: InitMemoryTable::new(copy_entries(self.imtable.entries())),
            elem_table: ElemTable::new(copy_entries(self.elem_table.entries())),
            static_jtable: copy_entries(&self.static_jtable),
            initialization_state: state,
        }
    }
}

impl Clone for CompilationTable {
    fn clone(&self) -> (r: Self)
        ensures
            r.same_as(self),
    {
        self.with_state(self.initialization_state)
    }
}

/// What execution produced: the steps and the frames they opened.
#[derive(Debug)]
pub struct ExecutionTable {
    pub etable: EventTable,
    pub jtable: JumpTable,
}

/// All tables of one proof instance: the image before the first step, what
/// execution produced, and the image after the last step.
#[derive(Debug)]
pub struct Tables {
    pub pre_image_table: CompilationTable,
    pub execution_table: ExecutionTable,
    pub post_image_table: CompilationTable,
}

impl Tables {
    /// Builds the memory table of the trace over the initial memory of the
    /// image.
    ///
    /// Fails on the first memory access, in trace order, that reads a heap
    /// cell or a global which has no initial value and no earlier write.
    pub fn create_memory_table(&self) -> (r: Result<MTable, TraceError>)
        ensures
            ({
                let events = trace_events(self.execution_table.etable@);
                let image = self.pre_image_table.imtable@;
                match r {
                    Ok(table) => {
                        &&& forall|i: int|
                            0 <= i < events.len() ==> !lacks_init_value(image, events, i)
                        &&& is_table_of(table@, image, events)
                    },
                    Err(e) => Some(e) == missing_init_error(image, events),
                }
            }),
    {
        let events = self.execution_table.etable.memory_events();
        MTable::new(events, &self.pre_image_table.imtable)
    }
}

} // verus!
