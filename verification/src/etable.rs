//! The event table: one entry for each executed step.

use crate::itable::{ExternalHostCallSignature, HostFunction, InstructionTableEntry};
use crate::mtable::{chronological, AccessType, LocationType, MemoryTableEntry, VarType};
use crate::step::StepInfo;
use vstd::prelude::*;

verus! {

#[derive(Clone, Copy, Debug, PartialEq, Eq, Structural, Hash)]
pub struct EventTableEntry {
    pub eid: u32,
    pub inst: InstructionTableEntry,
    pub sp: u32,
    pub last_jump_eid: u32,
    pub allocated_memory_pages: u32,
    pub step_info: StepInfo,
}

/// The access with which a step reads the value it moves.
pub open spec fn read_access(
    eid: u32,
    ltype: LocationType,
    offset: u32,
    vtype: VarType,
    is_mutable: bool,
    value: u64,
) -> MemoryTableEntry {
    MemoryTableEntry { eid, emid: 1, offset, ltype, atype: AccessType::Read, vtype, is_mutable, value }
}

/// The access with which a step writes the value it moves.
pub open spec fn write_access(
    eid: u32,
    ltype: LocationType,
    offset: u32,
    vtype: VarType,
    is_mutable: bool,
    value: u64,
) -> MemoryTableEntry {
    MemoryTableEntry {
        eid,
        emid: 2,
        offset,
        ltype,
        atype: AccessType::Write,
        vtype,
        is_mutable,
        value,
    }
}

fn read_of(
    eid: u32,
    ltype: LocationType,
    offset: u32,
    vtype: VarType,
    is_mutable: bool,
    value: u64,
) -> (r: MemoryTableEntry)
    ensures
        r == read_access(eid, ltype, offset, vtype, is_mutable, value),
{
    MemoryTableEntry { eid, emid: 1, offset, ltype, atype: AccessType::Read, vtype, is_mutable, value }
}

fn write_of(
    eid: u32,
    ltype: LocationType,
    offset: u32,
    vtype: VarType,
    is_mutable: bool,
    value: u64,
) -> (r: MemoryTableEntry)
    ensures
        r == write_access(eid, ltype, offset, vtype, is_mutable, value),
{
    MemoryTableEntry {
        eid,
        emid: 2,
        offset,
        ltype,
        atype: AccessType::Write,
        vtype,
        is_mutable,
        value,
    }
}

/// The locations between which a step moves a value, with the type,
/// the mutability of each end and the value: source first. `None` for the
/// steps that touch no memory.
pub open spec fn moved(step: StepInfo) -> Option<
    ((LocationType, u32, bool), (LocationType, u32, bool), VarType, u64),
> {
    match step {
        StepInfo::LocalGet { vtype, from_slot, to_slot, value } => Some(
            (
                (LocationType::Stack, from_slot, true),
                (LocationType::Stack, to_slot, true),
                vtype,
                value,
            ),
        ),
        StepInfo::LocalSet { vtype, from_slot, to_slot, value } => Some(
            (
                (LocationType::Stack, from_slot, true),
                (LocationType::Stack, to_slot, true),
                vtype,
                value,
            ),
        ),
        StepInfo::GlobalGet { idx, vtype, is_mutable, to_slot, value } => Some(
            (
                (LocationType::Global, idx, is_mutable),
                (LocationType::Stack, to_slot, true),
                vtype,
                value,
            ),
        ),
        StepInfo::GlobalSet { idx, vtype, is_mutable, from_slot, value } => Some(
            (
                (LocationType::Stack, from_slot, true),
                (LocationType::Global, idx, is_mutable),
                vtype,
                value,
            ),
        ),
        StepInfo::Load { vtype, offset, to_slot, value } => Some(
            (
                (LocationType::Heap, offset, true),
                (LocationType::Stack, to_slot, true),
                vtype,
                value,
            ),
        ),
        StepInfo::Store { vtype, offset, from_slot, value } => Some(
            (
                (LocationType::Stack, from_slot, true),
                (LocationType::Heap, offset, true),
                vtype,
                value,
            ),
        ),
        _ => None,
    }
}

/// The memory accesses of one step: a read at the source and a write at the
/// destination for a step that moves a value, nothing for any other.
pub open spec fn step_events(entry: EventTableEntry) -> Seq<MemoryTableEntry> {
    match moved(entry.step_info) {
        Some((from, to, vtype, value)) => seq![
            read_access(entry.eid, from.0, from.1, vtype, from.2, value),
            write_access(entry.eid, to.0, to.1, vtype, to.2, value),
        ],
        None => Seq::empty(),
    }
}

/// The memory accesses of a trace: those of its steps, in step order.
pub open spec fn trace_events(entries: Seq<EventTableEntry>) -> Seq<MemoryTableEntry>
    decreases entries.len(),
{
    if entries.len() == 0 {
        Seq::empty()
    } else {
        trace_events(entries.drop_last()) + step_events(entries.last())
    }
}

/// Expands one step into its memory accesses.
pub fn memory_event_of_step(entry: &EventTableEntry) -> (events: Vec<MemoryTableEntry>)
    ensures
        events@ == step_events(*entry),
{
    let eid = entry.eid;
    let mut events: Vec<MemoryTableEntry> = Vec::new();
    match entry.step_info {
        StepInfo::LocalGet { vtype, from_slot, to_slot, value } => {
            events.push(read_of(eid, LocationType::Stack, from_slot, vtype, true, value));
            events.push(write_of(eid, LocationType::Stack, to_slot, vtype, true, value));
        },
        StepInfo::LocalSet { vtype, from_slot, to_slot, value } => {
            events.push(read_of(eid, LocationType::Stack, from_slot, vtype, true, value));
            events.push(write_of(eid, LocationType::Stack, to_slot, vtype, true, value));
        },
        StepInfo::GlobalGet { idx, vtype, is_mutable, to_slot, value } => {
            events.push(read_of(eid, LocationType::Global, idx, vtype, is_mutable, value));
            events.push(write_of(eid, LocationType::Stack, to_slot, vtype, true, value));
        },
        StepInfo::GlobalSet { idx, vtype, is_mutable, from_slot, value } => {
            events.push(read_of(eid, LocationType::Stack, from_slot, vtype, true, value));
            events.push(write_of(eid, LocationType::Global, idx, vtype, is_mutable, value));
        },
        StepInfo::Load { vtype, offset, to_slot, value } => {
            events.push(read_of(eid, LocationType::Heap, offset, vtype, true, value));
            events.push(write_of(eid, LocationType::Stack, to_slot, vtype, true, value));
        },
        StepInfo::Store { vtype, offset, from_slot, value } => {
            events.push(read_of(eid, LocationType::Stack, from_slot, vtype, true, value));
            events.push(write_of(eid, LocationType::Heap, offset, vtype, true, value));
        },
        _ => {},
    }
    proof {
        assert(events@ =~= step_events(*entry));
    }
    events
}

impl EventTableEntry {
    /// How many rows the step writes into the memory table: one for each
    /// access it makes, the read and the write of a step that moves a value.
    /// The memory table counts the same rows down, so that the two counts can
    /// be held against each other.
    pub open spec fn spec_memory_writing_ops(&self) -> u32 {
        if moved(self.step_info) is Some {
            2
        } else {
            0
        }
    }

    #[verifier::when_used_as_spec(spec_memory_writing_ops)]
    pub fn memory_writing_ops(&self) -> (r: u32)
        ensures
            r == self.spec_memory_writing_ops(),
            r <= 2,
    {
        match self.step_info {
            StepInfo::LocalGet { .. } => 2,
            StepInfo::LocalSet { .. } => 2,
            StepInfo::GlobalGet { .. } => 2,
            StepInfo::GlobalSet { .. } => 2,
            StepInfo::Load { .. } => 2,
            StepInfo::Store { .. } => 2,
            _ => 0,
        }
    }

    /// Whether the step takes the next public input.
    pub open spec fn spec_is_host_public_input(&self) -> bool {
        self.step_info matches StepInfo::CallHost { function, is_public, .. } && function
            == HostFunction::PublicInput && is_public
    }

    #[verifier::when_used_as_spec(spec_is_host_public_input)]
    pub fn is_host_public_input(&self) -> (r: bool)
        ensures
            r == self.spec_is_host_public_input(),
    {
        match self.step_info {
            StepInfo::CallHost { function, is_public, .. } => function == HostFunction::PublicInput
                && is_public,
            _ => false,
        }
    }

    /// Whether the step takes the next value of the context input.
    pub open spec fn spec_is_context_input_op(&self) -> bool {
        self.step_info matches StepInfo::CallHost { function, .. } && function
            == HostFunction::ContextInput
    }

    #[verifier::when_used_as_spec(spec_is_context_input_op)]
    pub fn is_context_input_op(&self) -> (r: bool)
        ensures
            r == self.spec_is_context_input_op(),
    {
        match self.step_info {
            StepInfo::CallHost { function, .. } => function == HostFunction::ContextInput,
            _ => false,
        }
    }

    /// Whether the step appends a value to the context output.
    pub open spec fn spec_is_context_output_op(&self) -> bool {
        self.step_info matches StepInfo::CallHost { function, .. } && function
            == HostFunction::ContextOutput
    }

    #[verifier::when_used_as_spec(spec_is_context_output_op)]
    pub fn is_context_output_op(&self) -> (r: bool)
        ensures
            r == self.spec_is_context_output_op(),
    {
        match self.step_info {
            StepInfo::CallHost { function, .. } => function == HostFunction::ContextOutput,
            _ => false,
        }
    }

    /// Whether the step hands a value to an external host function, or takes
    /// one from it.
    pub open spec fn spec_is_external_host_call(&self) -> bool {
        self.step_info is ExternalHostCall
    }

    #[verifier::when_used_as_spec(spec_is_external_host_call)]
    pub fn is_external_host_call(&self) -> (r: bool)
        ensures
            r == self.spec_is_external_host_call(),
    {
        match self.step_info {
            StepInfo::ExternalHostCall { .. } => true,
            _ => false,
        }
    }
}

/// A step writes as many rows into the memory table as it makes accesses,
/// and none of them is an initialization.
pub proof fn lemma_memory_writing_ops(entry: EventTableEntry)
    ensures
        entry.spec_memory_writing_ops() == step_events(entry).len(),
        forall|i: int|
            0 <= i < step_events(entry).len() ==> (#[trigger] step_events(entry)[i]).atype
                != AccessType::Init,
{
}

/// No step expands to an initialization: those are synthesized when the
/// memory table is built.
pub proof fn lemma_trace_events_are_reads_and_writes(entries: Seq<EventTableEntry>, i: int)
    requires
        0 <= i < trace_events(entries).len(),
    ensures
        trace_events(entries)[i].atype != AccessType::Init,
    decreases entries.len(),
{
    if entries.len() > 0 {
        let before = trace_events(entries.drop_last());
        if i < before.len() {
            lemma_trace_events_are_reads_and_writes(entries.drop_last(), i);
        }
    }
}

/// Whether the steps are numbered as the steps of a trace are: from 1 or
/// more, each above the one before it.
pub open spec fn well_numbered(entries: Seq<EventTableEntry>) -> bool {
    &&& forall|i: int| 0 <= i < entries.len() ==> (#[trigger] entries[i]).eid >= 1
    &&& forall|i: int, j: int|
        0 <= i < j < entries.len() ==> (#[trigger] entries[i]).eid < (#[trigger] entries[j]).eid
}

/// Every access of a trace is an access of one of its steps.
pub proof fn lemma_event_of_step(entries: Seq<EventTableEntry>, p: int)
    requires
        0 <= p < trace_events(entries).len(),
    ensures
        exists|s: int|
            0 <= s < entries.len() && #[trigger] step_events(entries[s]).contains(
                trace_events(entries)[p],
            ),
    decreases entries.len(),
{
    if entries.len() > 0 {
        let before = trace_events(entries.drop_last());
        let last = entries.len() - 1;
        if p < before.len() {
            lemma_event_of_step(entries.drop_last(), p);
            let s = choose|s: int|
                0 <= s < entries.drop_last().len() && #[trigger] step_events(
                    entries.drop_last()[s],
                ).contains(before[p]);
            assert(step_events(entries[s]).contains(trace_events(entries)[p]));
        } else {
            assert(step_events(entries[last])[p - before.len()] == trace_events(entries)[p]);
            assert(step_events(entries[last]).contains(trace_events(entries)[p]));
        }
    }
}

/// The accesses of a well-numbered trace come in the order in which they
/// happen.
pub proof fn lemma_trace_is_chronological(entries: Seq<EventTableEntry>)
    requires
        well_numbered(entries),
    ensures
        chronological(trace_events(entries)),
    decreases entries.len(),
{
    let events = trace_events(entries);
    if entries.len() > 0 {
        let rest = entries.drop_last();
        let last = entries.last();
        assert(well_numbered(rest)) by {
            assert forall|i: int, j: int| 0 <= i < j < rest.len() implies (#[trigger] rest[i]).eid
                < (#[trigger] rest[j]).eid by {
                assert(entries[i].eid < entries[j].eid);
            }
            assert forall|i: int| 0 <= i < rest.len() implies (#[trigger] rest[i]).eid >= 1 by {
                assert(entries[i].eid >= 1);
            }
        }
        lemma_trace_is_chronological(rest);
        let before = trace_events(rest);
        let own = step_events(last);
        assert forall|i: int| 0 <= i < events.len() implies (#[trigger] events[i]).eid >= 1 by {
            if i < before.len() {
                assert(events[i] == before[i]);
            } else {
                assert(events[i] == own[i - before.len()]);
                assert(entries[entries.len() - 1].eid >= 1);
            }
        }
        assert forall|i: int, j: int| 0 <= i < j < events.len() implies (
        #[trigger] events[i]).precedes(#[trigger] events[j]) by {
            if j < before.len() {
                assert(events[i] == before[i] && events[j] == before[j]);
            } else if i < before.len() {
                lemma_event_of_step(rest, i);
                let s = choose|s: int|
                    0 <= s < rest.len() && #[trigger] step_events(rest[s]).contains(before[i]);
                let k = choose|k: int|
                    0 <= k < step_events(rest[s]).len() && step_events(rest[s])[k] == before[i];
                assert(before[i].eid == rest[s].eid);
                assert(entries[s].eid < entries[entries.len() - 1].eid);
                assert(events[j] == own[j - before.len()]);
                assert(events[j].eid == last.eid);
            } else {
                assert(events[i] == own[i - before.len()]);
                assert(events[j] == own[j - before.len()]);
            }
        }
    }
}

/// A value that a step handed to an external host function, or took from it.
#[derive(Clone, Copy, Debug, PartialEq, Eq, Structural, Hash)]
pub struct ExternalHostCallEntry {
    pub op: u32,
    pub value: u64,
    pub sig: ExternalHostCallSignature,
}

/// What the step `entry` exchanged with an external host function, if it is
/// such a step.
pub open spec fn external_host_call(entry: EventTableEntry) -> Option<ExternalHostCallEntry> {
    match entry.step_info {
        StepInfo::ExternalHostCall { op, value, sig } => Some(
            ExternalHostCallEntry { op, value, sig },
        ),
        _ => None,
    }
}

#[derive(Debug)]
pub struct EventTable {
    pub entries: Vec<EventTableEntry>,
}

impl View for EventTable {
    type V = Seq<EventTableEntry>;

    open spec fn view(&self) -> Seq<EventTableEntry> {
        self.entries@
    }
}

impl EventTable {
    pub fn new(entries: Vec<EventTableEntry>) -> (table: EventTable)
        ensures
            table@ == entries@,
    {
        EventTable { entries }
    }

    pub fn entries(&self) -> (entries: &Vec<EventTableEntry>)
        ensures
            entries@ == self@,
    {
        &self.entries
    }

    /// Whether the steps are numbered as the steps of a trace are.
    pub fn is_well_numbered(&self) -> (r: bool)
        ensures
            r == well_numbered(self@),
    {
        let mut i: usize = 0;
        while i < self.entries.len()
            invariant
                i <= self.entries.len(),
                forall|a: int| 0 <= a < i ==> (#[trigger] self@[a]).eid >= 1,
                forall|a: int, b: int|
                    0 <= a < b < i ==> (#[trigger] self@[a]).eid < (#[trigger] self@[b]).eid,
            decreases self.entries.len() - i,
        {
            let eid = self.entries[i].eid;
            if eid == 0 || (i > 0 && self.entries[i - 1].eid >= eid) {
                proof {
                    if eid != 0 {
                        assert(!(self@[i - 1].eid < self@[i as int].eid));
                    }
                }
                return false;
            }
            proof {
                assert forall|a: int, b: int| 0 <= a < b < i + 1 implies (#[trigger] self@[a]).eid
                    < (#[trigger] self@[b]).eid by {
                    if b == i && a < i - 1 {
                        assert(self@[a].eid < self@[i - 1].eid);
                    }
                }
            }
            i += 1;
        }
        true
    }

    /// The values that the trace exchanged with external host functions, in
    /// trace order.
    pub fn filter_external_host_call_table(&self) -> (calls: Vec<ExternalHostCallEntry>)
        ensures
            calls@ == self@.filter_map(|e: EventTableEntry| external_host_call(e)),
    {
        let ghost f = |e: EventTableEntry| external_host_call(e);
        let mut calls: Vec<ExternalHostCallEntry> = Vec::new();
        let mut i: usize = 0;
        proof {
            assert(self@.take(0) =~= Seq::<EventTableEntry>::empty());
        }
        while i < self.entries.len()
            invariant
                i <= self.entries.len(),
                f == (|e: EventTableEntry| external_host_call(e)),
                calls@ == self@.take(i as int).filter_map(f),
            decreases self.entries.len() - i,
        {
            proof {
                assert(self@.take(i + 1).drop_last() =~= self@.take(i as int));
                assert(self@.take(i + 1).last() == self@[i as int]);
            }
            match self.entries[i].step_info {
                StepInfo::ExternalHostCall { op, value, sig } => {
                    let call = ExternalHostCallEntry { op, value, sig };
                    calls.push(call);
                    proof {
                        assert(self@.take(i as int).filter_map(f) + seq![call] =~= self@.take(
                            i as int,
                        ).filter_map(f).push(call));
                    }
                },
                _ => {},
            }
            i += 1;
        }
        proof {
            assert(self@.take(self@.len() as int) =~= self@);
        }
        calls
    }

    /// The memory accesses of the whole trace, step after step.
    pub fn memory_events(&self) -> (events: Vec<MemoryTableEntry>)
        ensures
            events@ == trace_events(self@),
    {
        let mut events: Vec<MemoryTableEntry> = Vec::new();
        let mut i: usize = 0;
        proof {
            assert(self@.take(0) =~= Seq::<EventTableEntry>::empty());
        }
        while i < self.entries.len()
            invariant
                i <= self.entries.len(),
                events@ == trace_events(self@.take(i as int)),
            decreases self.entries.len() - i,
        {
            let mut of_step = memory_event_of_step(&self.entries[i]);
            proof {
                assert(self@.take(i + 1).drop_last() =~= self@.take(i as int));
                assert(self@.take(i + 1).last() == self@[i as int]);
            }
            events.append(&mut of_step);
            i += 1;
        }
        proof {
            assert(self@.take(self@.len() as int) =~= self@);
        }
        events
    }
}

} // verus!
