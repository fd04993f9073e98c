//! Slices of a trace and the checkpoints that chain them.

use crate::circuits::etable::{
    consumed, consumes, ends_with_return, rest_jops, terminal_row, Cursor,
};
use crate::error::TraceError;
use crate::etable::{EventTable, EventTableEntry};
use crate::itable::Opcode;
use crate::jtable::JumpTable;
use crate::{copy_entries, ExecutionTable, InitializationState, Tables};
use vstd::prelude::*;

verus! {

/// The jump operations of the first `n` of `entries`.
pub open spec fn jops_among(entries: Seq<EventTableEntry>, n: int) -> nat
    decreases n,
{
    if n <= 0 || n > entries.len() {
        0
    } else {
        jops_among(entries, n - 1) + entries[n - 1].inst.opcode.spec_jops() as nat
    }
}

/// Where the steps of its own begin in a slice: behind the copy of the seam
/// that it starts with, if it starts with one.
pub open spec fn first_own(events: Seq<EventTableEntry>, copied: bool) -> int {
    if copied && events.len() > 0 {
        1
    } else {
        0
    }
}

/// The jump operations that the steps of a slice cost: those of all its
/// steps, but for the copy of the seam at its front, which the slice before
/// it has paid for.
pub open spec fn own_jops(events: Seq<EventTableEntry>, copied: bool) -> nat {
    (jops_among(events, events.len() as int) - jops_among(events, first_own(events, copied)))
        as nat
}

/// The checkpoint `at` with the streams of `state` moved on by the first `m`
/// of `events` and its jump operations less by `spent`. There is no such
/// checkpoint where a stream position leaves the range of its cell or where
/// more jump operations are spent than `state` has left.
pub open spec fn moved_on_by(
    state: InitializationState<u32>,
    events: Seq<EventTableEntry>,
    m: int,
    spent: nat,
    at: InitializationState<u32>,
) -> Option<InitializationState<u32>> {
    let input_index = state.input_index + consumed(events, m, Cursor::HostInput);
    let context_input_index = state.context_input_index + consumed(
        events,
        m,
        Cursor::ContextInput,
    );
    let context_output_index = state.context_output_index + consumed(
        events,
        m,
        Cursor::ContextOutput,
    );
    let external_host_call_index = state.external_host_call_index + consumed(
        events,
        m,
        Cursor::ExternalHostCall,
    );
    if input_index <= u32::MAX && context_input_index <= u32::MAX && context_output_index
        <= u32::MAX && external_host_call_index <= u32::MAX && spent <= state.jops {
        Some(
            InitializationState {
                input_index: input_index as u32,
                context_input_index: context_input_index as u32,
                context_output_index: context_output_index as u32,
                external_host_call_index: external_host_call_index as u32,
                jops: (state.jops - spent) as u32,
                ..at
            },
        )
    } else {
        None
    }
}

/// The checkpoint with which the slice after `events` starts, if `events`
/// starts from `state`; `copied` tells whether `events` itself starts with a
/// copy of the seam before it.
///
/// The last of `events` is the seam: it is the first step of the next slice,
/// so the checkpoint stands where the seam stands, and the streams stand
/// where the steps before the seam have moved them. The jump operations are
/// accounted slice by slice: the checkpoint has left what `state` had, less
/// the cost of all steps of this slice, the seam among them, so that the copy
/// of the seam in the next slice costs nothing again.
pub open spec fn derive_next(
    state: InitializationState<u32>,
    events: Seq<EventTableEntry>,
    copied: bool,
) -> Option<InitializationState<u32>> {
    if events.len() == 0 {
        None
    } else {
        let seam = events.last();
        moved_on_by(
            state,
            events,
            events.len() - 1,
            own_jops(events, copied),
            InitializationState {
                eid: seam.eid,
                fid: seam.inst.fid,
                iid: seam.inst.iid,
                frame_id: seam.last_jump_eid,
                sp: seam.sp,
                initial_memory_pages: seam.allocated_memory_pages,
                ..state
            },
        )
    }
}

/// The checkpoint after the last of `events`, if `events` starts from `state`
/// and ends a trace; `copied` tells whether `events` starts with a copy of
/// the seam before it.
///
/// After no step at all, nothing has changed. Else the last step must be a
/// return whose successor exists: it leaves no function running and the stack
/// without what it drops. All steps have moved the streams, and all but a
/// copy at the front have cost their jump operations.
pub open spec fn derive_terminal(
    state: InitializationState<u32>,
    events: Seq<EventTableEntry>,
    copied: bool,
) -> Option<InitializationState<u32>> {
    if events.len() == 0 {
        Some(state)
    } else if !ends_with_return(events) {
        None
    } else {
        let last = events.last();
        moved_on_by(
            state,
            events,
            events.len() as int,
            own_jops(events, copied),
            InitializationState {
                eid: (last.eid + 1) as u32,
                fid: 0,
                iid: 0,
                frame_id: 0,
                sp: (last.sp + match last.inst.opcode {
                    Opcode::Return { drop, .. } => drop,
                    _ => 0,
                }) as u32,
                initial_memory_pages: last.allocated_memory_pages,
                ..state
            },
        )
    }
}

/// The jump operations before step `k` and those from step `k` on are all
/// jump operations of the trace.
pub proof fn lemma_jops_split(entries: Seq<EventTableEntry>, k: int)
    requires
        0 <= k <= entries.len(),
    ensures
        jops_among(entries, k) + rest_jops(entries, k) == rest_jops(entries, 0),
    decreases k,
{
    if k > 0 {
        lemma_jops_split(entries, k - 1);
    }
}

/// The terminal row block of the event table holds the checkpoint after the
/// trace. If the trace started with all its jump operations before it, none
/// is left after it.
pub proof fn lemma_terminal_row_is_terminal_state(
    entries: Seq<EventTableEntry>,
    state: InitializationState<u32>,
)
    requires
        entries.len() > 0,
        derive_terminal(state, entries, false) is Some,
    ensures
        ({
            let row = terminal_row(entries, state);
            let after = derive_terminal(state, entries, false)->0;
            &&& row.eid == after.eid
            &&& row.fid == after.fid
            &&& row.iid == after.iid
            &&& row.frame_id == after.frame_id
            &&& row.sp == after.sp
            &&& row.mpages == after.initial_memory_pages
            &&& row.maximal_memory_pages == after.maximal_memory_pages
            &&& row.input_index == after.input_index
            &&& row.context_input_index == after.context_input_index
            &&& row.context_output_index == after.context_output_index
            &&& row.external_host_call_index == after.external_host_call_index
            &&& state.jops == rest_jops(entries, 0) ==> row.rest_jops == after.jops
        }),
{
    lemma_jops_split(entries, entries.len() as int);
}

/// How many slices a trace of `n` steps makes when each slice brings `chunk`
/// steps of its own.
pub open spec fn slice_count(n: int, chunk: int) -> int {
    if n <= 0 {
        0
    } else {
        (n + chunk - 1) / chunk
    }
}

/// Where slice `k` starts in the trace: the first slice at the first step,
/// every other slice at the last step of the slice before it.
pub open spec fn slice_start(k: int, chunk: int) -> int {
    if k == 0 {
        0
    } else {
        k * chunk - 1
    }
}

/// Where slice `k` ends in a trace of `n` steps.
pub open spec fn slice_end(k: int, chunk: int, n: int) -> int {
    if (k + 1) * chunk < n {
        (k + 1) * chunk
    } else {
        n
    }
}

/// The steps of slice `k`.
pub open spec fn slice_events(entries: Seq<EventTableEntry>, chunk: int, k: int) -> Seq<
    EventTableEntry,
> {
    entries.subrange(slice_start(k, chunk), slice_end(k, chunk, entries.len() as int))
}

/// The checkpoint of slice `k` of a trace that starts from `genesis`: that of
/// the first slice is `genesis`, that of any other is derived from the slice
/// before it.
pub open spec fn slice_state(
    entries: Seq<EventTableEntry>,
    genesis: InitializationState<u32>,
    chunk: int,
    k: int,
) -> Option<InitializationState<u32>>
    decreases k,
{
    if k <= 0 {
        Some(genesis)
    } else {
        match slice_state(entries, genesis, chunk, k - 1) {
            Some(state) => derive_next(state, slice_events(entries, chunk, k - 1), k - 1 > 0),
            None => None,
        }
    }
}

/// Slice `k` is the first that has no checkpoint.
pub open spec fn chain_breaks_at(
    entries: Seq<EventTableEntry>,
    genesis: InitializationState<u32>,
    chunk: int,
    k: int,
) -> bool {
    slice_state(entries, genesis, chunk, k) is None && slice_state(entries, genesis, chunk, k - 1)
        is Some
}

/// One slice: a part of a trace with all tables a proof of it needs.
pub struct Slice {
    pub table: Tables,
    pub current_slice: usize,
    pub total_slice: usize,
}

impl Slice {
    /// Whether the slice starts with a copy of the last step of the slice
    /// before it: every slice but the first does.
    pub open spec fn has_copy(&self) -> bool {
        self.current_slice > 0
    }

    /// The jump operations that the slice uses up: those of all its steps,
    /// but for the copy at its front.
    pub open spec fn spec_jops_cost(&self) -> nat {
        own_jops(self.table.execution_table.etable@, self.has_copy())
    }

    pub fn jops_cost(&self) -> (cost: u64)
        ensures
            cost == self.spec_jops_cost(),
    {
        cost_of(self.table.execution_table.etable.entries(), self.current_slice > 0)
    }

    /// Takes the jump operations that the slice uses up from `rest_jops`.
    pub fn update_rest_jops(&self, rest_jops: &mut u32)
        requires
            self.spec_jops_cost() <= *old(rest_jops),
        ensures
            *final(rest_jops) == *old(rest_jops) - self.spec_jops_cost(),
    {
        let cost = self.jops_cost();
        *rest_jops = *rest_jops - (cost as u32);
    }
}

/// The jump operations that the steps `events` of a slice cost.
fn cost_of(events: &Vec<EventTableEntry>, copied: bool) -> (cost: u64)
    ensures
        cost == own_jops(events@, copied),
{
    let n = events.len();
    let start: usize = if copied && n > 0 {
        1
    } else {
        0
    };
    let mut cost: u64 = 0;
    let mut i: usize = start;
    while i < n
        invariant
            start <= i <= n,
            n == events@.len(),
            start == first_own(events@, copied),
            cost == jops_among(events@, i as int) - jops_among(events@, start as int),
            cost <= i - start,
        decreases n - i,
    {
        cost += events[i].inst.opcode.jops() as u64;
        i += 1;
    }
    cost
}

/// Whether two checkpoints agree in every field.
pub fn same_state(a: &InitializationState<u32>, b: &InitializationState<u32>) -> (same: bool)
    ensures
        same == (*a == *b),
{
    a.eid == b.eid && a.fid == b.fid && a.iid == b.iid && a.frame_id == b.frame_id && a.sp == b.sp
        && a.initial_memory_pages == b.initial_memory_pages && a.maximal_memory_pages
        == b.maximal_memory_pages && a.input_index == b.input_index && a.context_input_index
        == b.context_input_index && a.context_output_index == b.context_output_index
        && a.external_host_call_index == b.external_host_call_index && a.jops == b.jops
}

/// The position of a stream that stood at `start` after the first `m` of
/// `events`, if it fits.
fn advance(start: u32, events: &Vec<EventTableEntry>, m: usize, cursor: Cursor) -> (r: Option<
    u32,
>)
    requires
        m <= events@.len(),
    ensures
        r == (if start + consumed(events@, m as int, cursor) <= u32::MAX {
            Some((start + consumed(events@, m as int, cursor)) as u32)
        } else {
            None
        }),
{
    let mut count: u64 = 0;
    let mut i: usize = 0;
    while i < m
        invariant
            i <= m <= events@.len(),
            count == consumed(events@, i as int, cursor),
            count <= i,
        decreases m - i,
    {
        let takes = match cursor {
            Cursor::HostInput => events[i].is_host_public_input(),
            Cursor::ContextInput => events[i].is_context_input_op(),
            Cursor::ContextOutput => events[i].is_context_output_op(),
            Cursor::ExternalHostCall => events[i].is_external_host_call(),
        };
        assert(takes == consumes(events@[i as int], cursor));
        if takes {
            count += 1;
        }
        i += 1;
    }
    if count > (u32::MAX - start) as u64 {
        None
    } else {
        Some(start + count as u32)
    }
}

/// The slices of a trace, in order.
pub struct Slices {
    pub slices: Vec<Slice>,
    /// The most steps a slice may hold.
    pub capability: usize,
}

impl Slices {
    /// Whether `self` is the chain of slices of `table` for slices of at most
    /// `capability` steps.
    pub open spec fn is_slicing_of(&self, table: &Tables, capability: usize) -> bool {
        let entries = table.execution_table.etable@;
        let genesis = table.pre_image_table.initialization_state;
        let chunk = capability - 1;
        &&& self.capability == capability
        &&& self.slices@.len() == slice_count(entries.len() as int, chunk)
        &&& forall|k: int|
            0 <= k < self.slices@.len() ==> {
                let slice = #[trigger] self.slices@[k];
                &&& slice.current_slice == k
                &&& slice.total_slice == self.slices@.len()
                &&& slice.table.execution_table.etable@ == slice_events(entries, chunk, k)
                &&& slice.table.execution_table.jtable@ == table.execution_table.jtable@
                &&& slice.table.pre_image_table.same_image_as(&table.pre_image_table)
                &&& slice_state(entries, genesis, chunk, k) == Some(
                    slice.table.pre_image_table.initialization_state,
                )
                &&& if k + 1 < self.slices@.len() {
                    &&& slice.table.post_image_table.same_image_as(&table.pre_image_table)
                    &&& slice_state(entries, genesis, chunk, k + 1) == Some(
                        slice.table.post_image_table.initialization_state,
                    )
                } else {
                    slice.table.post_image_table.same_as(&table.post_image_table)
                }
            }
    }

    /// Splits `table` into slices of at most `capability` steps.
    ///
    /// Each slice brings `capability - 1` steps of its own, and every slice
    /// after the first starts with a copy of the last step of the slice before
    /// it. The first slice starts from the checkpoint of `table`, every other
    /// from the checkpoint derived from the slice before it: it stands where
    /// its first step stands, and it has the jump operations left that the
    /// steps of the slices before it have not cost, each step counted once.
    /// Fails at the first slice that has no such checkpoint.
    pub fn from_table(table: Tables, capability: usize) -> (r: Result<Slices, TraceError>)
        requires
            capability >= 2,
        ensures
            match r {
                Ok(slices) => slices.is_slicing_of(&table, capability),
                Err(e) => {
                    &&& e matches TraceError::InconsistentBoundaryState { slice }
                    &&& 0 < slice < slice_count(
                        table.execution_table.etable@.len() as int,
                        capability - 1,
                    )
                    &&& chain_breaks_at(
                        table.execution_table.etable@,
                        table.pre_image_table.initialization_state,
                        capability - 1,
                        slice as int,
                    )
                },
            },
    {
        let entries = table.execution_table.etable.entries();
        let n = entries.len();
        let chunk = capability - 1;
        let total_slice = if n == 0 {
            0
        } else {
            (n - 1) / chunk + 1
        };
        proof {
            lemma_slice_count(n as int, chunk as int);
        }
        let ghost genesis = table.pre_image_table.initialization_state;
        let mut slices: Vec<Slice> = Vec::new();
        let mut state = table.pre_image_table.initialization_state;
        let mut begin: usize = 0;
        let mut k: usize = 0;
        while k < total_slice
            invariant
                k <= total_slice,
                chunk == capability - 1,
                chunk >= 1,
                n == entries@.len(),
                entries@ == table.execution_table.etable@,
                genesis == table.pre_image_table.initialization_state,
                total_slice == slice_count(n as int, chunk as int),
                k < total_slice ==> begin == k * chunk && begin < n,
                slices@.len() == k,
                k < total_slice ==> slice_state(entries@, genesis, chunk as int, k as int) == Some(
                    state,
                ),
                forall|j: int|
                    0 <= j < k ==> {
                        let slice = #[trigger] slices@[j];
                        &&& slice.current_slice == j
                        &&& slice.total_slice == total_slice
                        &&& slice.table.execution_table.etable@ == slice_events(
                            entries@,
                            chunk as int,
                            j,
                        )
                        &&& slice.table.execution_table.jtable@ == table.execution_table.jtable@
                        &&& slice.table.pre_image_table.same_image_as(
                            &table.pre_image_table,
                        )
                        &&& slice_state(entries@, genesis, chunk as int, j) == Some(
                            slice.table.pre_image_table.initialization_state,
                        )
                        &&& if j + 1 < total_slice {
                            &&& slice.table.post_image_table.same_image_as(
                                &table.pre_image_table,
                            )
                            &&& slice_state(entries@, genesis, chunk as int, j + 1) == Some(
                                slice.table.post_image_table.initialization_state,
                            )
                        } else {
                            slice.table.post_image_table.same_as(&table.post_image_table)
                        }
                    },
            decreases total_slice - k,
        {
            proof {
                if k > 0 {
                    assert(k * chunk >= 1) by (nonlinear_arith)
                        requires
                            k >= 1,
                            chunk >= 1,
                    ;
                }
            }
            let start = if k == 0 {
                0
            } else {
                begin - 1
            };
            let end = if n - begin > chunk {
                begin + chunk
            } else {
                n
            };
            proof {
                assert((k + 1) * chunk == k * chunk + chunk) by (nonlinear_arith);
                assert(start == slice_start(k as int, chunk as int));
                assert(end == slice_end(k as int, chunk as int, n as int));
            }
            let mut events: Vec<EventTableEntry> = Vec::new();
            let mut i: usize = start;
            while i < end
                invariant
                    start <= i <= end <= n,
                    n == entries@.len(),
                    events@ == entries@.subrange(start as int, i as int),
                decreases end - i,
            {
                events.push(entries[i]);
                proof {
                    assert(entries@.subrange(start as int, i + 1) =~= entries@.subrange(
                        start as int,
                        i as int,
                    ).push(entries@[i as int]));
                }
                i += 1;
            }
            let is_last = k + 1 == total_slice;
            let post_image_table = if is_last {
                table.post_image_table.clone()
            } else {
                match Self::next_state(&state, &events, k > 0) {
                    Some(next) => table.pre_image_table.with_state(next),
                    None => {
                        proof {
                            assert(slice_state(entries@, genesis, chunk as int, k + 1) is None);
                        }
                        return Err(TraceError::InconsistentBoundaryState { slice: k + 1 });
                    },
                }
            };
            let next = post_image_table.initialization_state;
            slices.push(
                Slice {
                    table: Tables {
                        pre_image_table: table.pre_image_table.with_state(state),
                        execution_table: ExecutionTable {
                            etable: EventTable::new(events),
                            jtable: JumpTable::new(
                                copy_entries(table.execution_table.jtable.entries()),
                            ),
                        },
                        post_image_table,
                    },
                    current_slice: k,
                    total_slice,
                },
            );
            if !is_last {
                state = next;
                proof {
                    lemma_more_slices(n as int, chunk as int, k as int);
                }
                begin = begin + chunk;
            }
            k += 1;
        }
        Ok(Slices { slices, capability })
    }

    /// Whether each slice but the first starts from the checkpoint derived
    /// from the slice before it.
    pub open spec fn is_chained(&self) -> bool {
        forall|k: int| 0 < k < self.slices@.len() ==> !#[trigger] self.breaks_at(k)
    }

    /// Whether slice `k` does not start from the checkpoint derived from the
    /// slice before it, or the slice before it does not end with it.
    pub open spec fn breaks_at(&self, k: int) -> bool {
        let stored = self.slices@[k].table.pre_image_table.initialization_state;
        ||| derive_next(
            self.slices@[k - 1].table.pre_image_table.initialization_state,
            self.slices@[k - 1].table.execution_table.etable@,
            k - 1 > 0,
        ) != Some(stored)
        ||| self.slices@[k - 1].table.post_image_table.initialization_state != stored
    }

    /// Slice `k` is the first that breaks the chain.
    pub open spec fn first_breaks_at(&self, k: int) -> bool {
        &&& 0 < k < self.slices@.len()
        &&& self.breaks_at(k)
        &&& forall|j: int| 0 < j < k ==> !#[trigger] self.breaks_at(j)
    }

    /// Why the slices are no chain, if they are none: the first slice whose
    /// checkpoint is not the one derived from the slice before it.
    pub open spec fn boundary_error(&self) -> Option<TraceError> {
        if exists|k: int| self.first_breaks_at(k) {
            Some(
                TraceError::InconsistentBoundaryState {
                    slice: (choose|k: int| self.first_breaks_at(k)) as usize,
                },
            )
        } else {
            None
        }
    }

    /// Checks that each slice but the first starts from the checkpoint derived
    /// from the slice before it. To be called before the slices are handed to
    /// the proof system.
    pub fn check_boundaries(&self) -> (r: Result<(), TraceError>)
        ensures
            match r {
                Ok(()) => self.is_chained(),
                Err(e) => Some(e) == self.boundary_error(),
            },
    {
        let mut k: usize = 1;
        while k < self.slices.len()
            invariant
                1 <= k,
                forall|j: int| 0 < j < k && j < self.slices@.len() ==> !#[trigger] self.breaks_at(j),
            decreases self.slices.len() - k,
        {
            let before = &self.slices[k - 1];
            let derived = Self::next_state(
                &before.table.pre_image_table.initialization_state,
                before.table.execution_table.etable.entries(),
                k - 1 > 0,
            );
            let stored = self.slices[k].table.pre_image_table.initialization_state;
            let same = match derived {
                Some(state) => same_state(&state, &stored) && same_state(
                    &before.table.post_image_table.initialization_state,
                    &stored,
                ),
                None => false,
            };
            if !same {
                proof {
                    assert(self.first_breaks_at(k as int));
                    let c = choose|c: int| self.first_breaks_at(c);
                    if c < k {
                        assert(!self.breaks_at(c));
                    }
                    if k < c {
                        assert(!self.breaks_at(k as int));
                    }
                }
                return Err(TraceError::InconsistentBoundaryState { slice: k });
            }
            k += 1;
        }
        Ok(())
    }

    /// The checkpoint with which the slice after `events` starts; `copied`
    /// tells whether `events` starts with a copy of the seam before it.
    pub fn next_state(
        state: &InitializationState<u32>,
        events: &Vec<EventTableEntry>,
        copied: bool,
    ) -> (r: Option<InitializationState<u32>>)
        ensures
            r == derive_next(*state, events@, copied),
    {
        if events.len() == 0 {
            return None;
        }
        let m = events.len() - 1;
        let seam = events[m];
        let at = InitializationState {
            eid: seam.eid,
            fid: seam.inst.fid,
            iid: seam.inst.iid,
            frame_id: seam.last_jump_eid,
            sp: seam.sp,
            initial_memory_pages: seam.allocated_memory_pages,
            ..*state
        };
        moved_on(state, events, m, copied, at)
    }

    /// The checkpoint after the last of `events`, where `events` ends a
    /// trace; `copied` tells whether `events` starts with a copy of the seam
    /// before it.
    pub fn terminal_state(
        state: &InitializationState<u32>,
        events: &Vec<EventTableEntry>,
        copied: bool,
    ) -> (r: Option<InitializationState<u32>>)
        ensures
            r == derive_terminal(*state, events@, copied),
    {
        let n = events.len();
        if n == 0 {
            return Some(*state);
        }
        let last = events[n - 1];
        let sp = match last.inst.opcode {
            Opcode::Return { drop, .. } => {
                if last.eid == u32::MAX || drop > u32::MAX - last.sp {
                    return None;
                }
                last.sp + drop
            },
            _ => {
                return None;
            },
        };
        let at = InitializationState {
            eid: last.eid + 1,
            fid: 0,
            iid: 0,
            frame_id: 0,
            sp,
            initial_memory_pages: last.allocated_memory_pages,
            ..*state
        };
        moved_on(state, events, n, copied, at)
    }
}

/// The checkpoint `at` with the streams of `state` moved on by the first `m`
/// of `events` and its jump operations less by the cost of `events`, if they
/// can be.
fn moved_on(
    state: &InitializationState<u32>,
    events: &Vec<EventTableEntry>,
    m: usize,
    copied: bool,
    at: InitializationState<u32>,
) -> (r: Option<InitializationState<u32>>)
    requires
        m <= events@.len(),
    ensures
        r == moved_on_by(*state, events@, m as int, own_jops(events@, copied), at),
{
    let spent = cost_of(events, copied);
    let input_index = advance(state.input_index, events, m, Cursor::HostInput);
    let context_input_index = advance(state.context_input_index, events, m, Cursor::ContextInput);
    let context_output_index = advance(
        state.context_output_index,
        events,
        m,
        Cursor::ContextOutput,
    );
    let external_host_call_index = advance(
        state.external_host_call_index,
        events,
        m,
        Cursor::ExternalHostCall,
    );
    match (input_index, context_input_index, context_output_index, external_host_call_index) {
        (
            Some(input_index),
            Some(context_input_index),
            Some(context_output_index),
            Some(external_host_call_index),
        ) => {
            if spent > state.jops as u64 {
                None
            } else {
                Some(
                    InitializationState {
                        input_index,
                        context_input_index,
                        context_output_index,
                        external_host_call_index,
                        jops: state.jops - spent as u32,
                        ..at
                    },
                )
            }
        },
        _ => None,
    }
}

/// The number of slices, without rounding up.
proof fn lemma_slice_count(n: int, chunk: int)
    requires
        n >= 0,
        chunk >= 1,
    ensures
        n > 0 ==> slice_count(n, chunk) == (n - 1) / chunk + 1,
        n == 0 ==> slice_count(n, chunk) == 0,
{
    if n > 0 {
        assert((n + chunk - 1) / chunk == (n - 1) / chunk + 1) by (nonlinear_arith)
            requires
                n > 0,
                chunk >= 1,
        ;
    }
}

/// A slice that is not the last ends before the trace does.
proof fn lemma_more_slices(n: int, chunk: int, k: int)
    requires
        n > 0,
        chunk >= 1,
        0 <= k,
        k + 1 < slice_count(n, chunk),
    ensures
        (k + 1) * chunk < n,
{
    lemma_slice_count(n, chunk);
    assert((k + 1) * chunk < n) by (nonlinear_arith)
        requires
            n > 0,
            chunk >= 1,
            0 <= k,
            k + 1 < (n - 1) / chunk + 1,
    ;
}

/// Slice boundary continuity. The checkpoint stored in a slice is the one
/// derived from the slice before it, and the slice starts with the step that
/// the slice before it ends with.
pub proof fn lemma_boundary_continuity(slices: Slices, table: Tables, capability: usize, k: int)
    requires
        capability >= 2,
        slices.is_slicing_of(&table, capability),
        0 <= k,
        k + 1 < slices.slices@.len(),
    ensures
        derive_next(
            slices.slices@[k].table.pre_image_table.initialization_state,
            slices.slices@[k].table.execution_table.etable@,
            k > 0,
        ) == Some(slices.slices@[k + 1].table.pre_image_table.initialization_state),
        slices.slices@[k].table.post_image_table.same_as(
            &slices.slices@[k + 1].table.pre_image_table,
        ),
        slices.slices@[k].table.execution_table.etable@.len() > 0,
        slices.slices@[k + 1].table.execution_table.etable@.len() > 0,
        slices.slices@[k + 1].table.execution_table.etable@.first()
            == slices.slices@[k].table.execution_table.etable@.last(),
{
    let entries = table.execution_table.etable@;
    let genesis = table.pre_image_table.initialization_state;
    let chunk = capability - 1;
    let n = entries.len() as int;
    let a = slices.slices@[k];
    let b = slices.slices@[k + 1];
    assert(slice_state(entries, genesis, chunk, k) == Some(
        a.table.pre_image_table.initialization_state,
    ));
    assert(slice_state(entries, genesis, chunk, k + 1) == Some(
        b.table.pre_image_table.initialization_state,
    ));
    lemma_more_slices(n, chunk, k);
    assert((k + 1) * chunk == k * chunk + chunk) by (nonlinear_arith);
    assert((k + 2) * chunk == (k + 1) * chunk + chunk) by (nonlinear_arith);
    assert(k * chunk >= 0) by (nonlinear_arith)
        requires
            k >= 0,
            chunk >= 1,
    ;
    if k >= 1 {
        assert(k * chunk >= 1) by (nonlinear_arith)
            requires
                k >= 1,
                chunk >= 1,
        ;
    }
    assert(0 <= slice_start(k, chunk));
    assert(slice_end(k, chunk, n) == (k + 1) * chunk);
    assert(slice_start(k + 1, chunk) == (k + 1) * chunk - 1);
    assert(slice_end(k + 1, chunk, n) <= n);
    assert(slice_start(k, chunk) < slice_end(k, chunk, n));
    assert(slice_start(k + 1, chunk) < slice_end(k + 1, chunk, n));
    let ea = a.table.execution_table.etable@;
    let eb = b.table.execution_table.etable@;
    assert(ea == slice_events(entries, chunk, k));
    assert(eb == slice_events(entries, chunk, k + 1));
    assert(ea.len() == slice_end(k, chunk, n) - slice_start(k, chunk));
    assert(ea[ea.len() - 1] == entries[(k + 1) * chunk - 1]);
    assert(eb[0] == entries[(k + 1) * chunk - 1]);
}

/// The slices of a trace are a chain.
pub proof fn lemma_slicing_is_chained(slices: Slices, table: Tables, capability: usize)
    requires
        capability >= 2,
        slices.is_slicing_of(&table, capability),
    ensures
        slices.is_chained(),
        slices.boundary_error() is None,
{
    assert forall|k: int| 0 < k < slices.slices@.len() implies !#[trigger] slices.breaks_at(k) by {
        lemma_boundary_continuity(slices, table, capability, k - 1);
    }
}

/// What the first `n` steps take of a stream depends on these steps alone.
proof fn lemma_consumed_of_prefix(
    a: Seq<EventTableEntry>,
    b: Seq<EventTableEntry>,
    n: int,
    cursor: Cursor,
)
    requires
        0 <= n <= a.len(),
        n <= b.len(),
        forall|i: int| 0 <= i < n ==> a[i] == b[i],
    ensures
        consumed(a, n, cursor) == consumed(b, n, cursor),
        jops_among(a, n) == jops_among(b, n),
    decreases n,
{
    if n > 0 {
        lemma_consumed_of_prefix(a, b, n - 1, cursor);
    }
}

/// What the steps of a trace take of a stream is what the steps before step
/// `p` take of it and what the steps from `p` on take.
proof fn lemma_consumed_splits(entries: Seq<EventTableEntry>, p: int, j: int, cursor: Cursor)
    requires
        0 <= p,
        0 <= j,
        p + j <= entries.len(),
    ensures
        consumed(entries, p + j, cursor) == consumed(entries, p, cursor) + consumed(
            entries.subrange(p, entries.len() as int),
            j,
            cursor,
        ),
        jops_among(entries, p + j) == jops_among(entries, p) + jops_among(
            entries.subrange(p, entries.len() as int),
            j,
        ),
    decreases j,
{
    if j > 0 {
        lemma_consumed_splits(entries, p, j - 1, cursor);
        assert(entries.subrange(p, entries.len() as int)[j - 1] == entries[p + j - 1]);
    }
}

/// The checkpoint at step `i` of a trace that starts from `genesis`, as a
/// slice that starts with a copy of step `i` finds it: the streams stand
/// where the steps before `i` have moved them, and the jump operations of
/// all steps up to `i`, step `i` among them, are paid for.
pub open spec fn state_before(
    entries: Seq<EventTableEntry>,
    genesis: InitializationState<u32>,
    i: int,
) -> Option<InitializationState<u32>> {
    derive_next(genesis, entries.take(i + 1), false)
}

/// Deriving a checkpoint over a seam is deriving it at once: from the
/// checkpoint at step `p`, a slice that starts with a copy of step `p` and
/// ends with step `q` leads to the checkpoint at step `q`.
pub proof fn lemma_derivation_composes(
    entries: Seq<EventTableEntry>,
    genesis: InitializationState<u32>,
    p: int,
    q: int,
)
    requires
        0 <= p <= q < entries.len(),
    ensures
        state_before(entries, genesis, q) == match state_before(entries, genesis, p) {
            Some(state) => derive_next(state, entries.subrange(p, q + 1), true),
            None => None,
        },
{
    let whole = entries.take(q + 1);
    let head = entries.take(p + 1);
    let tail = entries.subrange(p, q + 1);
    assert(whole.subrange(p, whole.len() as int) =~= tail);
    assert forall|cursor: Cursor|
        consumed(whole, q, cursor) == consumed(head, p, cursor) + #[trigger] consumed(
            tail,
            q - p,
            cursor,
        ) by {
        lemma_consumed_splits(whole, p, q - p, cursor);
        lemma_consumed_of_prefix(whole, head, p, cursor);
    }
    assert(own_jops(whole, false) == own_jops(head, false) + own_jops(tail, true)) by {
        lemma_consumed_splits(whole, p, q - p + 1, Cursor::HostInput);
        lemma_consumed_splits(whole, p, 1, Cursor::HostInput);
        lemma_consumed_splits(tail, 1, q - p, Cursor::HostInput);
        lemma_consumed_of_prefix(whole, head, p + 1, Cursor::HostInput);
    }
    assert(consumed(tail, q - p, Cursor::HostInput) >= 0);
    assert(consumed(tail, q - p, Cursor::ContextInput) >= 0);
    assert(consumed(tail, q - p, Cursor::ContextOutput) >= 0);
    assert(consumed(tail, q - p, Cursor::ExternalHostCall) >= 0);
    assert(whole.last() == tail.last());
}

/// The checkpoint after a trace is the checkpoint after its last part, from
/// the checkpoint before that part.
pub proof fn lemma_terminal_composes(
    entries: Seq<EventTableEntry>,
    genesis: InitializationState<u32>,
    p: int,
)
    requires
        0 <= p < entries.len(),
    ensures
        derive_terminal(genesis, entries, false) == match state_before(entries, genesis, p) {
            Some(state) => derive_terminal(
                state,
                entries.subrange(p, entries.len() as int),
                true,
            ),
            None => None,
        },
{
    let n = entries.len() as int;
    let head = entries.take(p + 1);
    let tail = entries.subrange(p, n);
    assert forall|cursor: Cursor|
        consumed(entries, n, cursor) == consumed(head, p, cursor) + #[trigger] consumed(
            tail,
            n - p,
            cursor,
        ) by {
        lemma_consumed_splits(entries, p, n - p, cursor);
        lemma_consumed_of_prefix(entries, head, p, cursor);
    }
    assert(own_jops(entries, false) == own_jops(head, false) + own_jops(tail, true)) by {
        lemma_consumed_splits(entries, p, n - p, Cursor::HostInput);
        lemma_consumed_splits(entries, p, 1, Cursor::HostInput);
        lemma_consumed_splits(tail, 1, n - p - 1, Cursor::HostInput);
        lemma_consumed_of_prefix(entries, head, p + 1, Cursor::HostInput);
    }
    assert(consumed(tail, n - p, Cursor::HostInput) >= 0);
    assert(consumed(tail, n - p, Cursor::ContextInput) >= 0);
    assert(consumed(tail, n - p, Cursor::ContextOutput) >= 0);
    assert(consumed(tail, n - p, Cursor::ExternalHostCall) >= 0);
    assert(entries.last() == tail.last());
}

/// The checkpoint of a slice is the checkpoint before its first step: it
/// does not depend on how the steps before it were cut into slices.
pub proof fn lemma_slice_state_is_state_before(
    entries: Seq<EventTableEntry>,
    genesis: InitializationState<u32>,
    chunk: int,
    k: int,
)
    requires
        chunk >= 1,
        0 < k < slice_count(entries.len() as int, chunk),
    ensures
        slice_state(entries, genesis, chunk, k) == state_before(
            entries,
            genesis,
            slice_start(k, chunk),
        ),
    decreases k,
{
    let n = entries.len() as int;
    lemma_more_slices(n, chunk, k - 1);
    assert(k * chunk == (k - 1) * chunk + chunk) by (nonlinear_arith);
    assert((k - 1) * chunk >= 0) by (nonlinear_arith)
        requires
            k >= 1,
            chunk >= 1,
    ;
    assert(slice_end(k - 1, chunk, n) == k * chunk);
    if k == 1 {
        assert(slice_events(entries, chunk, 0) =~= entries.take(chunk));
    } else {
        lemma_slice_state_is_state_before(entries, genesis, chunk, k - 1);
        assert((k - 1) * chunk >= 1) by (nonlinear_arith)
            requires
                k >= 2,
                chunk >= 1,
        ;
        lemma_derivation_composes(
            entries,
            genesis,
            slice_start(k - 1, chunk),
            slice_start(k, chunk),
        );
        assert(slice_events(entries, chunk, k - 1) =~= entries.subrange(
            slice_start(k - 1, chunk),
            slice_start(k, chunk) + 1,
        ));
    }
}

/// The jump operations that a slice starts with are those of the whole trace
/// less the cost of every step of the slices before it, each step counted
/// once.
pub proof fn lemma_slice_counter(
    entries: Seq<EventTableEntry>,
    genesis: InitializationState<u32>,
    chunk: int,
    k: int,
)
    requires
        chunk >= 1,
        0 < k < slice_count(entries.len() as int, chunk),
        slice_state(entries, genesis, chunk, k) is Some,
    ensures
        slice_state(entries, genesis, chunk, k)->0.jops == genesis.jops - jops_among(
            entries,
            k * chunk,
        ),
        slice_state(entries, genesis, chunk, k - 1) is Some,
        slice_state(entries, genesis, chunk, k)->0.jops <= slice_state(
            entries,
            genesis,
            chunk,
            k - 1,
        )->0.jops,
{
    let n = entries.len() as int;
    lemma_more_slices(n, chunk, k - 1);
    assert(k * chunk >= 1) by (nonlinear_arith)
        requires
            k >= 1,
            chunk >= 1,
    ;
    lemma_slice_state_is_state_before(entries, genesis, chunk, k);
    lemma_consumed_of_prefix(entries.take(k * chunk), entries, k * chunk, Cursor::HostInput);
}

/// From each slice to the next the jump operations that are left fall by
/// what the slice costs, and never rise: every slice starts with what the
/// whole trace started with, less the cost of every step of the slices before
/// it.
pub proof fn lemma_counter_falls_by_cost(
    slices: Slices,
    table: Tables,
    capability: usize,
    k: int,
)
    requires
        capability >= 2,
        slices.is_slicing_of(&table, capability),
        0 <= k,
        k + 1 < slices.slices@.len(),
    ensures
        slices.slices@[k + 1].table.pre_image_table.initialization_state.jops
            == slices.slices@[k].table.pre_image_table.initialization_state.jops
            - slices.slices@[k].spec_jops_cost(),
        slices.slices@[k + 1].table.pre_image_table.initialization_state.jops
            == table.pre_image_table.initialization_state.jops - jops_among(
            table.execution_table.etable@,
            (k + 1) * (capability - 1),
        ),
{
    let entries = table.execution_table.etable@;
    let genesis = table.pre_image_table.initialization_state;
    let chunk = capability - 1;
    lemma_boundary_continuity(slices, table, capability, k);
    assert(slices.slices@[k].current_slice == k);
    assert(slice_state(entries, genesis, chunk, k + 1) == Some(
        slices.slices@[k + 1].table.pre_image_table.initialization_state,
    ));
    lemma_slice_counter(entries, genesis, chunk, k + 1);
}

/// Every step of the trace is a step of exactly one slice: the slice `i /
/// chunk` holds step `i`, behind the copy it starts with if it is not the
/// first, and no other slice holds it as a step of its own.
pub proof fn lemma_steps_partitioned(n: int, chunk: int, i: int)
    requires
        chunk >= 1,
        0 <= i < n,
    ensures
        0 <= i / chunk < slice_count(n, chunk),
        (i / chunk) * chunk <= i < slice_end(i / chunk, chunk, n),
        slice_start(i / chunk, chunk) <= i,
        forall|j: int|
            0 <= j && j * chunk <= i < #[trigger] slice_end(j, chunk, n) ==> j == i / chunk,
{
    let k = i / chunk;
    lemma_slice_count(n, chunk);
    assert(0 <= k && k * chunk <= i < (k + 1) * chunk) by (nonlinear_arith)
        requires
            chunk >= 1,
            0 <= i,
            k == i / chunk,
    ;
    assert(k <= (n - 1) / chunk) by (nonlinear_arith)
        requires
            chunk >= 1,
            0 <= i <= n - 1,
            k == i / chunk,
    ;
    assert forall|j: int| 0 <= j && j * chunk <= i < #[trigger] slice_end(j, chunk, n) implies j
        == k by {
        assert(i < (j + 1) * chunk);
        assert(j == k) by (nonlinear_arith)
            requires
                chunk >= 1,
                0 <= j,
                j * chunk <= i < (j + 1) * chunk,
                k * chunk <= i < (k + 1) * chunk,
        ;
    }
}

} // verus!
