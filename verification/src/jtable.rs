//! Call frames: the frames that exist before the first step, and the frames
//! that the trace opens.

use crate::encode::{pack, spec_pack, U256};
use vstd::prelude::*;

verus! {

/// A call edge that is known before execution starts: the entry point, or the
/// start function calling into it.
#[derive(Clone, Copy, Debug, PartialEq, Eq, Structural, Hash)]
pub struct StaticFrameEntry {
    pub enable: bool,
    pub frame_id: u32,
    pub next_frame_id: u32,
    pub callee_fid: u32,
    pub fid: u32,
    pub iid: u32,
}

/// How many static frames an image has room for.
pub const STATIC_FRAME_ENTRY_NUMBER: usize = 2;

impl StaticFrameEntry {
    pub open spec fn spec_encode(self) -> U256 {
        U256 {
            l0: spec_pack(self.fid, self.iid),
            l1: spec_pack(self.next_frame_id, self.callee_fid),
            l2: spec_pack(if self.enable { 1u32 } else { 0u32 }, self.frame_id),
            l3: 0,
        }
    }

    pub fn encode(&self) -> (r: U256)
        ensures
            r == self.spec_encode(),
    {
        U256 {
            l0: pack(self.fid, self.iid),
            l1: pack(self.next_frame_id, self.callee_fid),
            l2: pack(if self.enable { 1 } else { 0 }, self.frame_id),
            l3: 0,
        }
    }

    /// The entry that fills an unused place.
    pub open spec fn spec_disabled() -> StaticFrameEntry {
        StaticFrameEntry {
            enable: false,
            frame_id: 0,
            next_frame_id: 0,
            callee_fid: 0,
            fid: 0,
            iid: 0,
        }
    }

    pub fn disabled() -> (r: StaticFrameEntry)
        ensures
            r == Self::spec_disabled(),
    {
        StaticFrameEntry {
            enable: false,
            frame_id: 0,
            next_frame_id: 0,
            callee_fid: 0,
            fid: 0,
            iid: 0,
        }
    }
}

/// A frame that a call of the trace opened.
#[derive(Clone, Copy, Debug, PartialEq, Eq, Structural, Hash)]
pub struct JumpTableEntry {
    pub eid: u32,
    pub last_jump_eid: u32,
    pub callee_fid: u32,
    pub fid: u32,
    pub iid: u32,
}

#[derive(Debug)]
pub struct JumpTable {
    pub entries: Vec<JumpTableEntry>,
}

impl View for JumpTable {
    type V = Seq<JumpTableEntry>;

    open spec fn view(&self) -> Seq<JumpTableEntry> {
        self.entries@
    }
}

impl JumpTable {
    pub fn new(entries: Vec<JumpTableEntry>) -> (table: JumpTable)
        ensures
            table@ == entries@,
    {
        JumpTable { entries }
    }

    pub fn entries(&self) -> (entries: &Vec<JumpTableEntry>)
        ensures
            entries@ == self@,
    {
        &self.entries
    }
}

} // verus!
