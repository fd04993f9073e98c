//! Branch targets and the elements of the indirect call tables.

use crate::encode::{pack, spec_pack, U256};
use vstd::prelude::*;

verus! {

/// One target of one branch instruction.
#[derive(Clone, Copy, Debug, PartialEq, Eq, Structural, Hash)]
pub struct BrTableEntry {
    pub fid: u32,
    pub iid: u32,
    pub index: u32,
    pub drop: u32,
    pub keep: u32,
    pub dst_pc: u32,
}

impl BrTableEntry {
    pub open spec fn spec_encode(self) -> U256 {
        U256 {
            l0: spec_pack(self.keep, self.dst_pc),
            l1: spec_pack(self.index, self.drop),
            l2: spec_pack(self.fid, self.iid),
            l3: 0,
        }
    }

    pub fn encode(&self) -> (r: U256)
        ensures
            r == self.spec_encode(),
            r.l3 == 0,
    {
        U256 {
            l0: pack(self.keep, self.dst_pc),
            l1: pack(self.index, self.drop),
            l2: pack(self.fid, self.iid),
            l3: 0,
        }
    }
}

#[derive(Debug)]
pub struct BrTable {
    pub entries: Vec<BrTableEntry>,
}

impl View for BrTable {
    type V = Seq<BrTableEntry>;

    open spec fn view(&self) -> Seq<BrTableEntry> {
        self.entries@
    }
}

impl BrTable {
    pub fn new(entries: Vec<BrTableEntry>) -> (table: BrTable)
        ensures
            table@ == entries@,
    {
        BrTable { entries }
    }

    pub fn entries(&self) -> (entries: &Vec<BrTableEntry>)
        ensures
            entries@ == self@,
    {
        &self.entries
    }
}

/// One slot of an indirect call table. Its row shares the sub-table of the
/// branch targets and is told from them by the mark in its top limb.
#[derive(Clone, Copy, Debug, PartialEq, Eq, Structural, Hash)]
pub struct ElemEntry {
    pub table_idx: u32,
    pub type_idx: u32,
    pub offset: u32,
    pub func_idx: u32,
}

impl ElemEntry {
    pub open spec fn spec_encode(self) -> U256 {
        U256 {
            l0: spec_pack(self.offset, self.func_idx),
            l1: spec_pack(self.table_idx, self.type_idx),
            l2: 0,
            l3: 1,
        }
    }

    pub fn encode(&self) -> (r: U256)
        ensures
            r == self.spec_encode(),
            r.l3 == 1,
    {
        U256 {
            l0: pack(self.offset, self.func_idx),
            l1: pack(self.table_idx, self.type_idx),
            l2: 0,
            l3: 1,
        }
    }
}

#[derive(Debug)]
pub struct ElemTable {
    pub entries: Vec<ElemEntry>,
}

impl View for ElemTable {
    type V = Seq<ElemEntry>;

    open spec fn view(&self) -> Seq<ElemEntry> {
        self.entries@
    }
}

impl ElemTable {
    pub fn new(entries: Vec<ElemEntry>) -> (table: ElemTable)
        ensures
            table@ == entries@,
    {
        ElemTable { entries }
    }

    pub fn entries(&self) -> (entries: &Vec<ElemEntry>)
        ensures
            entries@ == self@,
    {
        &self.entries
    }
}

} // verus!
