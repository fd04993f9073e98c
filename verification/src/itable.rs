//! Static instructions of the program image.

use crate::brtable::{BrTable, BrTableEntry};
use crate::encode::{pack, spec_pack, U256};
use crate::mtable::VarType;
use vstd::prelude::*;

verus! {

#[derive(Clone, Copy, Debug, PartialEq, Eq, Structural, Hash)]
pub enum BinOp {
    Add,
    Sub,
    Mul,
    Div,
    Rem,
}

#[derive(Clone, Copy, Debug, PartialEq, Eq, Structural, Hash)]
pub enum BitOp {
    And,
    Or,
    Xor,
}

#[derive(Clone, Copy, Debug, PartialEq, Eq, Structural, Hash)]
pub enum UnaryOp {
    Ctz,
    Clz,
    Popcnt,
}

#[derive(Clone, Copy, Debug, PartialEq, Eq, Structural, Hash)]
pub enum RelOp {
    Eq,
    Ne,
    Lt,
    Gt,
    Le,
    Ge,
}

/// Host functions that the interpreter serves itself.
#[derive(Clone, Copy, Debug, PartialEq, Eq, Structural, Hash)]
pub enum HostFunction {
    PublicInput,
    PrivateInput,
    ContextInput,
    ContextOutput,
}

/// Direction of a value that crosses to an external host function.
#[derive(Clone, Copy, Debug, PartialEq, Eq, Structural, Hash)]
pub enum ExternalHostCallSignature {
    Argument,
    Return,
}

impl BinOp {
    pub open spec fn code(self) -> u32 {
        match self {
            BinOp::Add => 0,
            BinOp::Sub => 1,
            BinOp::Mul => 2,
            BinOp::Div => 3,
            BinOp::Rem => 4,
        }
    }

    pub fn index(self) -> (r: u32)
        ensures
            r == self.code(),
    {
        match self {
            BinOp::Add => 0,
            BinOp::Sub => 1,
            BinOp::Mul => 2,
            BinOp::Div => 3,
            BinOp::Rem => 4,
        }
    }
}

impl BitOp {
    pub open spec fn code(self) -> u32 {
        match self {
            BitOp::And => 0,
            BitOp::Or => 1,
            BitOp::Xor => 2,
        }
    }

    pub fn index(self) -> (r: u32)
        ensures
            r == self.code(),
    {
        match self {
            BitOp::And => 0,
            BitOp::Or => 1,
            BitOp::Xor => 2,
        }
    }
}

impl UnaryOp {
    pub open spec fn code(self) -> u32 {
        match self {
            UnaryOp::Ctz => 0,
            UnaryOp::Clz => 1,
            UnaryOp::Popcnt => 2,
        }
    }

    pub fn index(self) -> (r: u32)
        ensures
            r == self.code(),
    {
        match self {
            UnaryOp::Ctz => 0,
            UnaryOp::Clz => 1,
            UnaryOp::Popcnt => 2,
        }
    }
}

impl RelOp {
    pub open spec fn code(self) -> u32 {
        match self {
            RelOp::Eq => 0,
            RelOp::Ne => 1,
            RelOp::Lt => 2,
            RelOp::Gt => 3,
            RelOp::Le => 4,
            RelOp::Ge => 5,
        }
    }

    pub fn index(self) -> (r: u32)
        ensures
            r == self.code(),
    {
        match self {
            RelOp::Eq => 0,
            RelOp::Ne => 1,
            RelOp::Lt => 2,
            RelOp::Gt => 3,
            RelOp::Le => 4,
            RelOp::Ge => 5,
        }
    }
}

impl HostFunction {
    pub open spec fn code(self) -> u32 {
        match self {
            HostFunction::PublicInput => 0,
            HostFunction::PrivateInput => 1,
            HostFunction::ContextInput => 2,
            HostFunction::ContextOutput => 3,
        }
    }

    pub fn index(self) -> (r: u32)
        ensures
            r == self.code(),
    {
        match self {
            HostFunction::PublicInput => 0,
            HostFunction::PrivateInput => 1,
            HostFunction::ContextInput => 2,
            HostFunction::ContextOutput => 3,
        }
    }
}

impl ExternalHostCallSignature {
    pub open spec fn code(self) -> u32 {
        match self {
            ExternalHostCallSignature::Argument => 0,
            ExternalHostCallSignature::Return => 1,
        }
    }

    pub fn index(self) -> (r: u32)
        ensures
            r == self.code(),
    {
        match self {
            ExternalHostCallSignature::Argument => 0,
            ExternalHostCallSignature::Return => 1,
        }
    }
}

impl VarType {
    pub open spec fn code(self) -> u32 {
        match self {
            VarType::I64 => 0,
            VarType::I32 => 1,
        }
    }

    pub fn index(self) -> (r: u32)
        ensures
            r == self.code(),
    {
        match self {
            VarType::I64 => 0,
            VarType::I32 => 1,
        }
    }
}

/// The categories of instructions. Each has its own encoder in the event
/// table and its own indicator column there.
#[derive(Clone, Copy, Debug, PartialEq, Eq, Structural, Hash)]
pub enum OpcodeClass {
    LocalGet,
    LocalSet,
    GlobalGet,
    GlobalSet,
    Const,
    Drop,
    Return,
    Br,
    BrIfEqz,
    Call,
    CallIndirect,
    CallHost,
    ExternalHostCall,
    Load,
    Store,
    Bin,
    BinBit,
    Unary,
    Rel,
}

/// Number of instruction categories.
pub const OPCODE_CLASSES: usize = 19;

impl OpcodeClass {
    pub open spec fn code(self) -> u32 {
        match self {
            OpcodeClass::LocalGet => 0,
            OpcodeClass::LocalSet => 1,
            OpcodeClass::GlobalGet => 2,
            OpcodeClass::GlobalSet => 3,
            OpcodeClass::Const => 4,
            OpcodeClass::Drop => 5,
            OpcodeClass::Return => 6,
            OpcodeClass::Br => 7,
            OpcodeClass::BrIfEqz => 8,
            OpcodeClass::Call => 9,
            OpcodeClass::CallIndirect => 10,
            OpcodeClass::CallHost => 11,
            OpcodeClass::ExternalHostCall => 12,
            OpcodeClass::Load => 13,
            OpcodeClass::Store => 14,
            OpcodeClass::Bin => 15,
            OpcodeClass::BinBit => 16,
            OpcodeClass::Unary => 17,
            OpcodeClass::Rel => 18,
        }
    }

    /// Position of the category among the indicator columns.
    pub fn index(self) -> (r: usize)
        ensures
            r == self.code(),
            r < OPCODE_CLASSES,
    {
        match self {
            OpcodeClass::LocalGet => 0,
            OpcodeClass::LocalSet => 1,
            OpcodeClass::GlobalGet => 2,
            OpcodeClass::GlobalSet => 3,
            OpcodeClass::Const => 4,
            OpcodeClass::Drop => 5,
            OpcodeClass::Return => 6,
            OpcodeClass::Br => 7,
            OpcodeClass::BrIfEqz => 8,
            OpcodeClass::Call => 9,
            OpcodeClass::CallIndirect => 10,
            OpcodeClass::CallHost => 11,
            OpcodeClass::ExternalHostCall => 12,
            OpcodeClass::Load => 13,
            OpcodeClass::Store => 14,
            OpcodeClass::Bin => 15,
            OpcodeClass::BinBit => 16,
            OpcodeClass::Unary => 17,
            OpcodeClass::Rel => 18,
        }
    }
}

/// An instruction with its static operands.
#[allow(inconsistent_fields)]
#[derive(Clone, Copy, Debug, PartialEq, Eq, Structural, Hash)]
pub enum Opcode {
    LocalGet { vtype: VarType, offset: u32 },
    LocalSet { vtype: VarType, offset: u32 },
    GlobalGet { idx: u32 },
    GlobalSet { idx: u32 },
    Const { vtype: VarType, value: u64 },
    Drop,
    Return { drop: u32, keep: u32 },
    Br { drop: u32, keep: u32, dst_pc: u32 },
    BrIfEqz { drop: u32, keep: u32, dst_pc: u32 },
    Call { index: u32 },
    CallIndirect { type_idx: u32 },
    CallHost { function: HostFunction },
    ExternalHostCall { op: u32, sig: ExternalHostCallSignature },
    Load { vtype: VarType, offset: u32 },
    Store { vtype: VarType, offset: u32 },
    Bin { class: BinOp, vtype: VarType },
    BinBit { class: BitOp, vtype: VarType },
    Unary { class: UnaryOp, vtype: VarType },
    Rel { class: RelOp, vtype: VarType },
}

/// The limb that opens the encoding of an instruction: its category above a
/// sub-code above a 32-bit operand.
pub open spec fn spec_head(class: OpcodeClass, sub: u32, arg: u32) -> u64 {
    (class.code() * 0x1_0000_0000_0000 + (sub % 0x1_0000) * 0x1_0000_0000 + arg) as u64
}

fn head(class: OpcodeClass, sub: u32, arg: u32) -> (r: u64)
    ensures
        r == spec_head(class, sub, arg),
{
    (class.index() as u64) * 0x1_0000_0000_0000 + ((sub % 0x1_0000) as u64) * 0x1_0000_0000 + (
    arg as u64)
}

impl Opcode {
    pub open spec fn spec_class(&self) -> OpcodeClass {
        match *self {
            Opcode::LocalGet { .. } => OpcodeClass::LocalGet,
            Opcode::LocalSet { .. } => OpcodeClass::LocalSet,
            Opcode::GlobalGet { .. } => OpcodeClass::GlobalGet,
            Opcode::GlobalSet { .. } => OpcodeClass::GlobalSet,
            Opcode::Const { .. } => OpcodeClass::Const,
            Opcode::Drop => OpcodeClass::Drop,
            Opcode::Return { .. } => OpcodeClass::Return,
            Opcode::Br { .. } => OpcodeClass::Br,
            Opcode::BrIfEqz { .. } => OpcodeClass::BrIfEqz,
            Opcode::Call { .. } => OpcodeClass::Call,
            Opcode::CallIndirect { .. } => OpcodeClass::CallIndirect,
            Opcode::CallHost { .. } => OpcodeClass::CallHost,
            Opcode::ExternalHostCall { .. } => OpcodeClass::ExternalHostCall,
            Opcode::Load { .. } => OpcodeClass::Load,
            Opcode::Store { .. } => OpcodeClass::Store,
            Opcode::Bin { .. } => OpcodeClass::Bin,
            Opcode::BinBit { .. } => OpcodeClass::BinBit,
            Opcode::Unary { .. } => OpcodeClass::Unary,
            Opcode::Rel { .. } => OpcodeClass::Rel,
        }
    }

    #[verifier::when_used_as_spec(spec_class)]
    pub fn class(&self) -> (r: OpcodeClass)
        ensures
            r == self.spec_class(),
    {
        match *self {
            Opcode::LocalGet { .. } => OpcodeClass::LocalGet,
            Opcode::LocalSet { .. } => OpcodeClass::LocalSet,
            Opcode::GlobalGet { .. } => OpcodeClass::GlobalGet,
            Opcode::GlobalSet { .. } => OpcodeClass::GlobalSet,
            Opcode::Const { .. } => OpcodeClass::Const,
            Opcode::Drop => OpcodeClass::Drop,
            Opcode::Return { .. } => OpcodeClass::Return,
            Opcode::Br { .. } => OpcodeClass::Br,
            Opcode::BrIfEqz { .. } => OpcodeClass::BrIfEqz,
            Opcode::Call { .. } => OpcodeClass::Call,
            Opcode::CallIndirect { .. } => OpcodeClass::CallIndirect,
            Opcode::CallHost { .. } => OpcodeClass::CallHost,
            Opcode::ExternalHostCall { .. } => OpcodeClass::ExternalHostCall,
            Opcode::Load { .. } => OpcodeClass::Load,
            Opcode::Store { .. } => OpcodeClass::Store,
            Opcode::Bin { .. } => OpcodeClass::Bin,
            Opcode::BinBit { .. } => OpcodeClass::BinBit,
            Opcode::Unary { .. } => OpcodeClass::Unary,
            Opcode::Rel { .. } => OpcodeClass::Rel,
        }
    }

    /// What the instruction costs in jump operations: one for each call and
    /// each return, the instructions that open or close a frame.
    pub open spec fn spec_jops(&self) -> u32 {
        match *self {
            Opcode::Return { .. } => 1,
            Opcode::Call { .. } => 1,
            Opcode::CallIndirect { .. } => 1,
            _ => 0,
        }
    }

    #[verifier::when_used_as_spec(spec_jops)]
    pub fn jops(&self) -> (r: u32)
        ensures
            r == self.spec_jops(),
            r <= 1,
    {
        match *self {
            Opcode::Return { .. } => 1,
            Opcode::Call { .. } => 1,
            Opcode::CallIndirect { .. } => 1,
            _ => 0,
        }
    }

    /// The two limbs of the instruction: head and wide operand.
    pub open spec fn spec_encode(self) -> (u64, u64) {
        let class = self.spec_class();
        match self {
            Opcode::LocalGet { vtype, offset } => (spec_head(class, vtype.code(), offset), 0),
            Opcode::LocalSet { vtype, offset } => (spec_head(class, vtype.code(), offset), 0),
            Opcode::GlobalGet { idx } => (spec_head(class, 0, idx), 0),
            Opcode::GlobalSet { idx } => (spec_head(class, 0, idx), 0),
            Opcode::Const { vtype, value } => (spec_head(class, vtype.code(), 0), value),
            Opcode::Drop => (spec_head(class, 0, 0), 0),
            Opcode::Return { drop, keep } => (spec_head(class, 0, drop), keep as u64),
            Opcode::Br { drop, keep, dst_pc } => (spec_head(class, 0, drop), spec_pack(keep, dst_pc)),
            Opcode::BrIfEqz { drop, keep, dst_pc } => (
                spec_head(class, 0, drop),
                spec_pack(keep, dst_pc),
            ),
            Opcode::Call { index } => (spec_head(class, 0, index), 0),
            Opcode::CallIndirect { type_idx } => (spec_head(class, 0, type_idx), 0),
            Opcode::CallHost { function } => (spec_head(class, function.code(), 0), 0),
            Opcode::ExternalHostCall { op, sig } => (spec_head(class, sig.code(), op), 0),
            Opcode::Load { vtype, offset } => (spec_head(class, vtype.code(), offset), 0),
            Opcode::Store { vtype, offset } => (spec_head(class, vtype.code(), offset), 0),
            Opcode::Bin { class: op, vtype } => (spec_head(class, vtype.code(), op.code()), 0),
            Opcode::BinBit { class: op, vtype } => (spec_head(class, vtype.code(), op.code()), 0),
            Opcode::Unary { class: op, vtype } => (spec_head(class, vtype.code(), op.code()), 0),
            Opcode::Rel { class: op, vtype } => (spec_head(class, vtype.code(), op.code()), 0),
        }
    }

    pub fn encode(&self) -> (r: (u64, u64))
        ensures
            r == self.spec_encode(),
    {
        let class = self.class();
        match *self {
            Opcode::LocalGet { vtype, offset } => (head(class, vtype.index(), offset), 0),
            Opcode::LocalSet { vtype, offset } => (head(class, vtype.index(), offset), 0),
            Opcode::GlobalGet { idx } => (head(class, 0, idx), 0),
            Opcode::GlobalSet { idx } => (head(class, 0, idx), 0),
            Opcode::Const { vtype, value } => (head(class, vtype.index(), 0), value),
            Opcode::Drop => (head(class, 0, 0), 0),
            Opcode::Return { drop, keep } => (head(class, 0, drop), keep as u64),
            Opcode::Br { drop, keep, dst_pc } => (head(class, 0, drop), pack(keep, dst_pc)),
            Opcode::BrIfEqz { drop, keep, dst_pc } => (head(class, 0, drop), pack(keep, dst_pc)),
            Opcode::Call { index } => (head(class, 0, index), 0),
            Opcode::CallIndirect { type_idx } => (head(class, 0, type_idx), 0),
            Opcode::CallHost { function } => (head(class, function.index(), 0), 0),
            Opcode::ExternalHostCall { op, sig } => (head(class, sig.index(), op), 0),
            Opcode::Load { vtype, offset } => (head(class, vtype.index(), offset), 0),
            Opcode::Store { vtype, offset } => (head(class, vtype.index(), offset), 0),
            Opcode::Bin { class: op, vtype } => (head(class, vtype.index(), op.index()), 0),
            Opcode::BinBit { class: op, vtype } => (head(class, vtype.index(), op.index()), 0),
            Opcode::Unary { class: op, vtype } => (head(class, vtype.index(), op.index()), 0),
            Opcode::Rel { class: op, vtype } => (head(class, vtype.index(), op.index()), 0),
        }
    }
}

/// One instruction of one function.
#[derive(Clone, Copy, Debug, PartialEq, Eq, Structural, Hash)]
pub struct InstructionTableEntry {
    pub fid: u32,
    pub iid: u32,
    pub opcode: Opcode,
}

impl InstructionTableEntry {
    /// The row of the instruction: address in the third limb, instruction in
    /// the two below.
    pub open spec fn spec_encode(self) -> U256 {
        U256 {
            l0: self.opcode.spec_encode().1,
            l1: self.opcode.spec_encode().0,
            l2: spec_pack(self.fid, self.iid),
            l3: 0,
        }
    }

    pub fn encode(&self) -> (r: U256)
        ensures
            r == self.spec_encode(),
            r.l3 == 0,
    {
        let (hi, lo) = self.opcode.encode();
        U256 { l0: lo, l1: hi, l2: pack(self.fid, self.iid), l3: 0 }
    }

    /// The branch target that the instruction holds, if it is a branch.
    pub open spec fn spec_branch_target(self) -> Option<BrTableEntry> {
        match self.opcode {
            Opcode::Br { drop, keep, dst_pc } => Some(
                BrTableEntry { fid: self.fid, iid: self.iid, index: 0, drop, keep, dst_pc },
            ),
            Opcode::BrIfEqz { drop, keep, dst_pc } => Some(
                BrTableEntry { fid: self.fid, iid: self.iid, index: 0, drop, keep, dst_pc },
            ),
            _ => None,
        }
    }

    pub fn branch_target(&self) -> (r: Option<BrTableEntry>)
        ensures
            r == self.spec_branch_target(),
    {
        match self.opcode {
            Opcode::Br { drop, keep, dst_pc } => Some(
                BrTableEntry { fid: self.fid, iid: self.iid, index: 0, drop, keep, dst_pc },
            ),
            Opcode::BrIfEqz { drop, keep, dst_pc } => Some(
                BrTableEntry { fid: self.fid, iid: self.iid, index: 0, drop, keep, dst_pc },
            ),
            _ => None,
        }
    }
}

#[derive(Debug)]
pub struct InstructionTable {
    pub entries: Vec<InstructionTableEntry>,
}

impl View for InstructionTable {
    type V = Seq<InstructionTableEntry>;

    open spec fn view(&self) -> Seq<InstructionTableEntry> {
        self.entries@
    }
}

/// The branch targets of a sequence of instructions, in their order.
pub open spec fn branch_targets(instructions: Seq<InstructionTableEntry>) -> Seq<BrTableEntry> {
    instructions.filter_map(|i: InstructionTableEntry| i.spec_branch_target())
}

impl InstructionTable {
    pub fn new(entries: Vec<InstructionTableEntry>) -> (table: InstructionTable)
        ensures
            table@ == entries@,
    {
        InstructionTable { entries }
    }

    pub fn entries(&self) -> (entries: &Vec<InstructionTableEntry>)
        ensures
            entries@ == self@,
    {
        &self.entries
    }

    /// The table of the branch targets of the program.
    pub fn create_brtable(&self) -> (table: BrTable)
        ensures
            table@ == branch_targets(self@),
    {
        let ghost f = |i: InstructionTableEntry| i.spec_branch_target();
        let mut targets: Vec<BrTableEntry> = Vec::new();
        let mut i: usize = 0;
        proof {
            assert(self@.take(0) =~= Seq::<InstructionTableEntry>::empty());
        }
        while i < self.entries.len()
            invariant
                i <= self.entries.len(),
                f == (|i: InstructionTableEntry| i.spec_branch_target()),
                targets@ == self@.take(i as int).filter_map(f),
            decreases self.entries.len() - i,
        {
            let target = self.entries[i].branch_target();
            proof {
                assert(self@.take(i + 1).drop_last() =~= self@.take(i as int));
                assert(self@.take(i + 1).last() == self@[i as int]);
            }
            match target {
                Some(t) => {
                    targets.push(t);
                    proof {
                        assert(self@.take(i as int).filter_map(f) + seq![t] =~= self@.take(
                            i as int,
                        ).filter_map(f).push(t));
                    }
                },
                None => {},
            }
            i += 1;
        }
        proof {
            assert(self@.take(self@.len() as int) =~= self@);
        }
        BrTable::new(targets)
    }
}

} // verus!
