//! What a step did: the operands it saw and the results it produced.

use crate::itable::{BinOp, BitOp, ExternalHostCallSignature, HostFunction, RelOp, UnaryOp};
use crate::mtable::VarType;
use vstd::prelude::*;

verus! {

/// The record of one executed instruction, one variant for each category.
///
/// The six categories that touch memory move one value: they read it at one
/// location and write it at another. Slots are absolute stack offsets.
#[allow(inconsistent_fields)]
#[derive(Clone, Copy, Debug, PartialEq, Eq, Structural, Hash)]
pub enum StepInfo {
    LocalGet { vtype: VarType, from_slot: u32, to_slot: u32, value: u64 },
    LocalSet { vtype: VarType, from_slot: u32, to_slot: u32, value: u64 },
    GlobalGet { idx: u32, vtype: VarType, is_mutable: bool, to_slot: u32, value: u64 },
    GlobalSet { idx: u32, vtype: VarType, is_mutable: bool, from_slot: u32, value: u64 },
    Load { vtype: VarType, offset: u32, to_slot: u32, value: u64 },
    Store { vtype: VarType, offset: u32, from_slot: u32, value: u64 },
    Const { vtype: VarType, value: u64 },
    Drop,
    Return { drop: u32, keep: u32 },
    Br { dst_pc: u32, drop: u32, keep: u32 },
    BrIfEqz { condition: u32, dst_pc: u32, drop: u32, keep: u32 },
    Call { index: u32 },
    CallIndirect { table_index: u32, type_index: u32, offset: u32, func_index: u32 },
    CallHost { function: HostFunction, is_public: bool, value: u64 },
    ExternalHostCall { op: u32, value: u64, sig: ExternalHostCallSignature },
    I32BinOp { class: BinOp, left: u32, right: u32, value: u32 },
    I64BinOp { class: BinOp, left: u64, right: u64, value: u64 },
    I32BinBitOp { class: BitOp, left: u32, right: u32, value: u32 },
    I64BinBitOp { class: BitOp, left: u64, right: u64, value: u64 },
    UnaryOp { class: UnaryOp, vtype: VarType, operand: u64, result: u64 },
    I32Comp { class: RelOp, left: u32, right: u32, value: bool },
    I64Comp { class: RelOp, left: u64, right: u64, value: bool },
}

} // verus!
