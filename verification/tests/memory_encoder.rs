use halo2_proofs::arithmetic::Field;
use halo2_proofs::pasta::Fp;
use zkwasm::circuits::cell::{Cell, Region};
use zkwasm::circuits::mtable::{
    encode_memory_table_entry, MemoryRow, MemoryTableChip, MEMORY_TABLE_ENTRY_ROWS,
};
use zkwasm::encode::{pack, U256};
use zkwasm::error::{TableKind, TraceError};
use zkwasm::field::invert_or_zero;
use zkwasm::imtable::{InitMemoryTable, InitMemoryTableEntry};
use zkwasm::mtable::{
    AccessType, LocationType, MTable, MemoryTableEntry, VarType, END_EID_NEVER,
};

fn access(eid: u32, ltype: LocationType, offset: u32, atype: AccessType, value: u64) -> MemoryTableEntry {
    MemoryTableEntry {
        eid,
        emid: 1,
        offset,
        ltype,
        atype,
        vtype: if ltype == LocationType::Global { VarType::I32 } else { VarType::I64 },
        is_mutable: ltype != LocationType::Global,
        value,
    }
}

fn image() -> InitMemoryTable {
    InitMemoryTable::new(vec![
        InitMemoryTableEntry { ltype: LocationType::Heap, is_mutable: true, offset: 2, value: 22 },
        InitMemoryTableEntry { ltype: LocationType::Global, is_mutable: false, offset: 0, value: 9 },
    ])
}

fn table() -> MTable {
    let events = vec![
        access(1, LocationType::Stack, 70, AccessType::Write, 1),
        access(2, LocationType::Heap, 2, AccessType::Read, 22),
        access(3, LocationType::Heap, 2, AccessType::Write, 23),
        access(4, LocationType::Heap, 9, AccessType::Write, 5),
        access(5, LocationType::Global, 0, AccessType::Read, 9),
        access(6, LocationType::Stack, 70, AccessType::Read, 1),
        access(7, LocationType::Stack, 75, AccessType::Write, 1),
    ];
    MTable::new(events, &image()).unwrap()
}

fn rows() -> Vec<MemoryRow> {
    MemoryTableChip::new(4096).assign_entries(&table(), &image(), 5).unwrap()
}

fn field(word: &U256) -> Fp {
    Fp::from_raw([word.l0, word.l1, word.l2, word.l3])
}

#[test]
fn rows_hold_the_indicators_of_their_access() {
    let rows = rows();
    assert_eq!(rows.len(), 10);
    let kinds: Vec<(bool, bool, bool)> =
        rows.iter().map(|r| (r.cells.is_stack, r.cells.is_heap, r.cells.is_global)).collect();
    let stack = (true, false, false);
    let heap = (false, true, false);
    let global = (false, false, true);
    assert_eq!(kinds, vec![stack, stack, stack, heap, heap, heap, heap, heap, global, global]);
    let inits: Vec<bool> = rows.iter().map(|r| r.cells.is_init).collect();
    assert_eq!(inits, vec![false, false, false, true, false, false, true, false, true, false]);
    let from_image: Vec<bool> = rows.iter().map(|r| r.cells.is_imtable_init).collect();
    assert_eq!(from_image, vec![false, false, false, true, false, false, false, false, true, false]);
    let zero_proof: Vec<u64> = rows.iter().map(|r| r.cells.zero_init_proof).collect();
    assert_eq!(zero_proof, vec![0, 0, 0, 0, 0, 0, 4, 0, 0, 0]);
    assert!(rows.iter().all(|r| r.cells.enabled));
    assert!(rows[..8].iter().all(|r| r.cells.is_i64 && !r.cells.is_i32 && r.cells.is_mutable));
    assert!(rows[8..].iter().all(|r| r.cells.is_i32 && !r.cells.is_i64 && !r.cells.is_mutable));
}

#[test]
fn rows_hold_the_execution_ids_and_what_is_left() {
    let rows = rows();
    let spans: Vec<(u32, u32, u32)> =
        rows.iter().map(|r| (r.cells.start_eid, r.cells.end_eid, r.cells.eid_diff)).collect();
    let never = END_EID_NEVER;
    assert_eq!(
        spans,
        vec![
            (1, 6, 5),
            (6, never, never - 6),
            (7, never, never - 7),
            (0, 2, 2),
            (2, 3, 1),
            (3, never, never - 3),
            (0, 4, 4),
            (4, never, never - 4),
            (0, 5, 5),
            (5, never, never - 5),
        ]
    );
    let rest: Vec<u64> = rows.iter().map(|r| r.cells.rest_mops).collect();
    assert_eq!(rest, vec![7, 6, 5, 4, 4, 3, 2, 2, 1, 1]);
    assert_eq!(MemoryTableChip::count_mops(&table()), 7);
    assert_eq!(rows[4].cells.offset, 2);
    assert_eq!(rows[4].cells.value, 22);
    assert_eq!(rows[4].cells.encode, encode_memory_table_entry(2, 3, 2, LocationType::Heap, false, 22));
    assert_eq!(rows[8].cells.encode, U256 { l0: 9, l1: 0, l2: pack(0, 5), l3: 7 });
}

#[test]
fn neighbours_are_compared() {
    let rows = rows();
    let same_ltype: Vec<bool> = rows.iter().map(|r| r.cells.is_next_same_ltype).collect();
    assert_eq!(same_ltype, vec![true, true, false, true, true, true, true, false, true, false]);
    let same_offset: Vec<bool> = rows.iter().map(|r| r.cells.is_next_same_offset).collect();
    assert_eq!(same_offset, vec![true, false, false, true, true, false, true, false, true, false]);
    let diffs: Vec<u64> = rows.iter().map(|r| r.cells.offset_diff).collect();
    assert_eq!(diffs, vec![0, 5, 0, 0, 0, 7, 0, 0, 0, 0]);
    for row in rows.iter() {
        if row.cells.offset_diff == 0 {
            assert_eq!(row.offset_diff_inv, U256::zero());
        } else {
            assert_eq!(field(&row.offset_diff_inv) * Fp::from(row.cells.offset_diff), Fp::ONE);
        }
    }
}

#[test]
fn inverse_is_taken_in_the_field() {
    assert_eq!(invert_or_zero(0), U256::zero());
    assert_eq!(invert_or_zero(1), U256::one());
    assert_eq!(
        invert_or_zero(2),
        U256 {
            l0: 0xcc96987680000001,
            l1: 0x11234c7e04a67c8d,
            l2: 0x0000000000000000,
            l3: 0x2000000000000000,
        }
    );
    for d in [3u64, 5, 1 << 32, u64::MAX] {
        let inverse = invert_or_zero(d);
        assert_eq!(field(&inverse) * Fp::from(d), Fp::ONE);
        assert_eq!(Some(field(&inverse)), Option::<Fp>::from(Fp::from(d).invert()));
    }
}

#[test]
fn zero_initialization_before_the_zero_region_is_refused() {
    let chip = MemoryTableChip::new(4096);
    assert!(chip.assign_entries(&table(), &image(), 9).is_ok());
    assert_eq!(
        chip.assign_entries(&table(), &image(), 10).err(),
        Some(TraceError::MissingInitValue { ltype: LocationType::Heap, offset: 9 })
    );
    assert_eq!(chip.assign_entries(&table(), &image(), 0).unwrap()[6].cells.zero_init_proof, 9);
}

#[test]
fn table_without_room_is_refused() {
    let chip = MemoryTableChip::new(10 * MEMORY_TABLE_ENTRY_ROWS - 1);
    assert_eq!(
        chip.assign_entries(&table(), &image(), 5).err(),
        Some(TraceError::CapacityExceeded { table: TableKind::Memory, required: 10, capacity: 9 })
    );
    assert!(chip.assign(None, &table(), &image(), 5).is_err());
    assert!(MemoryTableChip::new(40).assign(None, &table(), &image(), 5).is_ok());
}

#[test]
fn whole_table_is_assigned() {
    let chip = MemoryTableChip::new(42);
    let other = Cell { region: Region::EventTable, column: 20, row: 0 };
    let assignment = chip.assign(Some(other), &table(), &image(), 5).unwrap();
    assert_eq!(assignment.entry_sel.len(), 40);
    for (row, sel) in assignment.entry_sel.iter().enumerate() {
        assert_eq!(*sel, row % 4 == 0);
    }
    assert_eq!(assignment.init_rest_mops, 7);
    let constraint = assignment.rest_mops_constraint.unwrap();
    assert_eq!(constraint.other, other);
    assert_eq!(constraint.image, Cell { region: Region::MemoryTable, column: 0, row: 0 });
    assert_eq!(assignment.rows, rows());
    let loose = chip.assign(None, &table(), &image(), 5).unwrap();
    assert_eq!(loose.rest_mops_constraint, None);
    assert_eq!(chip.constraint_rest_mops_permutation(None, 3), (3, None));
    let empty = MTable::new(vec![], &image()).unwrap();
    let nothing = MemoryTableChip::new(0).assign(None, &empty, &image(), 0).unwrap();
    assert!(nothing.rows.is_empty() && nothing.entry_sel.is_empty());
    assert_eq!(nothing.init_rest_mops, 0);
}
