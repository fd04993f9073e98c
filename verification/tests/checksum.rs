use halo2_proofs::arithmetic::best_multiexp;
use halo2_proofs::pasta::group::{Curve, GroupEncoding};
use halo2_proofs::pasta::{EqAffine, Fp};
use halo2_proofs::poly::commitment::Params;
use zkwasm::brtable::ElemTable;
use zkwasm::checksum::{
    commit_cells, CommitmentParams, ImageCheckSum, ImageTableWithParams, MAX_PARAMS_K,
};
use zkwasm::circuits::image_table::EncodeCompilationTableValues;
use zkwasm::encode::U256;
use zkwasm::error::{TableKind, TraceError};
use zkwasm::imtable::{InitMemoryTable, InitMemoryTableEntry};
use zkwasm::itable::{InstructionTable, InstructionTableEntry, Opcode};
use zkwasm::jtable::StaticFrameEntry;
use zkwasm::mtable::{LocationType, VarType};
use zkwasm::{CompilationTable, InitializationState};

fn image() -> CompilationTable {
    CompilationTable {
        itable: InstructionTable::new(vec![
            InstructionTableEntry {
                fid: 0,
                iid: 0,
                opcode: Opcode::Const { vtype: VarType::I64, value: 3 },
            },
            InstructionTableEntry { fid: 0, iid: 1, opcode: Opcode::Return { drop: 0, keep: 1 } },
        ]),
        imtable: InitMemoryTable::new(vec![InitMemoryTableEntry {
            ltype: LocationType::Heap,
            is_mutable: true,
            offset: 0,
            value: 1,
        }]),
        elem_table: ElemTable::new(vec![]),
        static_jtable: vec![StaticFrameEntry {
            enable: true,
            frame_id: 0,
            next_frame_id: 0,
            callee_fid: 0,
            fid: 0,
            iid: 0,
        }],
        initialization_state: InitializationState {
            eid: 1,
            jops: 1,
            sp: 4095,
            ..InitializationState::default()
        },
    }
}

fn digest(table: &CompilationTable, params: &CommitmentParams, rows: usize) -> Result<[u8; 32], TraceError> {
    ImageTableWithParams { table, params, max_image_table_rows: rows }.checksum()
}

#[test]
fn checksum_is_the_commitment_to_the_cells() {
    let params = CommitmentParams::new(5).unwrap();
    let table = image();
    let cells = table.encode_compilation_table_values(8).unwrap().plain();
    assert_eq!(cells.len(), 24);
    let scalars: Vec<Fp> =
        cells.iter().map(|c| Fp::from_raw([c.l0, c.l1, c.l2, c.l3])).collect();
    let generators = Params::<EqAffine>::new(5).get_g();
    let expected = best_multiexp(&scalars, &generators[..24]).to_affine().to_bytes();
    assert_eq!(digest(&table, &params, 8), Ok(expected));
    assert_eq!(commit_cells(&cells, &params), Some(expected));
    assert_ne!(expected, [0u8; 32]);
}

#[test]
fn checksum_is_repeatable() {
    let table = image();
    let first = digest(&table, &CommitmentParams::new(5).unwrap(), 8).unwrap();
    let second = digest(&image(), &CommitmentParams::new(5).unwrap(), 8).unwrap();
    assert_eq!(first, second);
    // Generators are drawn one after the other: more of them change nothing.
    let third = digest(&table, &CommitmentParams::new(6).unwrap(), 8).unwrap();
    assert_eq!(first, third);
}

#[test]
fn any_changed_cell_changes_the_checksum() {
    let params = CommitmentParams::new(5).unwrap();
    let cells = image().encode_compilation_table_values(8).unwrap().plain();
    let unchanged = commit_cells(&cells, &params).unwrap();
    // A fixed pseudo-random walk over cells and limbs.
    let mut seed = 0x2545_f491_4f6c_dd1d_u64;
    for _ in 0..40 {
        seed ^= seed << 13;
        seed ^= seed >> 7;
        seed ^= seed << 17;
        let at = (seed % cells.len() as u64) as usize;
        let mut changed = cells.clone();
        match (seed >> 8) % 3 {
            0 => changed[at].l0 ^= 1 << ((seed >> 16) % 64),
            1 => changed[at].l1 ^= 1 << ((seed >> 16) % 64),
            _ => changed[at].l2 ^= 1 << ((seed >> 16) % 64),
        }
        assert_ne!(changed, cells);
        assert_ne!(commit_cells(&changed, &params).unwrap(), unchanged);
    }
    for at in 0..cells.len() {
        let mut changed = cells.clone();
        changed[at].l0 = changed[at].l0.wrapping_add(1);
        assert_ne!(commit_cells(&changed, &params).unwrap(), unchanged);
    }
}

#[test]
fn changed_image_changes_the_checksum() {
    let params = CommitmentParams::new(5).unwrap();
    let unchanged = digest(&image(), &params, 8).unwrap();
    let mut state = image();
    state.initialization_state.eid = 2;
    assert_ne!(digest(&state, &params, 8).unwrap(), unchanged);
    let mut memory = image();
    memory.imtable = InitMemoryTable::new(vec![InitMemoryTableEntry {
        ltype: LocationType::Heap,
        is_mutable: true,
        offset: 0,
        value: 2,
    }]);
    assert_ne!(digest(&memory, &params, 8).unwrap(), unchanged);
    let mut frames = image();
    frames.static_jtable.clear();
    assert_ne!(digest(&frames, &params, 8).unwrap(), unchanged);
}

#[test]
fn image_that_does_not_fit_has_no_checksum() {
    let params = CommitmentParams::new(4).unwrap();
    // Sixteen generators: twelve cells of the checkpoint and four of the frames
    // leave no room for a lookup row.
    assert_eq!(
        digest(&image(), &params, 8),
        Err(TraceError::CapacityExceeded { table: TableKind::Image, required: 24, capacity: 16 })
    );
    assert_eq!(params.capacity(), 16);
    assert_eq!(params.k(), 4);
    let wide = CommitmentParams::new(5).unwrap();
    assert_eq!(
        digest(&image(), &wide, 5),
        Err(TraceError::CapacityExceeded { table: TableKind::Image, required: 6, capacity: 5 })
    );
    assert!(digest(&image(), &wide, 16).is_ok());
    assert!(digest(&image(), &wide, 17).is_err());
}

#[test]
fn parameters_hold_two_to_the_k_generators() {
    let params = CommitmentParams::new(3).unwrap();
    let cells = vec![U256::one(); 8];
    assert!(commit_cells(&cells, &params).is_some());
    assert!(commit_cells(&vec![U256::one(); 9], &params).is_none());
    assert!(commit_cells(&vec![], &params).is_some());
    assert!(CommitmentParams::new(0).is_some());
    assert!(commit_cells(&vec![U256::one(); 2], &CommitmentParams::new(0).unwrap()).is_none());
    assert!(CommitmentParams::new(MAX_PARAMS_K + 1).is_none());
    assert!(CommitmentParams::new(u32::MAX).is_none());
}
