//! The table encoders: what each table of the proof holds, row by row.

pub mod bit_table;
pub mod cell;
pub mod etable;
pub mod image_table;
pub mod mtable;
pub mod test_circuit;
