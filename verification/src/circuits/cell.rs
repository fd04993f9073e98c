//! Names for the cells that tie one table to another.

use vstd::prelude::*;

verus! {

/// The tables whose cells take part in equality constraints.
#[derive(Clone, Copy, Debug, PartialEq, Eq, Structural, Hash)]
pub enum Region {
    EventTable,
    FrameTable,
    ImageTable,
    MemoryTable,
}

/// A cell of a table: a column and a row offset in it.
#[derive(Clone, Copy, Debug, PartialEq, Eq, Structural, Hash)]
pub struct Cell {
    pub region: Region,
    pub column: usize,
    pub row: usize,
}

} // verus!
