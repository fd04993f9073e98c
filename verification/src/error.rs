//! Construction-time failures of the trace tables.

use crate::mtable::LocationType;
use vstd::prelude::*;

verus! {

/// The table whose row budget was exhausted.
#[derive(Clone, Copy, Debug, PartialEq, Eq, Structural)]
pub enum TableKind {
    Image,
    Event,
    Bit,
    Memory,
}

/// Why a set of tables could not be built. None of these is recoverable:
/// each reports a trace or a configuration that breaks the contract between
/// the interpreter and the table builders.
#[derive(Clone, Copy, Debug, PartialEq, Eq, Structural)]
pub enum TraceError {
    /// A table needs `required` row blocks but is configured for `capacity`.
    CapacityExceeded { table: TableKind, required: usize, capacity: usize },
    /// The location is read before anything was written to it and the
    /// initial memory table has no value for it.
    MissingInitValue { ltype: LocationType, offset: u32 },
    /// The last step of the trace, with execution id `eid`, is not a return,
    /// or its successor state cannot be represented.
    MalformedTerminalTrace { eid: u32 },
    /// The checkpoint stored in slice `slice` is not the one derived from the
    /// end of the slice before it.
    InconsistentBoundaryState { slice: usize },
}

} // verus!
