//! The bit table encoder: operands and results of bitwise instructions, taken
//! apart into halves and bytes.

use crate::encode::two_to;
use crate::error::{TableKind, TraceError};
use crate::etable::{EventTable, EventTableEntry};
use crate::itable::{BitOp, UnaryOp};
use crate::step::StepInfo;
use vstd::prelude::*;

verus! {

/// Rows of a row block of the bit table: the value, its low half with four
/// bytes, its high half with four bytes.
pub const STEP_SIZE: usize = 11;

/// What a row block of the bit table proves.
#[derive(Clone, Copy, Debug, PartialEq, Eq, Structural, Hash)]
pub enum BitTableOp {
    BinaryBit(BitOp),
    Popcnt,
}

impl BitTableOp {
    pub open spec fn code(self) -> u64 {
        match self {
            BitTableOp::BinaryBit(op) => op.code() as u64,
            BitTableOp::Popcnt => 3,
        }
    }

    pub fn index(self) -> (r: u64)
        ensures
            r == self.code(),
    {
        match self {
            BitTableOp::BinaryBit(op) => op.index() as u64,
            BitTableOp::Popcnt => 3,
        }
    }
}

/// One operation that the bit table has to hold.
#[derive(Clone, Copy, Debug, PartialEq, Eq, Structural, Hash)]
pub struct BitTableAssign {
    pub op: BitTableOp,
    pub left: u64,
    pub right: u64,
    pub result: u64,
}

/// What the step `entry` asks of the bit table: the operands and the result
/// of a 32-bit or 64-bit bitwise instruction, or the operand of a population
/// count, which is its own result until the table counts it. Nothing for any
/// other step.
pub open spec fn bit_table_entry(entry: EventTableEntry) -> Option<BitTableAssign> {
    match entry.step_info {
        StepInfo::I32BinBitOp { class, left, right, value } => Some(
            BitTableAssign {
                op: BitTableOp::BinaryBit(class),
                left: left as u64,
                right: right as u64,
                result: value as u64,
            },
        ),
        StepInfo::I64BinBitOp { class, left, right, value } => Some(
            BitTableAssign { op: BitTableOp::BinaryBit(class), left, right, result: value },
        ),
        StepInfo::UnaryOp { class: UnaryOp::Popcnt, operand, .. } => Some(
            BitTableAssign { op: BitTableOp::Popcnt, left: operand, right: 0, result: operand },
        ),
        _ => None,
    }
}

fn entry_of(entry: &EventTableEntry) -> (r: Option<BitTableAssign>)
    ensures
        r == bit_table_entry(*entry),
{
    match entry.step_info {
        StepInfo::I32BinBitOp { class, left, right, value } => Some(
            BitTableAssign {
                op: BitTableOp::BinaryBit(class),
                left: left as u64,
                right: right as u64,
                result: value as u64,
            },
        ),
        StepInfo::I64BinBitOp { class, left, right, value } => Some(
            BitTableAssign { op: BitTableOp::BinaryBit(class), left, right, result: value },
        ),
        StepInfo::UnaryOp { class: UnaryOp::Popcnt, operand, .. } => Some(
            BitTableAssign { op: BitTableOp::Popcnt, left: operand, right: 0, result: operand },
        ),
        _ => None,
    }
}

/// The operations of a trace that the bit table has to hold, in trace order.
pub fn filter_bit_table_entries(event_table: &EventTable) -> (entries: Vec<BitTableAssign>)
    ensures
        entries@ == event_table@.filter_map(|e: EventTableEntry| bit_table_entry(e)),
{
    let ghost f = |e: EventTableEntry| bit_table_entry(e);
    let steps = event_table.entries();
    let mut entries: Vec<BitTableAssign> = Vec::new();
    let mut i: usize = 0;
    proof {
        assert(steps@.take(0) =~= Seq::<EventTableEntry>::empty());
    }
    while i < steps.len()
        invariant
            i <= steps.len(),
            steps@ == event_table@,
            f == (|e: EventTableEntry| bit_table_entry(e)),
            entries@ == steps@.take(i as int).filter_map(f),
        decreases steps.len() - i,
    {
        proof {
            assert(steps@.take(i + 1).drop_last() =~= steps@.take(i as int));
            assert(steps@.take(i + 1).last() == steps@[i as int]);
        }
        match entry_of(&steps[i]) {
            Some(entry) => {
                entries.push(entry);
                proof {
                    assert(steps@.take(i as int).filter_map(f) + seq![entry] =~= steps@.take(
                        i as int,
                    ).filter_map(f).push(entry));
                }
            },
            None => {},
        }
        i += 1;
    }
    proof {
        assert(steps@.take(steps@.len() as int) =~= steps@);
    }
    entries
}

/// Byte `i` of `value`, counting from the least significant.
pub open spec fn byte_of(value: u64, i: int) -> u64 {
    if i == 0 {
        value % 0x100
    } else if i == 1 {
        value / 0x100 % 0x100
    } else if i == 2 {
        value / 0x1_0000 % 0x100
    } else if i == 3 {
        value / 0x100_0000 % 0x100
    } else if i == 4 {
        value / 0x1_0000_0000 % 0x100
    } else if i == 5 {
        value / 0x100_0000_0000 % 0x100
    } else if i == 6 {
        value / 0x1_0000_0000_0000 % 0x100
    } else {
        value / 0x100_0000_0000_0000 % 0x100
    }
}

pub open spec fn low_half(value: u64) -> u64 {
    value % 0x1_0000_0000
}

pub open spec fn high_half(value: u64) -> u64 {
    value / 0x1_0000_0000
}

/// The part of `value` that row `j` of a row block holds: the value itself,
/// then its low half and the four bytes of it, then its high half and the
/// four bytes of it, bytes in little-endian order.
pub open spec fn part_of(value: u64, j: int) -> u64 {
    if j == 0 {
        value
    } else if j == 1 {
        low_half(value)
    } else if j <= 5 {
        byte_of(value, j - 2)
    } else if j == 6 {
        high_half(value)
    } else {
        byte_of(value, j - 3)
    }
}

/// The number of bits set in `value`.
pub open spec fn popcount(value: nat) -> nat
    decreases value,
{
    if value == 0 {
        0
    } else {
        value % 2 + popcount(value / 2)
    }
}

/// The bytes and halves of a value make up the value.
pub proof fn lemma_parts_make_value(value: u64)
    ensures
        value == low_half(value) + high_half(value) * 0x1_0000_0000,
        low_half(value) == byte_of(value, 0) + byte_of(value, 1) * 0x100 + byte_of(value, 2)
            * 0x1_0000 + byte_of(value, 3) * 0x100_0000,
        high_half(value) == byte_of(value, 4) + byte_of(value, 5) * 0x100 + byte_of(value, 6)
            * 0x1_0000 + byte_of(value, 7) * 0x100_0000,
        forall|i: int| 0 <= i < 8 ==> #[trigger] byte_of(value, i) < 0x100,
{
    assert(value == value % 0x1_0000_0000 + (value / 0x1_0000_0000) * 0x1_0000_0000)
        by (bit_vector);
    assert(value % 0x1_0000_0000 == value % 0x100 + (value / 0x100 % 0x100) * 0x100 + (value
        / 0x1_0000 % 0x100) * 0x1_0000 + (value / 0x100_0000 % 0x100) * 0x100_0000)
        by (bit_vector);
    assert(value / 0x1_0000_0000 == value / 0x1_0000_0000 % 0x100 + (value / 0x100_0000_0000
        % 0x100) * 0x100 + (value / 0x1_0000_0000_0000 % 0x100) * 0x1_0000 + (value
        / 0x100_0000_0000_0000 % 0x100) * 0x100_0000) by (bit_vector);
}

/// No value has more bits set than it counts.
pub proof fn lemma_popcount_bounded(value: nat)
    ensures
        popcount(value) <= value,
    decreases value,
{
    if value > 0 {
        lemma_popcount_bounded(value / 2);
    }
}

/// The bits set in a number are those set below bit `k` and those set from
/// bit `k` on.
pub proof fn lemma_popcount_concat(low: nat, high: nat, k: nat)
    requires
        low < two_to(k),
    ensures
        popcount(low + high * two_to(k)) == popcount(low) + popcount(high),
    decreases k,
{
    if k == 0 {
        assert(high * two_to(0) == high) by (nonlinear_arith)
            requires
                two_to(0) == 1,
        ;
    } else {
        let half = two_to((k - 1) as nat);
        lemma_two_to_positive((k - 1) as nat);
        let v = low + high * two_to(k);
        assert(high * two_to(k) == 2 * (high * half)) by (nonlinear_arith)
            requires
                two_to(k) == 2 * half,
        ;
        assert(v % 2 == low % 2);
        assert(v / 2 == low / 2 + high * half);
        lemma_popcount_concat(low / 2, high, (k - 1) as nat);
        assert(popcount(v / 2) == popcount(low / 2) + popcount(high));
        if v == 0 {
            assert(high * half == 0);
            assert(high == 0) by (nonlinear_arith)
                requires
                    high * half == 0,
                    half > 0,
            ;
        } else {
            assert(popcount(v) == v % 2 + popcount(v / 2));
            if low == 0 {
                assert(popcount(low / 2) == 0);
            } else {
                assert(popcount(low) == low % 2 + popcount(low / 2));
            }
        }
    }
}

/// Powers of two are positive.
proof fn lemma_two_to_positive(k: nat)
    ensures
        two_to(k) > 0,
    decreases k,
{
    if k > 0 {
        lemma_two_to_positive((k - 1) as nat);
    }
}

/// The counts that the row block of a population count holds add up: those
/// of the bytes to those of the halves, those of the halves to that of the
/// value.
pub proof fn lemma_partial_counts_add_up(value: u64)
    ensures
        popcount(value as nat) == popcount(low_half(value) as nat) + popcount(
            high_half(value) as nat,
        ),
        popcount(low_half(value) as nat) == popcount(byte_of(value, 0) as nat) + popcount(
            byte_of(value, 1) as nat,
        ) + popcount(byte_of(value, 2) as nat) + popcount(byte_of(value, 3) as nat),
        popcount(high_half(value) as nat) == popcount(byte_of(value, 4) as nat) + popcount(
            byte_of(value, 5) as nat,
        ) + popcount(byte_of(value, 6) as nat) + popcount(byte_of(value, 7) as nat),
{
    lemma_parts_make_value(value);
    assert(two_to(8) == 0x100) by {
        reveal_with_fuel(two_to, 9);
    }
    assert(two_to(32) == 0x1_0000_0000) by {
        reveal_with_fuel(two_to, 33);
    }
    let b = |i: int| byte_of(value, i) as nat;
    lemma_popcount_concat(low_half(value) as nat, high_half(value) as nat, 32);
    lemma_popcount_concat(b(2), b(3), 8);
    lemma_popcount_concat(b(1), b(2) + b(3) * 0x100, 8);
    lemma_popcount_concat(b(0), b(1) + (b(2) + b(3) * 0x100) * 0x100, 8);
    lemma_popcount_concat(b(6), b(7), 8);
    lemma_popcount_concat(b(5), b(6) + b(7) * 0x100, 8);
    lemma_popcount_concat(b(4), b(5) + (b(6) + b(7) * 0x100) * 0x100, 8);
}

/// Counts the bits set in `value`.
pub fn count_ones(value: u64) -> (count: u64)
    ensures
        count == popcount(value as nat),
{
    let mut rest = value;
    let mut count: u64 = 0;
    while rest > 0
        invariant
            count + popcount(rest as nat) == popcount(value as nat),
            count + rest <= value,
        decreases rest,
    {
        count += rest % 2;
        rest = rest / 2;
    }
    count
}

/// One row block of one column.
pub open spec fn value_column(value: u64) -> Seq<u64> {
    Seq::new(STEP_SIZE as nat, |j: int| part_of(value, j))
}

/// One row block of one column, for a population count: every row holds the
/// number of bits set in the part that it would hold otherwise.
pub open spec fn popcnt_column(value: u64) -> Seq<u64> {
    Seq::new(STEP_SIZE as nat, |j: int| popcount(part_of(value, j) as nat) as u64)
}

/// The cells of one row of the bit table.
#[derive(Clone, Copy, Debug, PartialEq, Eq, Structural, Hash)]
pub struct BitTableRow {
    pub op: u64,
    pub left: u64,
    pub right: u64,
    pub result: u64,
}

/// Row `j` of the row block of `entry`.
pub open spec fn bit_table_row(entry: BitTableAssign, j: int) -> BitTableRow {
    BitTableRow {
        op: entry.op.code(),
        left: part_of(entry.left, j),
        right: part_of(entry.right, j),
        result: if entry.op == BitTableOp::Popcnt {
            popcount(part_of(entry.result, j) as nat) as u64
        } else {
            part_of(entry.result, j)
        },
    }
}

/// The rows of the bit table for `entries`: the row blocks of the entries,
/// one after the other.
pub open spec fn bit_table_rows(entries: Seq<BitTableAssign>) -> Seq<BitTableRow> {
    Seq::new(
        entries.len() * STEP_SIZE as nat,
        |r: int| bit_table_row(entries[r / STEP_SIZE as int], r % STEP_SIZE as int),
    )
}

/// Why `n` operations have no bit table of room for `capability`, if they
/// have none.
pub open spec fn bit_table_error(n: nat, capability: usize) -> Option<TraceError> {
    if n > capability {
        Some(
            TraceError::CapacityExceeded {
                table: TableKind::Bit,
                required: n as usize,
                capacity: capability,
            },
        )
    } else {
        None
    }
}

/// The fixed cells of one row of the bit table.
#[derive(Clone, Copy, Debug, PartialEq, Eq, Structural, Hash)]
pub struct BitTableFixedRow {
    /// Set on the row of the low half: one per row block.
    pub block_sel: bool,
    /// Set on the rows that hold a byte.
    pub lookup_sel: bool,
    /// Set on the rows that hold a half.
    pub u32_sel: bool,
}

/// The fixed cells of row `j` of a row block.
pub open spec fn fixed_row(j: int) -> BitTableFixedRow {
    BitTableFixedRow {
        block_sel: j == 1,
        lookup_sel: 2 <= j <= 5 || 7 <= j <= 10,
        u32_sel: j == 1 || j == 6,
    }
}

/// Everything the bit table holds.
pub struct BitTableAssignment {
    pub fixed: Vec<BitTableFixedRow>,
    pub rows: Vec<BitTableRow>,
}

impl BitTableAssignment {
    /// Whether `self` is what the bit table of room for `capability`
    /// operations holds for `entries`.
    pub open spec fn is_assignment_of(&self, entries: Seq<BitTableAssign>, capability: usize)
        -> bool {
        &&& self.rows@ == bit_table_rows(entries)
        &&& self.fixed@.len() == capability * STEP_SIZE
        &&& forall|r: int|
            0 <= r < self.fixed@.len() ==> #[trigger] self.fixed@[r] == fixed_row(
                r % STEP_SIZE as int,
            )
    }
}

pub struct BitTableChip {
    pub max_available_rows: usize,
}

impl BitTableChip {
    pub fn new(max_available_rows: usize) -> (chip: BitTableChip)
        ensures
            chip.max_available_rows == max_available_rows,
    {
        BitTableChip { max_available_rows }
    }

    /// How many operations the table has room for.
    pub open spec fn spec_capability(&self) -> usize {
        self.max_available_rows / STEP_SIZE
    }

    #[verifier::when_used_as_spec(spec_capability)]
    pub fn capability(&self) -> (r: usize)
        ensures
            r == self.spec_capability(),
    {
        self.max_available_rows / STEP_SIZE
    }

    /// The fixed cells: the selectors of every row block that the table has
    /// room for.
    pub fn init(&self) -> (fixed: Vec<BitTableFixedRow>)
        ensures
            fixed@.len() == self.capability() * STEP_SIZE,
            forall|r: int|
                0 <= r < fixed@.len() ==> #[trigger] fixed@[r] == fixed_row(r % STEP_SIZE as int),
    {
        let capability = self.capability();
        let mut fixed: Vec<BitTableFixedRow> = Vec::new();
        let mut block: usize = 0;
        while block < capability
            invariant
                block <= capability,
                capability == self.max_available_rows / STEP_SIZE,
                fixed@.len() == block * STEP_SIZE,
                forall|r: int|
                    0 <= r < fixed@.len() ==> #[trigger] fixed@[r] == fixed_row(
                        r % STEP_SIZE as int,
                    ),
            decreases capability - block,
        {
            let mut j: usize = 0;
            while j < STEP_SIZE
                invariant
                    j <= STEP_SIZE,
                    block < capability,
                    capability == self.max_available_rows / STEP_SIZE,
                    fixed@.len() == block * STEP_SIZE + j,
                    forall|r: int|
                        0 <= r < fixed@.len() ==> #[trigger] fixed@[r] == fixed_row(
                            r % STEP_SIZE as int,
                        ),
                decreases STEP_SIZE - j,
            {
                fixed.push(
                    BitTableFixedRow {
                        block_sel: j == 1,
                        lookup_sel: (2 <= j && j <= 5) || (7 <= j && j <= 10),
                        u32_sel: j == 1 || j == 6,
                    },
                );
                j += 1;
            }
            block += 1;
        }
        fixed
    }

    /// The operation column of a row block: the code of `op` on every row.
    pub fn assign_op(&self, op: BitTableOp) -> (column: Vec<u64>)
        ensures
            column@ == Seq::new(STEP_SIZE as nat, |j: int| op.code()),
    {
        let code = op.index();
        let mut column: Vec<u64> = Vec::new();
        let mut j: usize = 0;
        while j < STEP_SIZE
            invariant
                j <= STEP_SIZE,
                code == op.code(),
                column@.len() == j,
                forall|k: int| 0 <= k < j ==> column@[k] == code,
            decreases STEP_SIZE - j,
        {
            column.push(code);
            j += 1;
        }
        proof {
            assert(column@ =~= Seq::new(STEP_SIZE as nat, |j: int| op.code()));
        }
        column
    }

    /// A value column of a row block: `value`, its halves and its bytes.
    pub fn assign_u64_le(&self, value: u64) -> (column: Vec<u64>)
        ensures
            column@ == value_column(value),
    {
        let mut column: Vec<u64> = Vec::new();
        column.push(value);
        column.push(value % 0x1_0000_0000);
        column.push(value % 0x100);
        column.push(value / 0x100 % 0x100);
        column.push(value / 0x1_0000 % 0x100);
        column.push(value / 0x100_0000 % 0x100);
        column.push(value / 0x1_0000_0000);
        column.push(value / 0x1_0000_0000 % 0x100);
        column.push(value / 0x100_0000_0000 % 0x100);
        column.push(value / 0x1_0000_0000_0000 % 0x100);
        column.push(value / 0x100_0000_0000_0000 % 0x100);
        proof {
            assert(column@ =~= value_column(value));
        }
        column
    }

    /// The result column of the row block of a population count: the number
    /// of bits set in `value`, in each of its halves and in each of its bytes.
    pub fn assign_u64_popcnt(&self, value: u64) -> (column: Vec<u64>)
        ensures
            column@ == popcnt_column(value),
    {
        let parts = self.assign_u64_le(value);
        let mut column: Vec<u64> = Vec::new();
        let mut j: usize = 0;
        while j < STEP_SIZE
            invariant
                j <= STEP_SIZE,
                parts@ == value_column(value),
                column@.len() == j,
                forall|k: int|
                    0 <= k < j ==> column@[k] == popcount(part_of(value, k) as nat) as u64,
            decreases STEP_SIZE - j,
        {
            column.push(count_ones(parts[j]));
            j += 1;
        }
        proof {
            assert(column@ =~= popcnt_column(value));
        }
        column
    }

    /// The rows of the table for `entries`, refused if the table has no room
    /// for them.
    pub fn assign_entries(&self, entries: &Vec<BitTableAssign>) -> (r: Result<
        Vec<BitTableRow>,
        TraceError,
    >)
        ensures
            match r {
                Ok(rows) => bit_table_error(entries@.len(), self.capability()) is None && rows@
                    == bit_table_rows(entries@),
                Err(e) => Some(e) == bit_table_error(entries@.len(), self.capability()),
            },
    {
        let capability = self.capability();
        let n = entries.len();
        if n > capability {
            return Err(
                TraceError::CapacityExceeded {
                    table: TableKind::Bit,
                    required: n,
                    capacity: capability,
                },
            );
        }
        let mut rows: Vec<BitTableRow> = Vec::new();
        let mut k: usize = 0;
        while k < n
            invariant
                k <= n,
                n == entries@.len(),
                n <= self.max_available_rows / STEP_SIZE,
                rows@.len() == k * STEP_SIZE,
                forall|r: int|
                    0 <= r < rows@.len() ==> #[trigger] rows@[r] == bit_table_row(
                        entries@[r / STEP_SIZE as int],
                        r % STEP_SIZE as int,
                    ),
            decreases n - k,
        {
            let entry = entries[k];
            let op = self.assign_op(entry.op);
            let left = self.assign_u64_le(entry.left);
            let right = self.assign_u64_le(entry.right);
            let result = if entry.op == BitTableOp::Popcnt {
                self.assign_u64_popcnt(entry.result)
            } else {
                self.assign_u64_le(entry.result)
            };
            let mut j: usize = 0;
            while j < STEP_SIZE
                invariant
                    j <= STEP_SIZE,
                    k < n,
                    n == entries@.len(),
                    n <= self.max_available_rows / STEP_SIZE,
                    entry == entries@[k as int],
                    op@ == Seq::new(STEP_SIZE as nat, |j: int| entry.op.code()),
                    left@ == value_column(entry.left),
                    right@ == value_column(entry.right),
                    result@ == (if entry.op == BitTableOp::Popcnt {
                        popcnt_column(entry.result)
                    } else {
                        value_column(entry.result)
                    }),
                    rows@.len() == k * STEP_SIZE + j,
                    forall|r: int|
                        0 <= r < rows@.len() ==> #[trigger] rows@[r] == bit_table_row(
                            entries@[r / STEP_SIZE as int],
                            r % STEP_SIZE as int,
                        ),
                decreases STEP_SIZE - j,
            {
                rows.push(
                    BitTableRow { op: op[j], left: left[j], right: right[j], result: result[j] },
                );
                j += 1;
            }
            k += 1;
        }
        proof {
            assert(rows@ =~= bit_table_rows(entries@));
        }
        Ok(rows)
    }

    /// Everything the bit table holds for a trace.
    pub fn assign(&self, event_table: &EventTable) -> (r: Result<BitTableAssignment, TraceError>)
        ensures
            ({
                let entries = event_table@.filter_map(|e: EventTableEntry| bit_table_entry(e));
                match r {
                    Ok(assignment) => {
                        &&& bit_table_error(entries.len(), self.capability()) is None
                        &&& assignment.is_assignment_of(entries, self.capability())
                    },
                    Err(e) => Some(e) == bit_table_error(entries.len(), self.capability()),
                }
            }),
    {
        let entries = filter_bit_table_entries(event_table);
        let rows = match self.assign_entries(&entries) {
            Ok(rows) => rows,
            Err(e) => {
                return Err(e);
            },
        };
        let fixed = self.init();
        Ok(BitTableAssignment { fixed, rows })
    }
}

} // verus!
