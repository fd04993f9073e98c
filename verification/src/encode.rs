//! Fixed-width encodings of table rows. Every row of every table becomes one
//! 256-bit word, small enough for a field element of the proof system.

use vstd::prelude::*;

verus! {

/// Two to the power `k`.
pub open spec fn two_to(k: nat) -> nat
    decreases k,
{
    if k == 0 {
        1
    } else {
        2 * two_to((k - 1) as nat)
    }
}

/// An unsigned 256-bit word, as four 64-bit limbs; `l0` is the least
/// significant.
#[derive(Clone, Copy, Debug, PartialEq, Eq, Structural, Hash)]
pub struct U256 {
    pub l0: u64,
    pub l1: u64,
    pub l2: u64,
    pub l3: u64,
}

impl U256 {
    /// The number that the word stands for.
    pub open spec fn value(self) -> nat {
        (self.l0 + self.l1 * 0x1_0000_0000_0000_0000 + self.l2
            * 0x1_0000_0000_0000_0000_0000_0000_0000_0000 + self.l3
            * 0x1_0000_0000_0000_0000_0000_0000_0000_0000_0000_0000_0000_0000) as nat
    }

    pub fn zero() -> (r: U256)
        ensures
            r.value() == 0,
            r == (U256 { l0: 0, l1: 0, l2: 0, l3: 0 }),
    {
        U256 { l0: 0, l1: 0, l2: 0, l3: 0 }
    }

    pub fn one() -> (r: U256)
        ensures
            r.value() == 1,
            r == (U256 { l0: 1, l1: 0, l2: 0, l3: 0 }),
    {
        U256 { l0: 1, l1: 0, l2: 0, l3: 0 }
    }

    pub fn from_u64(v: u64) -> (r: U256)
        ensures
            r.value() == v,
            r == (U256 { l0: v, l1: 0, l2: 0, l3: 0 }),
    {
        U256 { l0: v, l1: 0, l2: 0, l3: 0 }
    }

    pub fn from_u32(v: u32) -> (r: U256)
        ensures
            r.value() == v,
            r == (U256 { l0: v as u64, l1: 0, l2: 0, l3: 0 }),
    {
        U256 { l0: v as u64, l1: 0, l2: 0, l3: 0 }
    }

    pub fn from_bool(b: bool) -> (r: U256)
        ensures
            r.value() == (if b { 1nat } else { 0nat }),
    {
        U256 { l0: if b { 1 } else { 0 }, l1: 0, l2: 0, l3: 0 }
    }
}

/// Two words that stand for the same number are the same word.
pub proof fn lemma_value_injective(a: U256, b: U256)
    requires
        a.value() == b.value(),
    ensures
        a == b,
{
    let k1: int = (b.l1 - a.l1) + (b.l2 - a.l2) * 0x1_0000_0000_0000_0000 + (b.l3 - a.l3)
        * 0x1_0000_0000_0000_0000_0000_0000_0000_0000;
    assert(a.l0 - b.l0 == k1 * 0x1_0000_0000_0000_0000);
    assert(k1 == 0);
    let k2: int = (b.l2 - a.l2) + (b.l3 - a.l3) * 0x1_0000_0000_0000_0000;
    assert(a.l1 - b.l1 == k2 * 0x1_0000_0000_0000_0000);
    assert(k2 == 0);
    let k3: int = b.l3 - a.l3;
    assert(a.l2 - b.l2 == k3 * 0x1_0000_0000_0000_0000);
    assert(k3 == 0);
}

/// Two 32-bit fields side by side in one limb, `hi` above `lo`.
pub open spec fn spec_pack(hi: u32, lo: u32) -> u64 {
    (hi * 0x1_0000_0000 + lo) as u64
}

#[verifier::when_used_as_spec(spec_pack)]
pub fn pack(hi: u32, lo: u32) -> (r: u64)
    ensures
        r == spec_pack(hi, lo),
        r == hi * 0x1_0000_0000 + lo,
{
    (hi as u64) * 0x1_0000_0000 + (lo as u64)
}

/// A packed limb tells both of its fields.
pub proof fn lemma_pack_injective(a: u32, b: u32, c: u32, d: u32)
    requires
        spec_pack(a, b) == spec_pack(c, d),
    ensures
        a == c,
        b == d,
{
}

/// Bits of the top limb that a row may use; the tag of its table stands above
/// them.
pub const PAYLOAD_TOP_LIMIT: u64 = 0x1_0000_0000;

/// The sub-tables of the image table. Each row carries the tag of its
/// sub-table in its highest bits, so that rows of different sub-tables never
/// coincide.
#[derive(Clone, Copy, Debug, PartialEq, Eq, Structural)]
pub enum ImageTableEncoder {
    Instruction,
    BrTable,
    InitMemory,
}

impl ImageTableEncoder {
    pub open spec fn tag(self) -> u64 {
        match self {
            ImageTableEncoder::Instruction => 1,
            ImageTableEncoder::BrTable => 2,
            ImageTableEncoder::InitMemory => 3,
        }
    }

    /// Whether `word` leaves the bits of the tag free.
    pub open spec fn fits(word: U256) -> bool {
        word.l3 < PAYLOAD_TOP_LIMIT
    }

    /// The row `payload`, tagged: `tag * 2^224 + payload`.
    pub open spec fn spec_encode(self, payload: U256) -> U256 {
        U256 {
            l0: payload.l0,
            l1: payload.l1,
            l2: payload.l2,
            l3: (self.tag() * PAYLOAD_TOP_LIMIT + payload.l3) as u64,
        }
    }

    pub fn encode(self, payload: U256) -> (r: U256)
        requires
            Self::fits(payload),
        ensures
            r == self.spec_encode(payload),
            r.value() == self.tag()
                * 0x1_0000_0000_0000_0000_0000_0000_0000_0000_0000_0000_0000_0000_0000_0000
                + payload.value(),
    {
        let tag: u64 = match self {
            ImageTableEncoder::Instruction => 1,
            ImageTableEncoder::BrTable => 2,
            ImageTableEncoder::InitMemory => 3,
        };
        U256 { l0: payload.l0, l1: payload.l1, l2: payload.l2, l3: tag * PAYLOAD_TOP_LIMIT + payload.l3 }
    }
}

/// Rows with different tags differ, whatever they carry, and a tagged row
/// tells its payload.
pub proof fn lemma_tags_disjoint(a: ImageTableEncoder, x: U256, b: ImageTableEncoder, y: U256)
    requires
        ImageTableEncoder::fits(x),
        ImageTableEncoder::fits(y),
        a.spec_encode(x) == b.spec_encode(y),
    ensures
        a == b,
        x == y,
{
}

} // verus!
