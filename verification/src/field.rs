//! The scalar field of the proof system, as far as the tables need it.

use crate::encode::U256;
use halo2_proofs::arithmetic::Field;
use halo2_proofs::pasta::group::ff::PrimeField;
use halo2_proofs::pasta::Fp;
use vstd::prelude::*;

verus! {

/// The number of elements of the field.
pub open spec fn modulus() -> nat {
    0x40000000000000000000000000000000224698fc094cf91b992d30ed00000001nat
}

/// A word whose top limb stays below this bound stands for a number below
/// the size of the field.
pub const SMALL_TOP_LIMB: u64 = 0x4000_0000_0000_0000;

/// Words with a small top limb are numbers of the field.
pub proof fn lemma_small_word_in_field(word: U256)
    requires
        word.l3 < SMALL_TOP_LIMB,
    ensures
        word.value() < modulus(),
{
}

/// Whether `inverse` is the inverse of `d` in the field, in its least
/// non-negative form.
pub open spec fn is_inverse(d: nat, inverse: nat) -> bool {
    inverse < modulus() && (inverse * d) % modulus() == 1
}

/// Limb `k` of the number whose little-endian bytes are `bytes`.
pub open spec fn limb_of(bytes: Seq<u8>, k: int) -> u64 {
    (bytes[8 * k] + bytes[8 * k + 1] * 0x100 + bytes[8 * k + 2] * 0x1_0000 + bytes[8 * k + 3]
        * 0x100_0000 + bytes[8 * k + 4] * 0x1_0000_0000 + bytes[8 * k + 5] * 0x100_0000_0000
        + bytes[8 * k + 6] * 0x1_0000_0000_0000 + bytes[8 * k + 7] * 0x100_0000_0000_0000) as u64
}

/// The word whose little-endian bytes are `bytes`.
pub open spec fn word_of(bytes: Seq<u8>) -> U256 {
    U256 {
        l0: limb_of(bytes, 0),
        l1: limb_of(bytes, 1),
        l2: limb_of(bytes, 2),
        l3: limb_of(bytes, 3),
    }
}

fn limb_from(bytes: &[u8; 32], k: usize) -> (r: u64)
    requires
        k < 4,
    ensures
        r == limb_of(bytes@, k as int),
{
    let b = 8 * k;
    (bytes[b] as u64) + (bytes[b + 1] as u64) * 0x100 + (bytes[b + 2] as u64) * 0x1_0000 + (bytes[b
        + 3] as u64) * 0x100_0000 + (bytes[b + 4] as u64) * 0x1_0000_0000 + (bytes[b + 5] as u64)
        * 0x100_0000_0000 + (bytes[b + 6] as u64) * 0x1_0000_0000_0000 + (bytes[b + 7] as u64)
        * 0x100_0000_0000_0000
}

/// Reads a word from its little-endian bytes.
pub fn word_from_le_bytes(bytes: &[u8; 32]) -> (r: U256)
    ensures
        r == word_of(bytes@),
{
    U256 {
        l0: limb_from(bytes, 0),
        l1: limb_from(bytes, 1),
        l2: limb_from(bytes, 2),
        l3: limb_from(bytes, 3),
    }
}

/// `Field::invert` of `halo2_proofs`, on the field element of the number `d`
/// as `From<u64>` gives it, read back through `PrimeField::to_repr`. The
/// contract claims: there is no inverse exactly for zero, and the bytes that
/// come back are the little-endian bytes of the least non-negative number
/// whose product with `d` leaves 1 modulo the size of the field.
#[verifier::external_body]
fn invert(d: u64) -> (r: Option<[u8; 32]>)
    ensures
        d == 0 <==> r is None,
        r matches Some(bytes) ==> is_inverse(d as nat, word_of(bytes@).value()),
{
    let inverse: Option<Fp> = Fp::from(d).invert().into();
    inverse.map(|f| f.to_repr())
}

/// The inverse of `d` in the field, or zero where `d` is zero and has none.
pub fn invert_or_zero(d: u64) -> (r: U256)
    ensures
        d == 0 ==> r == (U256 { l0: 0, l1: 0, l2: 0, l3: 0 }),
        d != 0 ==> is_inverse(d as nat, r.value()),
{
    match invert(d) {
        Some(bytes) => word_from_le_bytes(&bytes),
        None => U256::zero(),
    }
}

} // verus!
