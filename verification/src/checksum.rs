//! The image checksum: one short commitment to all cells of an image table.

use crate::circuits::image_table::{
    image_table_cells, image_table_error, EncodeCompilationTableValues,
};
use crate::encode::{two_to, U256};
use crate::error::{TableKind, TraceError};
use crate::CompilationTable;
use halo2_proofs::arithmetic::best_multiexp;
use halo2_proofs::pasta::group::{Curve, GroupEncoding};
use halo2_proofs::pasta::{EqAffine, Fp};
use halo2_proofs::poly::commitment::Params;
use vstd::prelude::*;

verus! {

/// The generators of the commitment scheme: `Params` of `halo2_proofs` over
/// the Vesta curve, whose scalars are the cells of the tables.
#[verifier::external_body]
pub struct Generators {
    params: Params<EqAffine>,
}

/// The generators that `generators` holds, each in its compressed encoding,
/// in the order of `Params::get_g`.
pub uninterp spec fn commitment_bases(generators: Generators) -> Seq<Seq<u8>>;

/// The most generators that parameters can be made for: two to this power.
pub const MAX_PARAMS_K: u32 = 31;

/// Powers of two grow, and the largest that parameters are made for fits a
/// length.
pub proof fn lemma_two_to_bounded(k: nat)
    requires
        k <= MAX_PARAMS_K,
    ensures
        0 < two_to(k) <= 0x8000_0000,
    decreases MAX_PARAMS_K - k,
{
    if k < MAX_PARAMS_K {
        lemma_two_to_bounded(k + 1);
    } else {
        reveal_with_fuel(two_to, 32);
    }
}

/// `Params::new` of `halo2_proofs`. The contract claims: the parameters for
/// `k` hold two to the power `k` generators.
#[verifier::external_body]
fn generate(k: u32) -> (r: Generators)
    requires
        k <= MAX_PARAMS_K,
    ensures
        commitment_bases(r).len() == two_to(k as nat),
{
    Generators { params: Params::new(k) }
}

/// The public parameters of the commitment scheme: two to the power `k`
/// generators.
pub struct CommitmentParams {
    k: u32,
    generators: Generators,
}

impl CommitmentParams {
    #[verifier::type_invariant]
    spec fn inv(self) -> bool {
        self.k <= MAX_PARAMS_K && commitment_bases(self.generators).len() == two_to(self.k as nat)
    }

    /// The generators, each in its compressed encoding.
    pub closed spec fn bases(self) -> Seq<Seq<u8>> {
        commitment_bases(self.generators)
    }

    pub closed spec fn spec_k(self) -> u32 {
        self.k
    }

    /// The parameters with two to the power `k` generators, if `k` is at most
    /// `MAX_PARAMS_K`.
    pub fn new(k: u32) -> (r: Option<CommitmentParams>)
        ensures
            r is Some <==> k <= MAX_PARAMS_K,
            r matches Some(params) ==> params.spec_k() == k && params.bases().len() == two_to(
                k as nat,
            ),
    {
        if k <= MAX_PARAMS_K {
            Some(CommitmentParams { k, generators: generate(k) })
        } else {
            None
        }
    }

    pub fn k(&self) -> (k: u32)
        ensures
            k == self.spec_k(),
            k <= MAX_PARAMS_K,
            self.bases().len() == two_to(k as nat),
    {
        proof {
            use_type_invariant(self);
        }
        self.k
    }

    /// How many generators the parameters hold.
    pub fn capacity(&self) -> (n: usize)
        ensures
            n == self.bases().len(),
    {
        proof {
            use_type_invariant(self);
        }
        let mut n: usize = 1;
        let mut i: u32 = 0;
        while i < self.k
            invariant
                i <= self.k <= MAX_PARAMS_K,
                n == two_to(i as nat),
            decreases self.k - i,
        {
            proof {
                lemma_two_to_bounded((i + 1) as nat);
            }
            n = n * 2;
            i += 1;
        }
        n
    }
}

/// The compressed encoding of the sum of the `bases`, each multiplied by the
/// scalar at its place: what `best_multiexp` of `halo2_proofs` computes.
pub uninterp spec fn multiexp(scalars: Seq<nat>, bases: Seq<Seq<u8>>) -> Seq<u8>;

/// The numbers that the words `cells` stand for.
pub open spec fn values_of(cells: Seq<U256>) -> Seq<nat> {
    cells.map_values(|c: U256| c.value())
}

/// `best_multiexp` of `halo2_proofs`, with the words `cells` as scalars
/// through `Fp::from_raw` and as many of the generators as bases. The
/// contract claims: what comes back is the compressed encoding of the result,
/// which only the numbers of the cells and those generators determine.
#[verifier::external_body]
fn commit(cells: &Vec<U256>, generators: &Generators) -> (digest: [u8; 32])
    requires
        cells@.len() <= commitment_bases(*generators).len(),
    ensures
        digest@ == multiexp(
            values_of(cells@),
            commitment_bases(*generators).take(cells@.len() as int),
        ),
{
    let scalars: Vec<Fp> = cells.iter().map(|c| Fp::from_raw([c.l0, c.l1, c.l2, c.l3])).collect();
    let bases = generators.params.get_g();
    best_multiexp(&scalars, &bases[0..scalars.len()]).to_affine().to_bytes()
}

/// What has a checksum.
pub trait ImageCheckSum<Output> {
    fn checksum(&self) -> Output;
}

/// An image together with the parameters of the commitment scheme and the
/// number of lookup rows of the image table.
pub struct ImageTableWithParams<'a, 'b> {
    pub table: &'a CompilationTable,
    pub params: &'b CommitmentParams,
    pub max_image_table_rows: usize,
}

/// Images with the same rows and the same checkpoint have the same cells, and
/// so, wherever they have one, the same checksum.
pub proof fn lemma_same_image_same_cells(a: &CompilationTable, b: &CompilationTable, rows: usize)
    requires
        a.same_as(b),
    ensures
        image_table_cells(a, rows as int) == image_table_cells(b, rows as int),
        forall|generators: nat|
            checksum_error(a, rows, generators) == checksum_error(b, rows, generators),
{
    assert(image_table_cells(a, rows as int) =~= image_table_cells(b, rows as int));
}

/// Why `table` has no checksum over an image table of `rows` lookup rows
/// under parameters of `generators` generators, if it has none: the image has
/// more lookup rows than the image table, or the image table more cells than
/// there are generators.
pub open spec fn checksum_error(table: &CompilationTable, rows: usize, generators: nat) -> Option<
    TraceError,
> {
    if image_table_error(table, rows) is Some {
        image_table_error(table, rows)
    } else if image_table_cells(table, rows as int).len() > generators {
        Some(
            TraceError::CapacityExceeded {
                table: TableKind::Image,
                required: image_table_cells(table, rows as int).len() as usize,
                capacity: generators as usize,
            },
        )
    } else {
        None
    }
}

/// The commitment to `cells` under `params`, if `params` holds a generator
/// for each of them.
pub fn commit_cells(cells: &Vec<U256>, params: &CommitmentParams) -> (r: Option<[u8; 32]>)
    ensures
        r is Some <==> cells@.len() <= params.bases().len(),
        r matches Some(digest) ==> digest@ == multiexp(
            values_of(cells@),
            params.bases().take(cells@.len() as int),
        ),
{
    if cells.len() <= params.capacity() {
        Some(commit(cells, &params.generators))
    } else {
        None
    }
}

impl<'a, 'b> ImageCheckSum<Result<[u8; 32], TraceError>> for ImageTableWithParams<'a, 'b> {
    /// The commitment to all cells of the image table. Fails where the image
    /// has more lookup rows than the image table, or the image table more
    /// cells than the parameters have generators.
    fn checksum(&self) -> (r: Result<[u8; 32], TraceError>)
        ensures
            ({
                let rows = self.max_image_table_rows as int;
                let cells = image_table_cells(self.table, rows);
                let bases = self.params.bases();
                match r {
                    Ok(digest) => {
                        &&& checksum_error(self.table, self.max_image_table_rows, bases.len())
                            is None
                        &&& digest@ == multiexp(values_of(cells), bases.take(cells.len() as int))
                    },
                    Err(e) => Some(e) == checksum_error(
                        self.table,
                        self.max_image_table_rows,
                        bases.len(),
                    ),
                }
            }),
    {
        let layouter = match self.table.encode_compilation_table_values(self.max_image_table_rows) {
            Ok(layouter) => layouter,
            Err(e) => {
                return Err(e);
            },
        };
        let cells = layouter.plain();
        match commit_cells(&cells, self.params) {
            Some(digest) => Ok(digest),
            None => Err(
                TraceError::CapacityExceeded {
                    table: TableKind::Image,
                    required: cells.len(),
                    capacity: self.params.capacity(),
                },
            ),
        }
    }
}

} // verus!
