//! The flat-buffer shapes that the sparse-matrix kernel takes: a CSR
//! descriptor with its block partition, a witness in three parts, and the
//! zeroed vector that the kernel writes into.

use crate::field::Scalar;
use crate::msm::Fault;
use vstd::prelude::*;

verus! {

/// A CSR matrix as the kernel sees it: borrowed buffers and their sizes.
#[derive(Debug)]
pub struct CudaSparseMatrix<'a, F> {
    pub data: &'a [F],
    pub col_idx: &'a [usize],
    pub row_ptr: &'a [usize],
    pub blocks: &'a [usize],
    pub num_rows: usize,
    pub num_cols: usize,
    pub nnz: usize,
    pub num_blocks: usize,
    pub block_size: usize,
}

impl<'a, F> CudaSparseMatrix<'a, F> {
    /// Whether the recorded sizes are those of the buffers.
    pub open spec fn wf(&self) -> bool {
        &&& self.nnz == self.data@.len()
        &&& self.col_idx@.len() == self.data@.len()
        &&& self.row_ptr@.len() == self.num_rows + 1
        &&& self.num_blocks == self.blocks@.len()
    }

    /// Describes a matrix of `num_rows` rows and `num_cols` columns, cut
    /// into `blocks`. There must be one column index per value and one row
    /// pointer per row boundary.
    pub fn new(
        data: &'a [F],
        col_idx: &'a [usize],
        row_ptr: &'a [usize],
        num_rows: usize,
        num_cols: usize,
        blocks: &'a [usize],
        block_size: usize,
    ) -> (csr: Self)
        requires
            data@.len() == col_idx@.len(),
            row_ptr@.len() == num_rows + 1,
        ensures
            csr.wf(),
            csr.data@ == data@,
            csr.col_idx@ == col_idx@,
            csr.row_ptr@ == row_ptr@,
            csr.blocks@ == blocks@,
            csr.num_rows == num_rows,
            csr.num_cols == num_cols,
            csr.nnz == data@.len(),
            csr.num_blocks == blocks@.len(),
            csr.block_size == block_size,
    {
        let nnz = data.len();
        CudaSparseMatrix {
            data,
            col_idx,
            row_ptr,
            num_rows,
            num_cols,
            nnz,
            blocks,
            num_blocks: blocks.len(),
            block_size,
        }
    }
}

/// The vector that the matrix is multiplied with, in three borrowed parts:
/// a prefix `w`, one scalar `u`, and a suffix `x`.
#[derive(Debug)]
pub struct CudaWitness<'a, F> {
    pub w: &'a [F],
    pub u: &'a F,
    pub x: &'a [F],
    pub nw: usize,
    pub nx: usize,
}

impl<'a, F> CudaWitness<'a, F> {
    /// Describes the three parts, copying nothing.
    pub fn new(w: &'a [F], u: &'a F, x: &'a [F]) -> (witness: Self)
        ensures
            witness.w@ == w@,
            *witness.u == *u,
            witness.x@ == x@,
            witness.nw == w@.len(),
            witness.nx == x@.len(),
    {
        CudaWitness { w, u, x, nw: w.len(), nx: x.len() }
    }
}

/// The output vector as it is handed to the kernel: one entry per row, all
/// zero, so that rows the kernel leaves alone read as zero.
pub fn sink<F>(csr: &CudaSparseMatrix<'_, F>) -> (out: Vec<Scalar>)
    ensures
        out@.len() == csr.num_rows,
        forall|r: int| 0 <= r < out@.len() ==> (#[trigger] out@[r])@ == 0,
{
    let out: Vec<Scalar> = vec![Scalar::zero(); csr.num_rows];
    out
}

/// Whether a caller's output vector can take what the kernel writes: one
/// entry per row. A shorter one is a length mismatch.
pub fn sink_fits<F>(csr: &CudaSparseMatrix<'_, F>, sink_len: usize) -> (r: Result<(), Fault>)
    ensures
        r == (if sink_len >= csr.num_rows {
            Ok::<(), Fault>(())
        } else {
            Err(Fault::LengthMismatch)
        }),
{
    if sink_len >= csr.num_rows {
        Ok(())
    } else {
        Err(Fault::LengthMismatch)
    }
}

} // verus!
