use grumpkin_msm::csr::SparseMatrix;
use grumpkin_msm::field::Scalar;
use grumpkin_msm::msm::Fault;
use grumpkin_msm::spmvm::{sink, sink_fits, CudaSparseMatrix, CudaWitness};

#[test]
fn descriptor_records_the_sizes_of_its_buffers() {
    let data = [1u64, 2, 3];
    let col_idx = [0usize, 2, 1];
    let row_ptr = [0usize, 2, 3];
    let blocks = [0usize, 1, 2];
    let csr = CudaSparseMatrix::new(&data, &col_idx, &row_ptr, 2, 3, &blocks, 4);
    assert_eq!(csr.data, &data);
    assert_eq!(csr.col_idx, &col_idx);
    assert_eq!(csr.row_ptr, &row_ptr);
    assert_eq!(csr.blocks, &blocks);
    assert_eq!(csr.num_rows, 2);
    assert_eq!(csr.num_cols, 3);
    assert_eq!(csr.nnz, 3);
    assert_eq!(csr.num_blocks, 3);
    assert_eq!(csr.block_size, 4);
}

#[test]
fn descriptor_of_a_sparse_matrix_and_its_partition() {
    let coo = vec![
        (0usize, 0usize, Scalar::from_u64(1)),
        (0, 1, Scalar::from_u64(2)),
        (1, 1, Scalar::from_u64(3)),
        (2, 0, Scalar::from_u64(4)),
    ];
    let m = SparseMatrix::new(&coo, 3, 2);
    let blocks = m.blocks(3);
    let whole = m.blocks(m.len() + 1);
    let csr = CudaSparseMatrix::new(&m.data, &m.indices, &m.indptr, 3, m.cols, &blocks, 3);
    assert_eq!(csr.nnz, 4);
    assert_eq!(csr.num_blocks, blocks.len());
    assert_eq!(csr.blocks, &[0, 1, 3]);
    let csr = CudaSparseMatrix::new(&m.data, &m.indices, &m.indptr, 3, m.cols, &whole, m.len() + 1);
    assert_eq!(csr.blocks, &[0, 3]);
    assert_eq!(csr.num_blocks, 2);
}

#[test]
fn witness_borrows_its_three_parts() {
    let scalars: Vec<Scalar> = (0..12).map(Scalar::from_u64).collect();
    let n = scalars.len();
    let witness = CudaWitness::new(&scalars[0..n - 10], &scalars[n - 10], &scalars[n - 9..]);
    assert_eq!(witness.nw, 2);
    assert_eq!(witness.nx, 9);
    assert_eq!(witness.w, &scalars[0..2]);
    assert_eq!(*witness.u, Scalar::from_u64(2));
    assert_eq!(witness.x, &scalars[3..]);
}

#[test]
fn sink_is_one_zero_per_row() {
    let row_ptr = [0usize; 6];
    let csr = CudaSparseMatrix::<u8>::new(&[], &[], &row_ptr, 5, 9, &[0, 5], 1);
    assert_eq!(sink(&csr), vec![Scalar::zero(); 5]);
    assert_eq!(Scalar::zero().limbs, [0, 0, 0, 0]);
    let csr = CudaSparseMatrix::<u8>::new(&[], &[], &row_ptr[..1], 0, 0, &[0, 0], 1);
    assert_eq!(sink(&csr), vec![]);
}

#[test]
fn sink_fits_from_one_entry_per_row_on() {
    let row_ptr = [0usize; 6];
    let csr = CudaSparseMatrix::<u8>::new(&[], &[], &row_ptr, 5, 9, &[0, 5], 1);
    assert_eq!(sink_fits(&csr, 5), Ok(()));
    assert_eq!(sink_fits(&csr, 6), Ok(()));
    assert_eq!(sink_fits(&csr, 4), Err(Fault::LengthMismatch));
    assert_eq!(sink_fits(&csr, 0), Err(Fault::LengthMismatch));
    assert_eq!(sink_fits(&csr, sink(&csr).len()), Ok(()));
    let none = CudaSparseMatrix::<u8>::new(&[], &[], &row_ptr[..1], 0, 0, &[0, 0], 1);
    assert_eq!(sink_fits(&none, 0), Ok(()));
}
