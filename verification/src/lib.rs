//! Dispatch, context management and sparse-matrix adapters for multi-scalar
//! multiplication over the BN254 / Grumpkin curve cycle.
//!
//! The native kernels run outside this crate. What is decided before a
//! kernel runs and what is made of its output is decided here:
//!
//! - [`oracle`]: what is known of the accelerator, and the crossover that
//!   gates it;
//! - [`msm`]: shape checks, the context of a reusable point table, and the
//!   kernel entry that each call resolves to;
//! - [`group`]: group elements as plain coordinates, and the check of a
//!   kernel's raw output;
//! - [`csr`]: sparse matrices and their product with a dense vector, whole
//!   or block by block;
//! - [`spmvm`]: the flat-buffer shapes of the sparse-matrix kernel;
//! - [`field`]: the scalar field;
//! - [`utils`]: test data and the reference sum over BN254;
//! - [`pasta`]: the same over Pallas.

pub mod csr;
pub mod field;
pub mod group;
pub mod msm;
pub mod oracle;
pub mod pasta;
pub mod spmvm;
pub mod utils;
