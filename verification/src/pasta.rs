//! The Pallas curve of the Pasta cycle: test data and the reference sum.

pub mod utils;
