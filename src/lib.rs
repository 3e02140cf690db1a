//! Integer dense matrix multiplication: a suite of kernels that are proved to
//! compute the exact product, a correctness oracle, and the arithmetic of a
//! benchmark report.
pub mod bench;
pub mod matmul;
pub mod validate;
