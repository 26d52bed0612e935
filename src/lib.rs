//! Dense matrix multiplication over row-major buffers, in four kernels that
//! share one contract: a naive reference, a cache-blocked kernel, a kernel
//! whose column blocks run as independent parallel tasks, and a blocked
//! kernel with an eight-lane inner step.
pub mod scalar;
pub mod tensor;
pub mod spec;
pub mod kernels;
pub mod parallel;
pub mod laws;

pub use kernels::{sgemm, sgemm_tiled, sgemm_tiled_simd, Strategy};
pub use parallel::sgemm_tiled_par;
pub use scalar::Scalar;
pub use tensor::{F32Tensor, GemmError, ShapeError, BLOCK_SIZE};
