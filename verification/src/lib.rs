//! Gaussian blur of RGB rasters: the kernel's geometry, the gathering of the
//! samples under a kernel with border skipping, the sequential pass over a
//! raster, the assembly of results that arrive in any order, and the
//! bookkeeping of a fixed pool of workers.
//!
//! The library works in integers. The weights of the kernel and the weighted
//! average of the samples are floating-point work and belong to the caller,
//! who hands the blend of the samples in as a function.

pub mod kernel;
pub mod raster;
pub mod convolve;
pub mod sequential;
pub mod assemble;
pub mod plan;
pub mod pool;
pub mod opts;

pub use crate::opts::Opts;
pub use crate::pool::ThreadPool;
pub use crate::sequential::blur_sync;
