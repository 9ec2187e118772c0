//! Gradient accumulation: collects the per-parameter gradient tensors that
//! successive backward passes produce and merges them by elementwise
//! summation, keyed by a stable parameter identity.

pub mod accum;
pub mod grads;
pub mod laws;
pub mod param;
pub mod tensor;

pub use accum::{GradientsAccumulator, Module};
pub use grads::GradientsParams;
pub use param::ParamId;
pub use tensor::GradientTensor;
