//! A training engine for language models: tensors on the host and on a device, a graph with
//! automatic differentiation, byte pair encoding and the loading of batches.
pub mod data;
pub mod graph;
pub mod nn;
pub mod scalar;
pub mod tape;
pub mod tensor;
pub mod tools;
