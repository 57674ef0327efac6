//! The preparation of texts and the export of models.
pub mod huggingface;
pub mod pretokenize;
pub mod sampling;
