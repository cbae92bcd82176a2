//! Verified data plumbing for a small GPT-style language model: the sliding
//! window dataset and batching data loader, the token-id tensors that text
//! generation feeds back into the model, the training-loop bookkeeping, and
//! the integer arithmetic of the model's shapes and parameter counts.
//!
//! Tensors come from `candle_core`; the library reasons about the `u32`
//! tensors it builds through the contracts of the trusted items in
//! [`tensor`].

pub mod tensor;
pub mod data_loader;
pub mod generate;
pub mod data;
pub mod train;
pub mod gelu;
pub mod shortcut;
pub mod attention;
pub mod gpt_model;
