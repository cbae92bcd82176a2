//! Splitting a tokenized text into training and validation data loaders.
use vstd::prelude::*;

use candle_core::{Device, Error};

use crate::data_loader::{index_range, input_windows, num_windows, target_windows, DataLoader};
use crate::tensor::device_clone;

verus! {

/// The tokens before `split_idx` and the tokens from it on.
pub fn split_tokens(tokens: &Vec<u32>, split_idx: usize) -> (r: (Vec<u32>, Vec<u32>))
    requires
        split_idx <= tokens.len(),
    ensures
        r.0@ == tokens@.subrange(0, split_idx as int),
        r.1@ == tokens@.subrange(split_idx as int, tokens@.len() as int),
{
    let train = vstd::slice::slice_to_vec(
        vstd::slice::slice_subrange(tokens.as_slice(), 0, split_idx),
    );
    let validation = vstd::slice::slice_to_vec(
        vstd::slice::slice_subrange(tokens.as_slice(), split_idx, tokens.len()),
    );
    (train, validation)
}

/// The two halves of a split give back the tokens.
pub proof fn lemma_split_rejoins(tokens: Seq<u32>, split_idx: int)
    requires
        0 <= split_idx <= tokens.len(),
    ensures
        tokens.subrange(0, split_idx) + tokens.subrange(split_idx, tokens.len() as int) == tokens,
{
    assert(tokens.subrange(0, split_idx) + tokens.subrange(split_idx, tokens.len() as int)
        =~= tokens);
}

/// A training loader over the tokens before `split_idx`, in shuffled
/// batches that drop a last partial batch, and a validation loader over the
/// rest, in order and keeping every batch. Both cut the text into
/// consecutive windows of `context_length` tokens. Batches become tensors
/// on `device` when they are served, so building the loaders cannot fail.
pub fn train_validation_loaders(
    tokens: Vec<u32>,
    split_idx: usize,
    context_length: usize,
    batch_size: usize,
    device: Device,
) -> (r: Result<(DataLoader, DataLoader), Error>)
    requires
        context_length > 0,
        context_length < split_idx,
        split_idx <= tokens.len(),
        context_length < tokens.len() - split_idx,
    ensures
        r is Ok,
        r matches Ok((train, validation)) ==> {
            let cl = context_length as nat;
            let train_tokens = tokens@.subrange(0, split_idx as int);
            let val_tokens = tokens@.subrange(split_idx as int, tokens@.len() as int);
            &&& train@.wf()
            &&& validation@.wf()
            &&& train@.batch_size == batch_size && validation@.batch_size == batch_size
            &&& train@.drop_last && !validation@.drop_last
            &&& train@.current == 0 && validation@.current == 0
            &&& train@.row_len == cl && validation@.row_len == cl
            &&& train@.input_rows == input_windows(train_tokens, cl, cl)
            &&& train@.target_rows == target_windows(train_tokens, cl, cl)
            &&& validation@.input_rows == input_windows(val_tokens, cl, cl)
            &&& validation@.target_rows == target_windows(val_tokens, cl, cl)
            &&& train@.indices.to_multiset() == index_range(
                num_windows(train_tokens.len(), cl, cl),
            ).to_multiset()
            &&& validation@.indices == index_range(num_windows(val_tokens.len(), cl, cl))
        },
{
    let (train_tokens, val_tokens) = split_tokens(&tokens, split_idx);
    let train_loader = DataLoader::new(
        train_tokens,
        context_length,
        context_length,
        batch_size,
        true,
        true,
        device_clone(&device),
    )?;
    let val_loader = DataLoader::new(
        val_tokens,
        context_length,
        context_length,
        batch_size,
        false,
        false,
        device,
    )?;
    Ok((train_loader, val_loader))
}

} // verus!
