# llm_scratch

The data side of a small GPT-style language model, written in Verus and
built on `candle_core` tensors:

- `src/data_loader.rs`: the sliding-window dataset of token ids and the
  batching data loader (optionally shuffled, optionally dropping the last
  partial batch), which keeps the windows as token ids and builds new
  tensors for each batch, with the laws of its windows and of a pass over
  batches;
- `src/generate.rs`: the token-id tensors of greedy generation (batch of
  one sequence, context window, appending the chosen token, reading ids back);
- `src/data.rs`: splitting a token stream into training and validation loaders;
- `src/train.rs`: step and token counting of the training loop and when to evaluate;
- `src/attention.rs`, `src/shortcut.rs`, `src/gpt_model.rs`, `src/gelu.rs`:
  the integer shape and parameter-count arithmetic of the model;
- `src/tensor.rs`: the `candle_core` and `rand` calls the library makes,
  with the contracts it relies on.

The models themselves (attention, layer norm, GELU, the transformer, the
loss and the optimizer loop) are floating-point tensor code and live in
`app/`, a command-line program that runs the chapters' examples.
