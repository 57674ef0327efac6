# eisen

A small engine for training language models: tensors with a tape on which operations are recorded
and gone back through, the layers of a transformer, an optimizer, a byte pair tokenizer, data
loaders and an exporter. The functions of the library have contracts that Verus proves; what is
taken on trust of an outside function is said where it is called.

- `src/scalar.rs`, `src/tensor.rs`, `src/tape.rs`: numbers, tensors and recorded operations. The
  library is written over any numbers with the operations of `Scalar`.
- `src/graph/`: operations on the host, their way back, the plans for the device, device memory and
  the streaming of weights. `src/graph/differential/` proves that in arithmetic without rounding the
  gradients are the partial derivatives of the loss.
- `src/nn/`: layers, models, the optimizer and the learning rate.
- `src/data/`: the tokenizer, spans to fill in, and batches.
- `src/tools/`: files of tokens, samples of text, and the exchange format for weights.
- `app/`: the program around it, with machine floats, CUDA and files.
- `tests/`: tests on concrete values.
