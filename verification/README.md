# autodiff_nn

Optimizers, learning-rate schedules and small layers of a neural-network library,
written in Rust and verified with Verus.

- `src/number.rs` says what arithmetic the rest is written over. Contracts speak of
  these operations one by one, so they fix each operation and the order in which the
  operations are carried out. The few laws that are taken of them, on order, sign and
  the numbers zero and one, stand there too. `src/fixed.rs` is a decimal arithmetic
  that meets them.
- `src/tensor.rs`, `src/layout.rs`, `src/dict.rs`, `src/text.rs`, `src/error.rs`:
  tensors in row-major order, dictionaries of named tensors, texts and errors. Only
  one thing is taken without proof: that what `{:?}` makes of a text depends on the
  text alone.
- `src/optim/`: nine first-order optimizers with saved state and parameter groups,
  L-BFGS with a strong Wolfe line search, schedules, gradient clipping and scaling.
- `src/module.rs`: named parameters, and loading a state that is put back where a
  part of it cannot be loaded.
- `src/norm.rs`, `src/normalization.rs`, `src/batch_norm.rs`, `src/linear.rs`,
  `src/pooling.rs`, `src/activation.rs`, `src/padding.rs`, `src/pixel_shuffle.rs`:
  layers. What a compute backend does is handed to them as a function.
- `app/`: the machine's floating-point numbers as numbers of the library.
- `tests/`: tests on floating-point numbers.

An interactive computation, such as a step of L-BFGS that asks for losses and
gradients as it goes, is given an objective that keeps a record of its evaluations.
The contract says which evaluations are added to the record and what they lead to
(`src/optim/trace.rs`).
