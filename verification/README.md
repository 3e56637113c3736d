# mlp

A small multilayer perceptron, built from scratch around one flat parameter
array.

`src/` is the verified library. It holds the structure the numerics run on:

- `net_properties`: where the weights of every transition live in the flat
  parameter array, with proofs that every connection owns exactly one
  parameter and every parameter belongs to one connection;
- `signals`, `swap_buffer`: the activation arena of all layers and the two
  scratch buffers of a pass;
- `batch`: samples stored as an input block followed by an output block,
  typed as training or inference batches;
- `owned_data`, `owned_dataset`, `owned_evaluation`, `data`, `csv`: datasets,
  their sequential and random batching with the per-epoch guarantees,
  evaluation records, column splitting and comma-separated text.

The library is generic over the value type of the data it moves. `app/`
instantiates it with `f32` and holds what computes on floating-point values:
activation functions, forward and backward propagation, gradient descent with
`rayon`, random initialisation with `rand_distr`, JSON output with `serde`,
and the command line driver.
