# cutile_quant

Products of Q4_K and Q6_K weights with Q8_1 activations, as they are cut into CUDA tile programs.

The library decides which kernels a product is made of, and computes what each program of each
kernel reads, decodes and stores. It is verified with Verus. Floating point is described as data:
an output is a list of steps over scale factors and integers, nested in the order of its roundings.

- `src/blocks.rs`: the byte layouts of the quantized blocks.
- `src/expr.rs`: floating point arithmetic as data, and its exact value.
- `src/rows.rs`: where rows lie in memory.
- `src/q4k.rs`, `src/q6k.rs`: the kernels.
- `src/tile.rs`: the integer product of tiles, and the kernels that probe a device.
- `src/launch.rs`: the kernels as values.
- `src/settings.rs`: the environment variables.
- `src/plan.rs`: from a product to its launches.
- `src/product.rs`: what the launches compute together: every output once, within the buffers.
- `src/values.rs`: that the outputs are dot products of dequantized rows.
- `src/scratch.rs`, `src/schedule.rs`, `src/trace.rs`: scratch buffers, the order of the work, and
  what is reported of it.

`app/` is the edge: the environment, device memory and events, single precision, printing, and the
kernels that probe a device through cuTile.
