# rawhip

Host side of a HIP accelerator for a quantised language model, verified with
Verus.

The library plans; it never touches the device. Each operation (a matrix
product, an attention step, a mixture-of-experts layer, a probe) is a function
from plain values to a sequence of device commands, and its contract says exactly
which commands those are: buffers that have to grow, transfers, kernels with
their grids and arguments, and what is remembered once a command has run. A
driver executes the commands and reports back.

- `src/` is the library. `device` and `kernels` define the command language,
  `acc` the state between requests, `gemm`, `value`, `frame_mm`, `ops`,
  `recurrent`, `shared_expert`, `moe*`, `qsa_*` and `vit` the operations,
  `probe_*`, `checks` and `f16_map` the self-tests. Proof functions whose names
  begin with `law_` state what holds across operations; those over the bytes that
  transfers leave behind stand in `memory`. What a kernel computes is not modelled.
  Where a law goes through kernels, they are its parameters, so that it holds of any
  kernel of that shape: `product_runs` and `product_groups` for groups of products,
  `recurrence_laws` and `conv_laws` for batches that are cut into bands, and
  `selection_laws` for the list of chosen positions.
- `app/` is a driver in ordinary Rust: it resolves addresses, moves bytes, runs
  the commands on a device runtime and prints reports.
- `tests/` runs the planners on concrete inputs.

Single-precision values are 32-bit patterns in the library. The one outside
call is the byte view of a word array that is hashed (`hash`).
